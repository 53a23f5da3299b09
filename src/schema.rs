//! Checking document metadata against the site's content schema.
//!
//! A schema names required fields, constrains the values of fields, and holds
//! conditional rules; it may hold nested schemas for subtrees of the content.
//! Every violation is reported; none stops the check of the others.

use vstd::prelude::*;
use vstd::string::*;
use crate::meta::{
    MetaValue, MetaEntry, Metadata, lookup, same_value, kind_name_of, decimal, decimal_of,
};
use crate::render::{render, rendered};
use crate::text::{str_eq, ends_with, has_suffix, last_index, last_index_of, lemma_last_index_bounds};
use crate::convert::texts;

verus! {

/// One violation of a schema.
pub enum ValidationError {
    MissingField(String),
    TypeMismatch { field: String, expected: String, actual: String },
    ConstraintViolation { field: String, message: String },
    RuleConditionFailed { message: String },
}

/// A violation, by the texts it holds.
pub enum Violation {
    Missing(Seq<char>),
    Mismatch(Seq<char>, Seq<char>, Seq<char>),
    Constraint(Seq<char>, Seq<char>),
    RuleFailed(Seq<char>),
}

impl View for ValidationError {
    type V = Violation;

    open spec fn view(&self) -> Violation {
        match self {
            ValidationError::MissingField(f) => Violation::Missing(f@),
            ValidationError::TypeMismatch { field, expected, actual } => Violation::Mismatch(
                field@,
                expected@,
                actual@,
            ),
            ValidationError::ConstraintViolation { field, message } => Violation::Constraint(
                field@,
                message@,
            ),
            ValidationError::RuleConditionFailed { message } => Violation::RuleFailed(message@),
        }
    }
}

/// A violation that names `field` where it names a field of a value.
pub open spec fn with_field_of(v: Violation, field: Seq<char>) -> Violation {
    match v {
        Violation::Mismatch(_, e, a) => Violation::Mismatch(field, e, a),
        Violation::Constraint(_, m) => Violation::Constraint(field, m),
        _ => v,
    }
}

/// The sentence that reports a violation.
pub open spec fn message_of(v: Violation) -> Seq<char> {
    match v {
        Violation::Missing(f) => "Missing field '"@ + f + "'"@,
        Violation::Mismatch(f, e, a) => "Type mismatch for field '"@ + f + "': expected "@ + e
            + ", got "@ + a,
        Violation::Constraint(f, m) => "Constraint violation for field '"@ + f + "': "@ + m,
        Violation::RuleFailed(m) => "Rule condition failed: "@ + m,
    }
}

pub open spec fn views(v: Seq<ValidationError>) -> Seq<Violation> {
    v.map_values(|e: ValidationError| e@)
}

impl ValidationError {
    /// Names `field` as the field of a type mismatch or a constraint violation;
    /// other violations stay as they are.
    pub fn with_field(&mut self, field: String) -> (r: &Self)
        ensures
            final(self)@ == with_field_of(old(self)@, field@),
            r@ == final(self)@,
    {
        match self {
            ValidationError::TypeMismatch { field: f, .. } => *f = field,
            ValidationError::ConstraintViolation { field: f, .. } => *f = field,
            _ => {},
        }
        self
    }

    /// The sentence that reports this violation.
    pub fn message(&self) -> (r: String)
        ensures
            r@ == message_of(self@),
    {
        match self {
            ValidationError::MissingField(f) => {
                let mut s = String::from_str("Missing field '");
                s.append(f.as_str());
                s.append("'");
                s
            },
            ValidationError::TypeMismatch { field, expected, actual } => {
                let mut s = String::from_str("Type mismatch for field '");
                s.append(field.as_str());
                s.append("': expected ");
                s.append(expected.as_str());
                s.append(", got ");
                s.append(actual.as_str());
                s
            },
            ValidationError::ConstraintViolation { field, message } => {
                let mut s = String::from_str("Constraint violation for field '");
                s.append(field.as_str());
                s.append("': ");
                s.append(message.as_str());
                s
            },
            ValidationError::RuleConditionFailed { message } => {
                let mut s = String::from_str("Rule condition failed: ");
                s.append(message.as_str());
                s
            },
        }
    }
}

/// What the value of a field must be.
pub enum FieldDefinition {
    /// Text, at most `max_length` bytes long in UTF-8, matching `pattern` somewhere.
    String { max_length: Option<usize>, pattern: Option<String> },
    /// An array holding every value of `must_contain`, with between
    /// `min_items` and `max_items` items.
    Array {
        items: Box<FieldDefinition>,
        min_items: Option<usize>,
        max_items: Option<usize>,
        must_contain: Option<Vec<MetaValue>>,
    },
    Boolean,
    Object { schema: Vec<FieldSpec> },
}

/// The definition of one named field.
pub struct FieldSpec {
    pub name: String,
    pub definition: FieldDefinition,
}

/// Whether a regular expression matches somewhere in a text: `None` when the
/// expression does not compile.
pub uninterp spec fn pattern_match(pattern: Seq<char>, text: Seq<char>) -> Option<bool>;

/// Relies on regex's `Regex::new`, which compiles `pattern` or fails on an
/// invalid one, and `Regex::is_match`, which tells whether it matches somewhere
/// in `text`; the outcome depends on the two texts alone.
#[verifier::external_body]
fn regex_is_match(pattern: &str, text: &str) -> (r: Option<bool>)
    ensures
        r == pattern_match(pattern@, text@),
{
    regex::Regex::new(pattern).ok().map(|re| re.is_match(text))
}

pub open spec fn contains_value(arr: Seq<MetaValue>, x: MetaValue) -> bool {
    exists|i: int| 0 <= i < arr.len() && #[trigger] same_value(arr[i], x)
}

/// The index of the first value of `must` that `arr` lacks, or `must.len()`.
pub open spec fn first_missing(must: Seq<MetaValue>, arr: Seq<MetaValue>) -> int
    decreases must.len(),
{
    if must.len() == 0 {
        0
    } else if !contains_value(arr, must[0]) {
        0
    } else {
        1 + first_missing(must.skip(1), arr)
    }
}

pub open spec fn string_check(max_length: Option<usize>, pattern: Option<String>, s: Seq<char>) -> Option<Violation> {
    if max_length.is_some() && vstd::utf8::encode_utf8(s).len() > max_length.unwrap() {
        Some(Violation::Constraint(Seq::empty(), "Exceeds max length "@ + decimal_of(max_length.unwrap() as nat)))
    } else {
        match pattern {
            Some(p) => match pattern_match(p@, s) {
                Some(true) => None,
                Some(false) => Some(Violation::Constraint(Seq::empty(), "No pattern matching "@ + p@)),
                None => Some(Violation::Constraint(Seq::empty(), "Invalid pattern "@ + p@)),
            },
            None => None,
        }
    }
}

pub open spec fn array_check(
    min_items: Option<usize>,
    max_items: Option<usize>,
    must_contain: Option<Vec<MetaValue>>,
    arr: Seq<MetaValue>,
) -> Option<Violation> {
    if must_contain.is_some() && first_missing(must_contain.unwrap()@, arr) < must_contain.unwrap()@.len() {
        Some(Violation::Constraint(
            Seq::empty(),
            "Missing value "@ + rendered(must_contain.unwrap()@[first_missing(must_contain.unwrap()@, arr)]),
        ))
    } else if min_items.is_some() && arr.len() < min_items.unwrap() {
        Some(Violation::Constraint(
            Seq::empty(),
            "Must contain at least "@ + decimal_of(min_items.unwrap() as nat) + " value(s)"@,
        ))
    } else if max_items.is_some() && arr.len() > max_items.unwrap() {
        Some(Violation::Constraint(
            Seq::empty(),
            "Exceeds values limit (expected "@ + decimal_of(max_items.unwrap() as nat) + " value(s))"@,
        ))
    } else {
        None
    }
}

/// What is wrong with `v` as a value of a field defined by `def`, with no
/// field named yet.
pub open spec fn field_check(def: FieldDefinition, v: MetaValue) -> Option<Violation> {
    match def {
        FieldDefinition::String { max_length, pattern } => match v {
            MetaValue::Str(s) => string_check(max_length, pattern, s@),
            _ => Some(Violation::Mismatch(Seq::empty(), "string"@, rendered(v))),
        },
        FieldDefinition::Array { min_items, max_items, must_contain, .. } => match v {
            MetaValue::Array(arr) => array_check(min_items, max_items, must_contain, arr@),
            _ => Some(Violation::Mismatch(Seq::empty(), "array"@, rendered(v))),
        },
        FieldDefinition::Boolean => if v is Bool {
            None
        } else {
            Some(Violation::Mismatch(Seq::empty(), "boolean"@, rendered(v)))
        },
        FieldDefinition::Object { .. } => Some(Violation::Mismatch(Seq::empty(), "object"@, rendered(v))),
    }
}

pub open spec fn opt_error(r: Result<(), ValidationError>) -> Option<Violation> {
    match r {
        Ok(_) => None,
        Err(e) => Some(e@),
    }
}

fn constraint(message: String) -> (r: ValidationError)
    ensures
        r@ == Violation::Constraint(Seq::empty(), message@),
{
    ValidationError::ConstraintViolation { field: String::new(), message }
}

fn mismatch(expected: &str, value: &MetaValue) -> (r: ValidationError)
    ensures
        r@ == Violation::Mismatch(Seq::empty(), expected@, rendered(*value)),
{
    ValidationError::TypeMismatch {
        field: String::new(),
        expected: String::from_str(expected),
        actual: render(value),
    }
}

/// Whether `arr` holds a value equal to `x`.
pub fn holds_value(arr: &Vec<MetaValue>, x: &MetaValue) -> (r: bool)
    ensures
        r == contains_value(arr@, *x),
{
    let mut i: usize = 0;
    while i < arr.len()
        invariant
            i <= arr@.len(),
            forall|j: int| 0 <= j < i ==> !#[trigger] same_value(arr@[j], *x),
        decreases arr.len() - i,
    {
        if arr[i].same_as(x) {
            return true;
        }
        i = i + 1;
    }
    false
}

impl FieldDefinition {
    /// Checks `value` against this definition.
    pub fn validate(&self, value: &MetaValue) -> (r: Result<(), ValidationError>)
        ensures
            opt_error(r) == field_check(*self, *value),
    {
        match self {
            FieldDefinition::String { max_length, pattern } => match value {
                MetaValue::Str(s) => {
                    if let Some(max) = max_length {
                        let bytes = s.as_str().as_bytes();
                        assert(bytes@ == vstd::utf8::encode_utf8(s@));
                        if bytes.len() > *max {
                            let mut m = String::from_str("Exceeds max length ");
                            m.append(decimal(*max as u64).as_str());
                            return Err(constraint(m));
                        }
                    }
                    if let Some(p) = pattern {
                        match regex_is_match(p.as_str(), s.as_str()) {
                            Some(true) => {},
                            Some(false) => {
                                let mut m = String::from_str("No pattern matching ");
                                m.append(p.as_str());
                                return Err(constraint(m));
                            },
                            None => {
                                let mut m = String::from_str("Invalid pattern ");
                                m.append(p.as_str());
                                return Err(constraint(m));
                            },
                        }
                    }
                    Ok(())
                },
                _ => Err(mismatch("string", value)),
            },
            FieldDefinition::Array { items: _, min_items, max_items, must_contain } => match value {
                MetaValue::Array(arr) => {
                    if let Some(required) = must_contain {
                        let mut k: usize = 0;
                        assert(required@.skip(0) =~= required@);
                        while k < required.len()
                            invariant
                                field_check(*self, *value) == array_check(*min_items, *max_items, *must_contain, arr@),
                                *must_contain == Some(*required),
                                k <= required@.len(),
                                first_missing(required@, arr@) == k + first_missing(required@.skip(k as int), arr@),
                            decreases required.len() - k,
                        {
                            assert(required@.skip(k as int)[0] == required@[k as int]);
                            if !holds_value(arr, &required[k]) {
                                assert(first_missing(required@.skip(k as int), arr@) == 0);
                                let mut m = String::from_str("Missing value ");
                                m.append(render(&required[k]).as_str());
                                return Err(constraint(m));
                            }
                            assert(required@.skip(k as int).skip(1) =~= required@.skip(k + 1));
                            k = k + 1;
                        }
                    }
                    if let Some(min) = min_items {
                        if arr.len() < *min {
                            let mut m = String::from_str("Must contain at least ");
                            m.append(decimal(*min as u64).as_str());
                            m.append(" value(s)");
                            return Err(constraint(m));
                        }
                    }
                    if let Some(max) = max_items {
                        if arr.len() > *max {
                            let mut m = String::from_str("Exceeds values limit (expected ");
                            m.append(decimal(*max as u64).as_str());
                            m.append(" value(s))");
                            return Err(constraint(m));
                        }
                    }
                    Ok(())
                },
                _ => Err(mismatch("array", value)),
            },
            FieldDefinition::Boolean => match value {
                MetaValue::Bool(_) => Ok(()),
                _ => Err(mismatch("boolean", value)),
            },
            FieldDefinition::Object { .. } => Err(mismatch("object", value)),
        }
    }
}


/// A conditional rule: when every field of `condition` holds its value, the
/// fields of `action` are required.
pub struct ValidationRule {
    pub condition: Vec<MetaEntry>,
    pub action: RuleAction,
}

/// What a rule asks for when it applies.
pub struct RuleAction {
    pub required: Option<Vec<String>>,
    pub fields: Option<Vec<FieldSpec>>,
}

/// Whether the conditions `conds` hold of `m`: an error for the first
/// condition field that `m` lacks or holds with a value of another kind.
pub open spec fn conditions_hold(conds: Seq<MetaEntry>, m: Metadata) -> Result<bool, Violation>
    decreases conds.len(),
{
    if conds.len() == 0 {
        Ok(true)
    } else {
        let field = conds[0].key@;
        let expected = conds[0].value;
        match lookup(m.entries@, field) {
            Some(actual) => if kind_name_of(actual) != kind_name_of(expected) {
                Err(Violation::RuleFailed(
                    "Type mismatch in condition field '"@ + field + "': expected "@ + kind_name_of(expected)
                        + ", got "@ + kind_name_of(actual),
                ))
            } else {
                match conditions_hold(conds.skip(1), m) {
                    Ok(rest) => Ok(same_value(actual, expected) && rest),
                    Err(e) => Err(e),
                }
            },
            None => Err(Violation::RuleFailed("Missing condition field '"@ + field + "'"@)),
        }
    }
}

pub open spec fn result_view(r: Result<bool, ValidationError>) -> Result<bool, Violation> {
    match r {
        Ok(b) => Ok(b),
        Err(e) => Err(e@),
    }
}

impl ValidationRule {
    /// Whether the rule applies to the metadata `metadata`.
    pub fn applies(&self, metadata: &Metadata) -> (r: Result<bool, ValidationError>)
        ensures
            result_view(r) == conditions_hold(self.condition@, *metadata),
    {
        let conds = &self.condition;
        let mut k: usize = conds.len();
        let mut acc: Result<bool, ValidationError> = Ok(true);
        assert(conds@.skip(conds@.len() as int) =~= Seq::<MetaEntry>::empty());
        while k > 0
            invariant
                k <= conds@.len(),
                result_view(acc) == conditions_hold(conds@.skip(k as int), *metadata),
            decreases k,
        {
            let i = k - 1;
            assert(conds@.skip(i as int).skip(1) =~= conds@.skip(k as int));
            let field = &conds[i].key;
            let expected = &conds[i].value;
            acc = match metadata.get(field.as_str()) {
                Some(actual) => {
                    if !str_eq(actual.kind_name(), expected.kind_name()) {
                        let mut m = String::from_str("Type mismatch in condition field '");
                        m.append(field.as_str());
                        m.append("': expected ");
                        m.append(expected.kind_name());
                        m.append(", got ");
                        m.append(actual.kind_name());
                        Err(ValidationError::RuleConditionFailed { message: m })
                    } else {
                        match acc {
                            Ok(rest) => Ok(actual.same_as(expected) && rest),
                            Err(e) => Err(e),
                        }
                    }
                },
                None => {
                    let mut m = String::from_str("Missing condition field '");
                    m.append(field.as_str());
                    m.append("'");
                    Err(ValidationError::RuleConditionFailed { message: m })
                },
            };
            k = i;
        }
        assert(conds@.skip(0) =~= conds@);
        acc
    }
}

/// The definition of the first field named `name`.
pub open spec fn definition_of(fields: Seq<FieldSpec>, name: Seq<char>) -> Option<FieldDefinition>
    decreases fields.len(),
{
    if fields.len() == 0 {
        None
    } else if fields[0].name@ == name {
        Some(fields[0].definition)
    } else {
        definition_of(fields.skip(1), name)
    }
}

/// The definition of the field named `name`.
pub fn find_definition<'a>(fields: &Vec<&'a FieldSpec>, name: &str) -> (r: Option<&'a FieldDefinition>)
    ensures
        match r {
            Some(d) => definition_of(derefs(fields@), name@) == Some(*d),
            None => definition_of(derefs(fields@), name@).is_none(),
        },
{
    let mut i: usize = 0;
    assert(derefs(fields@).skip(0) =~= derefs(fields@));
    while i < fields.len()
        invariant
            i <= fields@.len(),
            definition_of(derefs(fields@), name@) == definition_of(derefs(fields@).skip(i as int), name@),
        decreases fields.len() - i,
    {
        assert(derefs(fields@).skip(i as int).skip(1) =~= derefs(fields@).skip(i + 1));
        assert(derefs(fields@).skip(i as int)[0] == *fields@[i as int]);
        if str_eq(fields[i].name.as_str(), name) {
            return Some(&fields[i].definition);
        }
        i = i + 1;
    }
    None
}

/// The requirements that apply to one document, once the schemas of its path
/// are merged.
pub struct MergedSchema<'a> {
    pub required: Vec<String>,
    pub fields: Vec<&'a FieldSpec>,
    pub rules: Vec<&'a ValidationRule>,
}

/// The values behind a sequence of references.
pub open spec fn derefs<T>(s: Seq<&T>) -> Seq<T> {
    s.map_values(|x: &T| *x)
}

pub open spec fn has_field(m: Metadata, name: Seq<char>) -> bool {
    lookup(m.entries@, name).is_some()
}

/// A missing-field violation for each of `names` that `m` lacks, in order.
pub open spec fn missing_fields(names: Seq<Seq<char>>, m: Metadata) -> Seq<Violation>
    decreases names.len(),
{
    if names.len() == 0 {
        Seq::empty()
    } else {
        let rest = missing_fields(names.drop_last(), m);
        if has_field(m, names.last()) {
            rest
        } else {
            rest.push(Violation::Missing(names.last()))
        }
    }
}

/// A violation for each entry of `entries` whose value breaks the definition
/// of its field, naming the field, in order.
pub open spec fn field_violations(entries: Seq<MetaEntry>, fields: Seq<FieldSpec>) -> Seq<Violation>
    decreases entries.len(),
{
    if entries.len() == 0 {
        Seq::empty()
    } else {
        let rest = field_violations(entries.drop_last(), fields);
        let e = entries.last();
        match definition_of(fields, e.key@) {
            Some(def) => match field_check(def, e.value) {
                Some(v) => rest.push(with_field_of(v, e.key@)),
                None => rest,
            },
            None => rest,
        }
    }
}

/// The violations of the rules `rules`: the fields that an applying rule
/// requires and `m` lacks, and the error of a rule whose condition fails.
pub open spec fn rule_violations(rules: Seq<ValidationRule>, m: Metadata) -> Seq<Violation>
    decreases rules.len(),
{
    if rules.len() == 0 {
        Seq::empty()
    } else {
        let rest = rule_violations(rules.drop_last(), m);
        let rule = rules.last();
        match conditions_hold(rule.condition@, m) {
            Ok(true) => match rule.action.required {
                Some(req) => rest + missing_fields(texts(req@), m),
                None => rest,
            },
            Ok(false) => rest,
            Err(v) => rest.push(v),
        }
    }
}

/// Every violation of `merged` by `m`: missing required fields, then bad
/// values, then the violations of the rules.
pub open spec fn violations_of(m: Metadata, merged: MergedSchema) -> Seq<Violation> {
    missing_fields(texts(merged.required@), m) + field_violations(m.entries@, derefs(merged.fields@))
        + rule_violations(derefs(merged.rules@), m)
}

/// Appends a missing-field violation for each of `names` that `metadata` lacks.
fn push_missing(names: &Vec<String>, metadata: &Metadata, errors: &mut Vec<ValidationError>)
    ensures
        views(final(errors)@) == views(old(errors)@) + missing_fields(texts(names@), *metadata),
{
    let mut i: usize = 0;
    assert(texts(names@).take(0) =~= Seq::<Seq<char>>::empty());
    assert(views(errors@) =~= views(old(errors)@) + missing_fields(texts(names@).take(0), *metadata));
    while i < names.len()
        invariant
            i <= names@.len(),
            views(errors@) == views(old(errors)@) + missing_fields(texts(names@).take(i as int), *metadata),
        decreases names.len() - i,
    {
        assert(texts(names@).take(i + 1).drop_last() =~= texts(names@).take(i as int));
        assert(texts(names@).take(i + 1).last() == names@[i as int]@);
        let ghost prev = errors@;
        if metadata.get(names[i].as_str()).is_none() {
            errors.push(ValidationError::MissingField(names[i].clone()));
            assert(views(errors@) =~= views(prev).push(Violation::Missing(names@[i as int]@)));
        }
        assert(views(errors@) =~= views(old(errors)@) + missing_fields(texts(names@).take(i + 1), *metadata));
        i = i + 1;
    }
    assert(texts(names@).take(names@.len() as int) =~= texts(names@));
}

/// Checks `metadata` against `merged` and returns every violation.
pub fn validate_metadata(metadata: &Metadata, merged: &MergedSchema) -> (r: Vec<ValidationError>)
    ensures
        views(r@) == violations_of(*metadata, *merged),
{
    let mut errors: Vec<ValidationError> = Vec::new();
    assert(views(errors@) =~= Seq::<Violation>::empty());
    push_missing(&merged.required, metadata, &mut errors);
    let ghost after_required = views(errors@);
    let entries = &metadata.entries;
    let mut i: usize = 0;
    assert(entries@.take(0) =~= Seq::<MetaEntry>::empty());
    while i < entries.len()
        invariant
            i <= entries@.len(),
            *entries == metadata.entries,
            views(errors@) == after_required + field_violations(entries@.take(i as int), derefs(merged.fields@)),
        decreases entries.len() - i,
    {
        assert(entries@.take(i + 1).drop_last() =~= entries@.take(i as int));
        let entry = &entries[i];
        let ghost prev = errors@;
        assert(entries@.take(i + 1).last() == entry);
        if let Some(def) = find_definition(&merged.fields, entry.key.as_str()) {
            assert(definition_of(derefs(merged.fields@), entry.key@) == Some(*def));
            match def.validate(&entry.value) {
                Ok(_) => {},
                Err(e) => {
                    let mut e = e;
                    e.with_field(entry.key.clone());
                    errors.push(e);
                    assert(views(errors@) =~= views(prev).push(e@));
                },
            }
        }
        assert(views(errors@) =~= after_required + field_violations(entries@.take(i + 1), derefs(merged.fields@)));
        i = i + 1;
    }
    assert(entries@.take(entries@.len() as int) =~= entries@);
    let ghost after_fields = views(errors@);
    let rules = &merged.rules;
    let mut k: usize = 0;
    assert(derefs(rules@).take(0) =~= Seq::<ValidationRule>::empty());
    assert(after_fields =~= after_fields + rule_violations(derefs(rules@).take(0), *metadata));
    while k < rules.len()
        invariant
            k <= rules@.len(),
            *rules == merged.rules,
            views(errors@) == after_fields + rule_violations(derefs(rules@).take(k as int), *metadata),
        decreases rules.len() - k,
    {
        assert(derefs(rules@).take(k + 1).drop_last() =~= derefs(rules@).take(k as int));
        let rule: &ValidationRule = rules[k];
        let ghost prev = errors@;
        assert(derefs(rules@).take(k + 1).last() == *rule);
        match rule.applies(metadata) {
            Ok(true) => {
                if let Some(required) = &rule.action.required {
                    push_missing(required, metadata, &mut errors);
                }
            },
            Ok(false) => {},
            Err(e) => {
                errors.push(e);
                assert(views(errors@) =~= views(prev).push(e@));
            },
        }
        assert(views(errors@) =~= after_fields + rule_violations(derefs(rules@).take(k + 1), *metadata));
        k = k + 1;
    }
    assert(derefs(rules@).take(rules@.len() as int) =~= derefs(rules@));
    errors
}

/// The report of the violations of one document.
pub open spec fn report_of(file_path: Seq<char>, schema_path: Seq<char>, errors: Seq<Violation>, as_warnings: bool) -> Seq<char> {
    report_header(file_path, schema_path, as_warnings) + report_lines(errors)
}

pub open spec fn report_header(file_path: Seq<char>, schema_path: Seq<char>, as_warnings: bool) -> Seq<char> {
    (if as_warnings { "Warning"@ } else { "Error"@ }) + ": Validation "@ + (if as_warnings {
        "issues"@
    } else {
        "failed"@
    }) + " for '"@ + file_path + "'\n"@ + "  \u{2192} Schema applied: '"@ + schema_path + "'\n"@
}

pub open spec fn report_lines(errors: Seq<Violation>) -> Seq<char>
    decreases errors.len(),
{
    if errors.len() == 0 {
        Seq::empty()
    } else {
        report_lines(errors.drop_last()) + "  \u{2192} "@ + message_of(errors.last()) + "\n"@
    }
}

/// The report of the violations `errors` found in the document at `file_path`
/// under the schema of `schema_path`, as errors or as warnings.
pub fn format_errors(file_path: &str, schema_path: &str, errors: &Vec<ValidationError>, as_warnings: bool) -> (r: String)
    ensures
        r@ == report_of(file_path@, schema_path@, views(errors@), as_warnings),
{
    let mut out = if as_warnings { String::from_str("Warning") } else { String::from_str("Error") };
    out.append(": Validation ");
    out.append(if as_warnings { "issues" } else { "failed" });
    out.append(" for '");
    out.append(file_path);
    out.append("'\n");
    out.append("  \u{2192} Schema applied: '");
    out.append(schema_path);
    out.append("'\n");
    let ghost head = out@;
    assert(head == report_header(file_path@, schema_path@, as_warnings));
    let mut i: usize = 0;
    assert(views(errors@).take(0) =~= Seq::<Violation>::empty());
    assert(out@ =~= head + report_lines(views(errors@).take(0)));
    while i < errors.len()
        invariant
            i <= errors@.len(),
            out@ == head + report_lines(views(errors@).take(i as int)),
        decreases errors.len() - i,
    {
        assert(views(errors@).take(i + 1).drop_last() =~= views(errors@).take(i as int));
        assert(views(errors@).take(i + 1).last() == errors@[i as int]@);
        out.append("  \u{2192} ");
        out.append(errors[i].message().as_str());
        out.append("\n");
        assert(out@ =~= head + report_lines(views(errors@).take(i + 1)));
        i = i + 1;
    }
    assert(views(errors@).take(errors@.len() as int) =~= views(errors@));
    out
}


/// A content schema, with nested schemas for named subdirectories.
pub struct ContentSchema {
    pub required: Vec<String>,
    pub fields: Vec<FieldSpec>,
    pub rules: Vec<ValidationRule>,
    pub paths: Vec<SchemaPath>,
}

/// The schema of one subdirectory.
pub struct SchemaPath {
    pub name: String,
    pub schema: Box<ContentSchema>,
}

/// The non-empty components of `p` between separators.
pub open spec fn path_components(p: Seq<char>) -> Seq<Seq<char>>
    decreases p.len(),
{
    let k = last_index_of(p, '/');
    if k < 0 || k >= p.len() {
        if p.len() > 0 {
            seq![p]
        } else {
            Seq::empty()
        }
    } else {
        let head = path_components(p.take(k));
        let tail = p.skip(k + 1);
        if tail.len() > 0 {
            head.push(tail)
        } else {
            head
        }
    }
}

/// The non-empty components of `p` between separators.
pub fn split_components(p: &str) -> (r: Vec<String>)
    ensures
        texts(r@) == path_components(p@),
    decreases p@.len(),
{
    proof {
        lemma_last_index_bounds(p@, '/');
    }
    let n = p.unicode_len();
    match last_index(p, '/') {
        None => {
            let mut out: Vec<String> = Vec::new();
            if n > 0 {
                out.push(String::from_str(p));
            }
            assert(texts(out@) =~= path_components(p@));
            out
        },
        Some(k) => {
            let mut out = split_components(p.substring_char(0, k));
            let tail = p.substring_char(k + 1, n);
            assert(tail@ =~= p@.skip(k + 1));
            let ghost head = out@;
            if n - (k + 1) > 0 {
                out.push(String::from_str(tail));
                assert(texts(out@) =~= texts(head).push(tail@));
            }
            out
        },
    }
}

/// The schema of the first subdirectory named `name`.
pub open spec fn child_named(paths: Seq<SchemaPath>, name: Seq<char>) -> Option<ContentSchema>
    decreases paths.len(),
{
    if paths.len() == 0 {
        None
    } else if paths[0].name@ == name {
        Some(*paths[0].schema)
    } else {
        child_named(paths.skip(1), name)
    }
}

/// The schemas met walking `comps` down from `node`; a component without a
/// schema of its own is passed over.
pub open spec fn chain_from(node: ContentSchema, comps: Seq<Seq<char>>) -> Seq<ContentSchema>
    decreases comps.len(),
{
    if comps.len() == 0 {
        Seq::empty()
    } else {
        match child_named(node.paths@, comps[0]) {
            Some(c) => seq![c] + chain_from(c, comps.skip(1)),
            None => chain_from(node, comps.skip(1)),
        }
    }
}

/// The schemas that apply to the content at `content_path`, from the most
/// general to the most specific.
pub open spec fn resolved_of(root: ContentSchema, content_path: Seq<char>) -> Seq<ContentSchema> {
    seq![root] + chain_from(root, path_components(content_path))
}

fn find_child<'a>(paths: &'a Vec<SchemaPath>, name: &str) -> (r: Option<&'a ContentSchema>)
    ensures
        match r {
            Some(c) => child_named(paths@, name@) == Some(*c),
            None => child_named(paths@, name@).is_none(),
        },
{
    let mut i: usize = 0;
    assert(paths@.skip(0) =~= paths@);
    while i < paths.len()
        invariant
            i <= paths@.len(),
            child_named(paths@, name@) == child_named(paths@.skip(i as int), name@),
        decreases paths.len() - i,
    {
        assert(paths@.skip(i as int).skip(1) =~= paths@.skip(i + 1));
        assert(paths@.skip(i as int)[0] == paths@[i as int]);
        if str_eq(paths[i].name.as_str(), name) {
            return Some(&*paths[i].schema);
        }
        i = i + 1;
    }
    None
}

/// The required fields of `nodes` in order, each field once unless one
/// schema names it twice.
pub open spec fn merged_required(nodes: Seq<ContentSchema>) -> Seq<Seq<char>>
    decreases nodes.len(),
{
    if nodes.len() == 0 {
        Seq::empty()
    } else {
        let acc = merged_required(nodes.drop_last());
        acc + texts(nodes.last().required@).filter(|f: Seq<char>| !acc.contains(f))
    }
}

/// `acc` with the definition `f` put in: it replaces the first one of the same
/// name, or comes last.
pub open spec fn put_field(acc: Seq<FieldSpec>, f: FieldSpec) -> Seq<FieldSpec> {
    if exists|i: int| 0 <= i < acc.len() && #[trigger] acc[i].name@ == f.name@ {
        acc.update(first_named(acc, f.name@), f)
    } else {
        acc.push(f)
    }
}

pub open spec fn first_named(acc: Seq<FieldSpec>, name: Seq<char>) -> int
    decreases acc.len(),
{
    if acc.len() == 0 {
        0
    } else if acc[0].name@ == name {
        0
    } else {
        1 + first_named(acc.skip(1), name)
    }
}

pub open spec fn put_fields(acc: Seq<FieldSpec>, fs: Seq<FieldSpec>) -> Seq<FieldSpec>
    decreases fs.len(),
{
    if fs.len() == 0 {
        acc
    } else {
        put_field(put_fields(acc, fs.drop_last()), fs.last())
    }
}

/// The field definitions of `nodes`, a later schema overriding an earlier one.
pub open spec fn merged_fields(nodes: Seq<ContentSchema>) -> Seq<FieldSpec>
    decreases nodes.len(),
{
    if nodes.len() == 0 {
        Seq::empty()
    } else {
        put_fields(merged_fields(nodes.drop_last()), nodes.last().fields@)
    }
}

/// The rules of `nodes`, in order.
pub open spec fn merged_rules(nodes: Seq<ContentSchema>) -> Seq<ValidationRule>
    decreases nodes.len(),
{
    if nodes.len() == 0 {
        Seq::empty()
    } else {
        merged_rules(nodes.drop_last()) + nodes.last().rules@
    }
}

proof fn lemma_first_named(acc: Seq<FieldSpec>, name: Seq<char>)
    ensures
        0 <= first_named(acc, name) <= acc.len(),
        first_named(acc, name) < acc.len() ==> acc[first_named(acc, name)].name@ == name,
        forall|j: int| 0 <= j < first_named(acc, name) ==> acc[j].name@ != name,
    decreases acc.len(),
{
    if acc.len() > 0 && acc[0].name@ != name {
        lemma_first_named(acc.skip(1), name);
        assert forall|j: int| 0 <= j < first_named(acc, name) implies acc[j].name@ != name by {
            if j > 0 {
                assert(acc[j] == acc.skip(1)[j - 1]);
            }
        }
    }
}

impl ContentSchema {
    /// The schemas that apply to the content at `content_path` (a path below
    /// the source tree without extension), from the most general to the most
    /// specific.
    pub fn resolve_path<'a>(&'a self, content_path: &str) -> (r: Vec<&'a ContentSchema>)
        ensures
            derefs(r@) == resolved_of(*self, content_path@),
    {
        let comps = split_components(content_path);
        let mut nodes: Vec<&'a ContentSchema> = Vec::new();
        nodes.push(self);
        let mut current: &'a ContentSchema = self;
        let mut i: usize = 0;
        assert(texts(comps@).skip(0) =~= texts(comps@));
        assert(derefs(nodes@) =~= seq![*self]);
        while i < comps.len()
            invariant
                i <= comps@.len(),
                texts(comps@) == path_components(content_path@),
                derefs(nodes@) + chain_from(*current, texts(comps@).skip(i as int)) == resolved_of(
                    *self,
                    content_path@,
                ),
            decreases comps.len() - i,
        {
            let ghost rest = texts(comps@).skip(i as int);
            assert(rest[0] == comps@[i as int]@);
            assert(rest.skip(1) =~= texts(comps@).skip(i + 1));
            let ghost before = derefs(nodes@);
            match find_child(&current.paths, comps[i].as_str()) {
                Some(child) => {
                    nodes.push(child);
                    assert(derefs(nodes@) =~= before.push(*child));
                    assert(before + chain_from(*current, rest) =~= derefs(nodes@) + chain_from(*child, texts(comps@).skip(i + 1)));
                    current = child;
                },
                None => {},
            }
            i = i + 1;
        }
        assert(texts(comps@).skip(comps@.len() as int) =~= Seq::<Seq<char>>::empty());
        assert(derefs(nodes@) =~= derefs(nodes@) + Seq::<ContentSchema>::empty());
        nodes
    }

    /// Merges the schemas `nodes`, from the most general to the most specific:
    /// required fields are joined, a later field definition overrides an
    /// earlier one of the same name, and rules are joined in order.
    pub fn merge_hierarchy<'a>(nodes: &Vec<&'a ContentSchema>) -> (r: MergedSchema<'a>)
        ensures
            texts(r.required@) == merged_required(derefs(nodes@)),
            derefs(r.fields@) == merged_fields(derefs(nodes@)),
            derefs(r.rules@) == merged_rules(derefs(nodes@)),
    {
        let mut required: Vec<String> = Vec::new();
        let mut fields: Vec<&'a FieldSpec> = Vec::new();
        let mut rules: Vec<&'a ValidationRule> = Vec::new();
        let mut i: usize = 0;
        assert(derefs(nodes@).take(0) =~= Seq::<ContentSchema>::empty());
        assert(texts(required@) =~= Seq::<Seq<char>>::empty());
        assert(derefs(fields@) =~= Seq::<FieldSpec>::empty());
        assert(derefs(rules@) =~= Seq::<ValidationRule>::empty());
        while i < nodes.len()
            invariant
                i <= nodes@.len(),
                texts(required@) == merged_required(derefs(nodes@).take(i as int)),
                derefs(fields@) == merged_fields(derefs(nodes@).take(i as int)),
                derefs(rules@) == merged_rules(derefs(nodes@).take(i as int)),
            decreases nodes.len() - i,
        {
            let node: &'a ContentSchema = nodes[i];
            let ghost prefix = derefs(nodes@).take(i + 1);
            assert(prefix.drop_last() =~= derefs(nodes@).take(i as int));
            assert(prefix.last() == *node);
            let ghost acc = texts(required@);
            let ghost pred = |f: Seq<char>| !acc.contains(f);
            let n_before = required.len();
            let mut j: usize = 0;
            assert(texts(node.required@).take(0).filter(pred) =~= Seq::<Seq<char>>::empty());
            assert(texts(required@) =~= acc + texts(node.required@).take(0).filter(pred));
            while j < node.required.len()
                invariant
                    j <= node.required@.len(),
                    n_before == acc.len(),
                    n_before <= required@.len(),
                    pred == (|f: Seq<char>| !acc.contains(f)),
                    texts(required@) == acc + texts(node.required@).take(j as int).filter(pred),
                decreases node.required.len() - j,
            {
                let f = &node.required[j];
                proof {
                    assert(texts(node.required@).take(j + 1) =~= texts(node.required@).take(j as int).push(f@));
                    texts(node.required@).take(j as int).lemma_filter_push(f@, pred);
                }
                let mut seen = false;
                let mut l: usize = 0;
                while l < n_before
                    invariant
                        l <= n_before,
                        n_before == acc.len(),
                        n_before <= required@.len(),
                        texts(required@).take(n_before as int) == acc,
                        !seen ==> forall|x: int| 0 <= x < l ==> acc[x] != f@,
                        seen ==> acc.contains(f@),
                    decreases n_before - l,
                {
                    assert(acc[l as int] == required@[l as int]@);
                    if str_eq(required[l].as_str(), f.as_str()) {
                        seen = true;
                    }
                    l = l + 1;
                }
                let ghost old_req = texts(required@);
                if !seen {
                    required.push(f.clone());
                    assert(texts(required@) =~= old_req.push(f@));
                }
                j = j + 1;
            }
            assert(texts(node.required@).take(node.required@.len() as int) =~= texts(node.required@));
            let mut k: usize = 0;
            let ghost fbase = derefs(fields@);
            assert(node.fields@.take(0) =~= Seq::<FieldSpec>::empty());
            while k < node.fields.len()
                invariant
                    k <= node.fields@.len(),
                    derefs(fields@) == put_fields(fbase, node.fields@.take(k as int)),
                decreases node.fields.len() - k,
            {
                let f: &'a FieldSpec = &node.fields[k];
                assert(node.fields@.take(k + 1).drop_last() =~= node.fields@.take(k as int));
                assert(node.fields@.take(k + 1).last() == *f);
                let ghost cur = derefs(fields@);
                proof {
                    lemma_first_named(cur, f.name@);
                }
                let mut m: usize = 0;
                while m < fields.len() && !str_eq(fields[m].name.as_str(), f.name.as_str())
                    invariant
                        m <= fields@.len(),
                        cur == derefs(fields@),
                        forall|x: int| 0 <= x < m ==> cur[x].name@ != f.name@,
                    decreases fields.len() - m,
                {
                    m = m + 1;
                }
                let found = m < fields.len();
                if found {
                    assert(cur[m as int].name@ == f.name@);
                    assert(first_named(cur, f.name@) == m) by {
                        if first_named(cur, f.name@) < m {
                            assert(cur[first_named(cur, f.name@)].name@ == f.name@);
                        }
                        if first_named(cur, f.name@) > m {
                            assert(cur[m as int].name@ != f.name@);
                        }
                    }
                    fields.set(m, f);
                    assert(derefs(fields@) =~= cur.update(m as int, *f));
                } else {
                    assert(!exists|x: int| 0 <= x < cur.len() && #[trigger] cur[x].name@ == f.name@);
                    fields.push(f);
                    assert(derefs(fields@) =~= cur.push(*f));
                }
                k = k + 1;
            }
            assert(node.fields@.take(node.fields@.len() as int) =~= node.fields@);
            let mut q: usize = 0;
            let ghost rbase = derefs(rules@);
            while q < node.rules.len()
                invariant
                    q <= node.rules@.len(),
                    derefs(rules@) == rbase + node.rules@.take(q as int),
                decreases node.rules.len() - q,
            {
                let ghost before = derefs(rules@);
                rules.push(&node.rules[q]);
                assert(derefs(rules@) =~= before.push(node.rules@[q as int]));
                assert(node.rules@.take(q + 1) =~= node.rules@.take(q as int).push(node.rules@[q as int]));
                q = q + 1;
            }
            assert(node.rules@.take(node.rules@.len() as int) =~= node.rules@);
            i = i + 1;
        }
        assert(derefs(nodes@).take(nodes@.len() as int) =~= derefs(nodes@));
        MergedSchema { required, fields, rules }
    }
}

/// The content path of a document: its path below the source tree with every
/// trailing `.norg` taken off.
pub open spec fn content_path_of(rel: Seq<char>) -> Seq<char>
    decreases rel.len(),
{
    if has_suffix(rel, ".norg"@) && rel.len() >= 5 {
        content_path_of(rel.take(rel.len() - 5))
    } else {
        rel
    }
}

/// The content path of the document at `rel`.
pub fn content_path(rel: &str) -> (r: String)
    ensures
        r@ == content_path_of(rel@),
{
    let mut cur = String::from_str(rel);
    proof {
        reveal_strlit(".norg");
    }
    while ends_with(cur.as_str(), ".norg")
        invariant
            content_path_of(cur@) == content_path_of(rel@),
        decreases cur@.len(),
    {
        proof {
            reveal_strlit(".norg");
        }
        let n = cur.as_str().unicode_len();
        cur = String::from_str(cur.as_str().substring_char(0, n - 5));
    }
    cur
}

/// Checks the metadata of the document at `rel` (a path below the source
/// tree), found at `file_path`, against the schemas that apply to it; returns
/// the report of its violations, or an empty text when there are none.
pub fn validate_content_metadata(
    file_path: &str,
    rel: &str,
    metadata: &Metadata,
    schema: &ContentSchema,
    as_warnings: bool,
) -> (r: String)
    ensures
        ({
            let nodes = resolved_of(*schema, content_path_of(rel@));
            let merged = violations_of_nodes(*metadata, nodes);
            &&& merged.len() == 0 ==> r@.len() == 0
            &&& merged.len() > 0 ==> r@ == report_of(file_path@, content_path_of(rel@), merged, as_warnings)
        }),
{
    let path = content_path(rel);
    let nodes = schema.resolve_path(path.as_str());
    let merged = ContentSchema::merge_hierarchy(&nodes);
    let errors = validate_metadata(metadata, &merged);
    assert(views(errors@) == violations_of_nodes(*metadata, derefs(nodes@)));
    if errors.len() == 0 {
        String::new()
    } else {
        format_errors(file_path, path.as_str(), &errors, as_warnings)
    }
}

/// Every violation of the merged schemas `nodes` by `m`.
pub open spec fn violations_of_nodes(m: Metadata, nodes: Seq<ContentSchema>) -> Seq<Violation> {
    missing_fields(merged_required(nodes), m) + field_violations(m.entries@, merged_fields(nodes))
        + rule_violations(merged_rules(nodes), m)
}

} // verus!
