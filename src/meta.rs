//! Document metadata: a free-form tree of tagged values keyed by name, with
//! typed accessors that fall back to a default instead of failing.

use vstd::prelude::*;
use vstd::string::*;

verus! {

/// One metadata value.
pub enum MetaValue {
    Str(String),
    Int(i64),
    Bool(bool),
    /// A floating-point number, by its text.
    Float(String),
    /// A date or time, by its text.
    Datetime(String),
    Array(Vec<MetaValue>),
    Table(Vec<MetaEntry>),
}

/// A named metadata value.
pub struct MetaEntry {
    pub key: String,
    pub value: MetaValue,
}

/// The metadata of one document, in the order its entries were read.
pub struct Metadata {
    pub entries: Vec<MetaEntry>,
}

/// The value of the first entry named `key`.
pub open spec fn lookup(entries: Seq<MetaEntry>, key: Seq<char>) -> Option<MetaValue>
    decreases entries.len(),
{
    if entries.len() == 0 {
        None
    } else if entries[0].key@ == key {
        Some(entries[0].value)
    } else {
        lookup(entries.skip(1), key)
    }
}

/// Two scalar values hold the same data; arrays and tables are no scalars.
pub open spec fn same_scalar(a: MetaValue, b: MetaValue) -> bool {
    match a {
        MetaValue::Str(x) => b is Str && x@ == b->Str_0@,
        MetaValue::Int(x) => b is Int && x == b->Int_0,
        MetaValue::Bool(x) => b is Bool && x == b->Bool_0,
        MetaValue::Float(x) => b is Float && x@ == b->Float_0@,
        MetaValue::Datetime(x) => b is Datetime && x@ == b->Datetime_0@,
        _ => false,
    }
}

/// Two values hold the same data: scalars by content, arrays item by item,
/// tables entry by entry in order.
pub open spec fn same_value(a: MetaValue, b: MetaValue) -> bool
    decreases a,
{
    match a {
        MetaValue::Array(x) => b is Array && same_values(x@, b->Array_0@),
        MetaValue::Table(x) => b is Table && same_entries(x@, b->Table_0@),
        _ => same_scalar(a, b),
    }
}

/// Two sequences of values hold the same data, item by item.
pub open spec fn same_values(xs: Seq<MetaValue>, ys: Seq<MetaValue>) -> bool
    decreases xs,
{
    if xs.len() == 0 {
        ys.len() == 0
    } else {
        ys.len() > 0 && same_value(xs[0], ys[0]) && same_values(xs.skip(1), ys.skip(1))
    }
}

/// Two sequences of entries hold the same keys and data, entry by entry.
pub open spec fn same_entries(xs: Seq<MetaEntry>, ys: Seq<MetaEntry>) -> bool
    decreases xs,
{
    if xs.len() == 0 {
        ys.len() == 0
    } else {
        ys.len() > 0 && xs[0].key@ == ys[0].key@ && same_value(xs[0].value, ys[0].value) && same_entries(
            xs.skip(1),
            ys.skip(1),
        )
    }
}

/// The name of the kind of a value.
pub open spec fn kind_name_of(v: MetaValue) -> Seq<char> {
    match v {
        MetaValue::Str(_) => "string"@,
        MetaValue::Int(_) => "integer"@,
        MetaValue::Bool(_) => "boolean"@,
        MetaValue::Float(_) => "float"@,
        MetaValue::Datetime(_) => "datetime"@,
        MetaValue::Array(_) => "array"@,
        MetaValue::Table(_) => "table"@,
    }
}

/// A document is a draft when its `draft` entry is `true`.
pub open spec fn is_draft_meta(m: Metadata) -> bool {
    lookup(m.entries@, "draft"@) == Some(MetaValue::Bool(true))
}

/// The text of the entry named `key`, when it is text.
pub open spec fn text_entry(m: Metadata, key: Seq<char>) -> Option<Seq<char>> {
    match lookup(m.entries@, key) {
        Some(MetaValue::Str(s)) => Some(s@),
        _ => None,
    }
}

/// The layout a document asks for, `default` when it names none.
pub open spec fn layout_of(m: Metadata) -> Seq<char> {
    match text_entry(m, "layout"@) {
        Some(s) => s,
        None => "default"@,
    }
}

/// The text items of an array value, in order.
pub open spec fn text_items(items: Seq<MetaValue>) -> Seq<Seq<char>>
    decreases items.len(),
{
    if items.len() == 0 {
        Seq::empty()
    } else {
        let rest = text_items(items.drop_last());
        match items.last() {
            MetaValue::Str(s) => rest.push(s@),
            _ => rest,
        }
    }
}

/// The categories of a document: the text items of its `categories` array.
pub open spec fn categories_of(m: Metadata) -> Seq<Seq<char>> {
    match lookup(m.entries@, "categories"@) {
        Some(MetaValue::Array(items)) => text_items(items@),
        _ => Seq::empty(),
    }
}

/// The decimal digits of `n`.
pub open spec fn decimal_of(n: nat) -> Seq<char>
    decreases n,
{
    if n < 10 {
        seq![digit_char(n)]
    } else {
        decimal_of(n / 10).push(digit_char(n % 10))
    }
}

pub open spec fn digit_char(d: nat) -> char {
    if d == 0 { '0' } else if d == 1 { '1' } else if d == 2 { '2' } else if d == 3 { '3' }
    else if d == 4 { '4' } else if d == 5 { '5' } else if d == 6 { '6' } else if d == 7 { '7' }
    else if d == 8 { '8' } else { '9' }
}

/// The digit `d` as text.
fn digit_text(d: u64) -> (r: &'static str)
    requires
        d < 10,
    ensures
        r@ == seq![digit_char(d as nat)],
{
    let digits = "0123456789";
    proof {
        reveal_strlit("0123456789");
    }
    let r = digits.substring_char(d as usize, (d + 1) as usize);
    assert(r@ =~= seq![digit_char(d as nat)]);
    r
}

/// The decimal text of `n`.
pub fn decimal(n: u64) -> (r: String)
    ensures
        r@ == decimal_of(n as nat),
    decreases n,
{
    if n < 10 {
        String::from_str(digit_text(n))
    } else {
        let mut s = decimal(n / 10);
        s.append(digit_text(n % 10));
        s
    }
}

/// The decimal text of a signed `n`.
pub open spec fn signed_decimal_of(n: int) -> Seq<char> {
    if n < 0 {
        seq!['-'] + decimal_of((-n) as nat)
    } else {
        decimal_of(n as nat)
    }
}

pub fn signed_decimal(n: i64) -> (r: String)
    ensures
        r@ == signed_decimal_of(n as int),
{
    if n < 0 {
        let mut s = String::from_str("-");
        proof {
            reveal_strlit("-");
        }
        let m: u64 = if n == i64::MIN { 9223372036854775808u64 } else { (-n) as u64 };
        let d = decimal(m);
        s.append(d.as_str());
        s
    } else {
        decimal(n as u64)
    }
}

impl MetaValue {
    /// The name of the kind of this value.
    pub fn kind_name(&self) -> (r: &'static str)
        ensures
            r@ == kind_name_of(*self),
    {
        match self {
            MetaValue::Str(_) => "string",
            MetaValue::Int(_) => "integer",
            MetaValue::Bool(_) => "boolean",
            MetaValue::Float(_) => "float",
            MetaValue::Datetime(_) => "datetime",
            MetaValue::Array(_) => "array",
            MetaValue::Table(_) => "table",
        }
    }

    /// Whether two scalar values hold the same data.
    pub fn same_scalar_as(&self, other: &MetaValue) -> (r: bool)
        ensures
            r == same_scalar(*self, *other),
    {
        match self {
            MetaValue::Str(x) => match other {
                MetaValue::Str(y) => crate::text::str_eq(x.as_str(), y.as_str()),
                _ => false,
            },
            MetaValue::Int(x) => match other {
                MetaValue::Int(y) => *x == *y,
                _ => false,
            },
            MetaValue::Bool(x) => match other {
                MetaValue::Bool(y) => *x == *y,
                _ => false,
            },
            MetaValue::Float(x) => match other {
                MetaValue::Float(y) => crate::text::str_eq(x.as_str(), y.as_str()),
                _ => false,
            },
            MetaValue::Datetime(x) => match other {
                MetaValue::Datetime(y) => crate::text::str_eq(x.as_str(), y.as_str()),
                _ => false,
            },
            _ => false,
        }
    }

    /// Whether two values hold the same data.
    pub fn same_as(&self, other: &MetaValue) -> (r: bool)
        ensures
            r == same_value(*self, *other),
        decreases *self,
    {
        match self {
            MetaValue::Array(x) => match other {
                MetaValue::Array(y) => {
                    proof {
                        lemma_same_values_len(x@, y@);
                    }
                    if x.len() != y.len() {
                        return false;
                    }
                    let mut i: usize = 0;
                    assert(x@.skip(0) =~= x@ && y@.skip(0) =~= y@);
                    while i < x.len()
                        invariant
                            *self == MetaValue::Array(*x),
                            *other == MetaValue::Array(*y),
                            i <= x.len() == y.len(),
                            same_values(x@, y@) == same_values(x@.skip(i as int), y@.skip(i as int)),
                        decreases x.len() - i,
                    {
                        proof {
                            vstd::std_specs::vec::axiom_vec_index_decreases(*x, i as int);
                        }
                        assert(decreases_to!(*self => (*self)->Array_0));
                        assert(x@.skip(i as int)[0] == x@[i as int] && y@.skip(i as int)[0] == y@[i as int]);
                        assert(x@.skip(i as int).skip(1) =~= x@.skip(i + 1));
                        assert(y@.skip(i as int).skip(1) =~= y@.skip(i + 1));
                        if !x[i].same_as(&y[i]) {
                            return false;
                        }
                        i = i + 1;
                    }
                    assert(x@.skip(i as int).len() == 0 && y@.skip(i as int).len() == 0);
                    true
                },
                _ => false,
            },
            MetaValue::Table(x) => match other {
                MetaValue::Table(y) => {
                    proof {
                        lemma_same_entries_len(x@, y@);
                    }
                    if x.len() != y.len() {
                        return false;
                    }
                    let mut i: usize = 0;
                    assert(x@.skip(0) =~= x@ && y@.skip(0) =~= y@);
                    while i < x.len()
                        invariant
                            *self == MetaValue::Table(*x),
                            *other == MetaValue::Table(*y),
                            i <= x.len() == y.len(),
                            same_entries(x@, y@) == same_entries(x@.skip(i as int), y@.skip(i as int)),
                        decreases x.len() - i,
                    {
                        proof {
                            vstd::std_specs::vec::axiom_vec_index_decreases(*x, i as int);
                        }
                        assert(decreases_to!(*self => (*self)->Table_0));
                        assert(decreases_to!(x[i as int] => x[i as int].value));
                        assert(x@.skip(i as int)[0] == x@[i as int] && y@.skip(i as int)[0] == y@[i as int]);
                        assert(x@.skip(i as int).skip(1) =~= x@.skip(i + 1));
                        assert(y@.skip(i as int).skip(1) =~= y@.skip(i + 1));
                        if !crate::text::str_eq(x[i].key.as_str(), y[i].key.as_str()) || !x[i].value.same_as(&y[i].value) {
                            return false;
                        }
                        i = i + 1;
                    }
                    assert(x@.skip(i as int).len() == 0 && y@.skip(i as int).len() == 0);
                    true
                },
                _ => false,
            },
            _ => self.same_scalar_as(other),
        }
    }
}

proof fn lemma_same_values_len(xs: Seq<MetaValue>, ys: Seq<MetaValue>)
    ensures
        same_values(xs, ys) ==> xs.len() == ys.len(),
    decreases xs.len(),
{
    if xs.len() > 0 && ys.len() > 0 {
        lemma_same_values_len(xs.skip(1), ys.skip(1));
    }
}

proof fn lemma_same_entries_len(xs: Seq<MetaEntry>, ys: Seq<MetaEntry>)
    ensures
        same_entries(xs, ys) ==> xs.len() == ys.len(),
    decreases xs.len(),
{
    if xs.len() > 0 && ys.len() > 0 {
        lemma_same_entries_len(xs.skip(1), ys.skip(1));
    }
}

impl Metadata {
    /// Metadata without entries.
    pub fn empty() -> (r: Metadata)
        ensures
            r.entries@.len() == 0,
    {
        Metadata { entries: Vec::new() }
    }

    /// The value of the first entry named `key`.
    pub fn get(&self, key: &str) -> (r: Option<&MetaValue>)
        ensures
            match r {
                Some(v) => lookup(self.entries@, key@) == Some(*v),
                None => lookup(self.entries@, key@).is_none(),
            },
    {
        let mut i: usize = 0;
        assert(self.entries@.skip(0) =~= self.entries@);
        while i < self.entries.len()
            invariant
                i <= self.entries@.len(),
                lookup(self.entries@, key@) == lookup(self.entries@.skip(i as int), key@),
            decreases self.entries.len() - i,
        {
            assert(self.entries@.skip(i as int).skip(1) =~= self.entries@.skip(i + 1));
            if crate::text::str_eq(self.entries[i].key.as_str(), key) {
                return Some(&self.entries[i].value);
            }
            i = i + 1;
        }
        None
    }

    /// Whether the document is a draft; a `draft` entry that is not a boolean
    /// counts as `false`.
    pub fn is_draft(&self) -> (r: bool)
        ensures
            r == is_draft_meta(*self),
    {
        match self.get("draft") {
            Some(MetaValue::Bool(b)) => *b,
            _ => false,
        }
    }

    /// The text of the entry named `key`, when it is text.
    pub fn get_text(&self, key: &str) -> (r: Option<&String>)
        ensures
            match r {
                Some(s) => text_entry(*self, key@) == Some(s@),
                None => text_entry(*self, key@).is_none(),
            },
    {
        match self.get(key) {
            Some(MetaValue::Str(s)) => Some(s),
            _ => None,
        }
    }

    /// The layout the document asks for, `default` when it names none.
    pub fn layout(&self) -> (r: String)
        ensures
            r@ == layout_of(*self),
    {
        match self.get_text("layout") {
            Some(s) => s.clone(),
            None => String::from_str("default"),
        }
    }

    /// The categories of the document, as written.
    pub fn categories(&self) -> (r: Vec<String>)
        ensures
            r@.len() == categories_of(*self).len(),
            forall|i: int| 0 <= i < r@.len() ==> r@[i]@ == categories_of(*self)[i],
    {
        let mut out: Vec<String> = Vec::new();
        match self.get("categories") {
            Some(MetaValue::Array(items)) => {
                let mut i: usize = 0;
                while i < items.len()
                    invariant
                        i <= items@.len(),
                        out@.len() == text_items(items@.take(i as int)).len(),
                        forall|j: int| 0 <= j < out@.len() ==> out@[j]@ == text_items(items@.take(i as int))[j],
                    decreases items.len() - i,
                {
                    assert(items@.take(i + 1).drop_last() =~= items@.take(i as int));
                    match &items[i] {
                        MetaValue::Str(s) => out.push(s.clone()),
                        _ => {},
                    }
                    i = i + 1;
                }
                assert(items@.take(items@.len() as int) =~= items@);
            },
            _ => {},
        }
        out
    }
}

} // verus!
