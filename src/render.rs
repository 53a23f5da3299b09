//! Metadata values written out as text, for messages. The notation is the
//! library's own: text in double quotes as it is, numbers and booleans as
//! written, arrays in brackets and tables in braces, items separated by commas.

use vstd::prelude::*;
use vstd::string::*;
use crate::meta::{MetaValue, MetaEntry, signed_decimal, signed_decimal_of};

verus! {

/// A value written out.
pub open spec fn rendered(v: MetaValue) -> Seq<char>
    decreases v,
{
    match v {
        MetaValue::Str(s) => "\""@ + s@ + "\""@,
        MetaValue::Int(n) => signed_decimal_of(n as int),
        MetaValue::Bool(b) => if b { "true"@ } else { "false"@ },
        MetaValue::Float(t) => t@,
        MetaValue::Datetime(t) => t@,
        MetaValue::Array(x) => "["@ + rendered_items(x@) + "]"@,
        MetaValue::Table(x) => "{"@ + rendered_entries(x@) + "}"@,
    }
}

/// Values written out and separated by `, `.
pub open spec fn rendered_items(xs: Seq<MetaValue>) -> Seq<char>
    decreases xs,
{
    if xs.len() == 0 {
        Seq::empty()
    } else {
        rendered(xs[0]) + rendered_more_items(xs.skip(1))
    }
}

/// Values written out, each after `, `.
pub open spec fn rendered_more_items(xs: Seq<MetaValue>) -> Seq<char>
    decreases xs,
{
    if xs.len() == 0 {
        Seq::empty()
    } else {
        ", "@ + rendered(xs[0]) + rendered_more_items(xs.skip(1))
    }
}

/// An entry written out as `key = value`.
pub open spec fn rendered_entry(e: MetaEntry) -> Seq<char>
    decreases e,
{
    e.key@ + " = "@ + rendered(e.value)
}

/// Entries written out and separated by `, `.
pub open spec fn rendered_entries(xs: Seq<MetaEntry>) -> Seq<char>
    decreases xs,
{
    if xs.len() == 0 {
        Seq::empty()
    } else {
        rendered_entry(xs[0]) + rendered_more_entries(xs.skip(1))
    }
}

/// Entries written out, each after `, `.
pub open spec fn rendered_more_entries(xs: Seq<MetaEntry>) -> Seq<char>
    decreases xs,
{
    if xs.len() == 0 {
        Seq::empty()
    } else {
        ", "@ + rendered_entry(xs[0]) + rendered_more_entries(xs.skip(1))
    }
}

/// A value written out as text.
pub fn render(v: &MetaValue) -> (r: String)
    ensures
        r@ == rendered(*v),
    decreases *v,
{
    match v {
        MetaValue::Str(s) => {
            let mut out = String::from_str("\"");
            out.append(s.as_str());
            out.append("\"");
            out
        },
        MetaValue::Int(n) => signed_decimal(*n),
        MetaValue::Bool(b) => if *b { String::from_str("true") } else { String::from_str("false") },
        MetaValue::Float(t) => t.clone(),
        MetaValue::Datetime(t) => t.clone(),
        MetaValue::Array(x) => {
            let mut out = String::new();
            let mut i: usize = 0;
            assert(x@.skip(0) =~= x@);
            while i < x.len()
                invariant
                    *v == MetaValue::Array(*x),
                    i <= x.len(),
                    i == 0 ==> out@.len() == 0,
                    rendered_items(x@) == out@ + (if i == 0 { rendered_items(x@) } else { rendered_more_items(x@.skip(i as int)) }),
                decreases x.len() - i,
            {
                proof {
                    vstd::std_specs::vec::axiom_vec_index_decreases(*x, i as int);
                }
                assert(decreases_to!(*v => (*v)->Array_0));
                let ghost rest = x@.skip(i as int);
                assert(rest[0] == x@[i as int]);
                assert(rest.skip(1) =~= x@.skip(i + 1));
                let piece = render(&x[i]);
                if i > 0 {
                    out.append(", ");
                }
                out.append(piece.as_str());
                assert(rendered_items(x@) =~= out@ + rendered_more_items(x@.skip(i + 1)));
                i = i + 1;
            }
            assert(x@.skip(i as int).len() == 0);
            let mut r = String::from_str("[");
            r.append(out.as_str());
            r.append("]");
            assert(x@.len() == 0 ==> rendered_items(x@) =~= Seq::<char>::empty());
            r
        },
        MetaValue::Table(x) => {
            let mut out = String::new();
            let mut i: usize = 0;
            assert(x@.skip(0) =~= x@);
            while i < x.len()
                invariant
                    *v == MetaValue::Table(*x),
                    i <= x.len(),
                    i == 0 ==> out@.len() == 0,
                    rendered_entries(x@) == out@ + (if i == 0 { rendered_entries(x@) } else { rendered_more_entries(x@.skip(i as int)) }),
                decreases x.len() - i,
            {
                proof {
                    vstd::std_specs::vec::axiom_vec_index_decreases(*x, i as int);
                }
                assert(decreases_to!(*v => (*v)->Table_0));
                assert(decreases_to!(x[i as int] => x[i as int].value));
                let ghost rest = x@.skip(i as int);
                assert(rest[0] == x@[i as int]);
                assert(rest.skip(1) =~= x@.skip(i + 1));
                let piece = render(&x[i].value);
                assert(rendered_entry(x@[i as int]) == x@[i as int].key@ + " = "@ + piece@);
                if i > 0 {
                    out.append(", ");
                }
                out.append(x[i].key.as_str());
                out.append(" = ");
                out.append(piece.as_str());
                assert(rendered_entries(x@) =~= out@ + rendered_more_entries(x@.skip(i + 1)));
                i = i + 1;
            }
            assert(x@.skip(i as int).len() == 0);
            let mut r = String::from_str("{");
            r.append(out.as_str());
            r.append("}");
            assert(x@.len() == 0 ==> rendered_entries(x@) =~= Seq::<char>::empty());
            r
        },
    }
}

} // verus!
