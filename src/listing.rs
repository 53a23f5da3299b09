//! The listing of a collection: the posts of the site with their metadata,
//! newest first, and the categories they name.

use vstd::prelude::*;
use vstd::string::*;
use crate::meta::{Metadata, is_draft_meta, text_entry, categories_of};
use crate::routes::is_document;
use crate::text::{has_prefix, starts_with, str_eq};
use crate::convert::{texts, contains_text};

verus! {

/// One document with what conversion derived from it.
pub struct DocumentRecord {
    /// Its path below the source tree.
    pub rel_path: String,
    /// Its body, converted to HTML.
    pub html: String,
    pub meta: Metadata,
    pub permalink: String,
}

/// The day number, counted from the first day of the common era, of a date
/// written in `text` as `format` describes, when it is such a date.
pub uninterp spec fn calendar_day(text: Seq<char>, format: Seq<char>) -> Option<int>;

/// Relies on chrono's `NaiveDate::parse_from_str`, which reads a date from
/// `text` as `format` describes, and on `Datelike::num_days_from_ce`, which
/// gives its day number; both depend on their arguments alone.
#[verifier::external_body]
fn parse_day(text: &str, format: &str) -> (r: Option<i32>)
    ensures
        match r {
            Some(d) => calendar_day(text@, format@) == Some(d as int),
            None => calendar_day(text@, format@).is_none(),
        },
{
    chrono::NaiveDate::parse_from_str(text, format).ok().map(|d| chrono::Datelike::num_days_from_ce(&d))
}

/// The format of a date in metadata.
pub const DATE_FORMAT: &'static str = "%Y-%m-%d";

/// The day number of 1970-01-01, the date of a document without a readable one.
pub const EPOCH_DAY: i64 = 719163;

/// The date by which a document is ordered: its `date` entry read as a day
/// number, or the epoch when it has none or none that reads.
pub open spec fn date_key(r: DocumentRecord) -> int {
    match text_entry(r.meta, "date"@) {
        Some(t) => match calendar_day(t, DATE_FORMAT@) {
            Some(d) => d,
            None => EPOCH_DAY as int,
        },
        None => EPOCH_DAY as int,
    }
}

/// The date by which `r` is ordered.
pub fn date_key_of(r: &DocumentRecord) -> (k: i64)
    ensures
        k as int == date_key(*r),
{
    match r.meta.get_text("date") {
        Some(t) => match parse_day(t.as_str(), DATE_FORMAT) {
            Some(d) => d as i64,
            None => EPOCH_DAY,
        },
        None => EPOCH_DAY,
    }
}

/// Where a record with key `k` goes in `s`: after every record whose key is
/// at least `k`.
pub open spec fn insert_pos(s: Seq<DocumentRecord>, k: int) -> int
    decreases s.len(),
{
    if s.len() == 0 {
        0
    } else if date_key(s[0]) < k {
        0
    } else {
        1 + insert_pos(s.skip(1), k)
    }
}

/// `s` ordered by date, newest first; records of equal date keep their order.
pub open spec fn sort_by_date(s: Seq<DocumentRecord>) -> Seq<DocumentRecord>
    decreases s.len(),
{
    if s.len() == 0 {
        s
    } else {
        let rest = sort_by_date(s.drop_last());
        rest.insert(insert_pos(rest, date_key(s.last())), s.last())
    }
}

/// A post of the listing: a document below `posts/`, other than the index of
/// the collection.
pub open spec fn is_post_path(p: Seq<char>) -> bool {
    has_prefix(p, "posts/"@) && is_document(p) && p != "posts/index.norg"@
}

pub open spec fn in_listing(r: DocumentRecord, include_drafts: bool) -> bool {
    is_post_path(r.rel_path@) && (include_drafts || !is_draft_meta(r.meta))
}

/// The listing made of `docs`: the posts among them, without drafts unless
/// drafts are wanted, newest first.
pub open spec fn listing_of(docs: Seq<DocumentRecord>, include_drafts: bool) -> Seq<DocumentRecord> {
    sort_by_date(docs.filter(|r: DocumentRecord| in_listing(r, include_drafts)))
}

proof fn lemma_insert_pos_bounds(s: Seq<DocumentRecord>, k: int)
    ensures
        0 <= insert_pos(s, k) <= s.len(),
    decreases s.len(),
{
    if s.len() > 0 {
        lemma_insert_pos_bounds(s.skip(1), k);
    }
}

/// Whether `p` is the path of a post.
pub fn is_post(p: &str) -> (r: bool)
    ensures
        r == is_post_path(p@),
{
    starts_with(p, "posts/") && crate::routes::is_norg_document(p) && !str_eq(p, "posts/index.norg")
}

/// The listing of the collection: the posts among `docs`, without drafts
/// unless `include_drafts`, ordered by date with the newest first.
pub fn collect_listing(docs: Vec<DocumentRecord>, include_drafts: bool) -> (r: Vec<DocumentRecord>)
    ensures
        r@ == listing_of(docs@, include_drafts),
{
    let ghost pred = |r: DocumentRecord| in_listing(r, include_drafts);
    let ghost orig = docs@;
    let n = docs.len();
    let mut src = docs;
    let mut out: Vec<DocumentRecord> = Vec::new();
    let mut keys: Vec<i64> = Vec::new();
    let mut i: usize = 0;
    assert(orig.skip(0) =~= orig);
    assert(orig.take(0).filter(pred) =~= Seq::<DocumentRecord>::empty());
    while src.len() > 0
        invariant
            pred == (|r: DocumentRecord| in_listing(r, include_drafts)),
            i <= orig.len(),
            src@ == orig.skip(i as int),
            i + src@.len() == orig.len(),
            orig.len() == n,
            out@ == sort_by_date(orig.take(i as int).filter(pred)),
            keys@.len() == out@.len(),
            forall|l: int| 0 <= l < out@.len() ==> keys@[l] as int == date_key(#[trigger] out@[l]),
        decreases src.len(),
    {
        let r = src.remove(0);
        proof {
            assert(orig.take(i + 1) =~= orig.take(i as int).push(r));
            orig.take(i as int).lemma_filter_push(r, pred);
            assert(orig.skip(i + 1) =~= orig.skip(i as int).skip(1));
        }
        let keep = is_post(r.rel_path.as_str()) && (include_drafts || !r.meta.is_draft());
        if keep {
            let k = date_key_of(&r);
            let ghost before = out@;
            let mut j: usize = 0;
            assert(before.skip(0) =~= before);
            while j < out.len() && keys[j] >= k
                invariant
                    out@ == before,
                    keys@.len() == out@.len(),
                    forall|l: int| 0 <= l < out@.len() ==> keys@[l] as int == date_key(#[trigger] out@[l]),
                    j <= out@.len(),
                    insert_pos(before, k as int) == j + insert_pos(before.skip(j as int), k as int),
                    k as int == date_key(r),
                decreases out.len() - j,
            {
                assert(before.skip(j as int).skip(1) =~= before.skip(j + 1));
                assert(before.skip(j as int)[0] == before[j as int]);
                j = j + 1;
            }
            proof {
                if j < out@.len() {
                    assert(before.skip(j as int)[0] == before[j as int]);
                } else {
                    assert(before.skip(j as int).len() == 0);
                }
                let s = orig.take(i + 1).filter(pred);
                assert(s == orig.take(i as int).filter(pred).push(r));
                assert(s.drop_last() =~= orig.take(i as int).filter(pred));
            }
            out.insert(j, r);
            keys.insert(j, k);
            assert forall|l: int| 0 <= l < out@.len() implies keys@[l] as int == date_key(#[trigger] out@[l]) by {
                if l < j {
                    assert(out@[l] == before[l]);
                } else if l > j {
                    assert(out@[l] == before[l - 1]);
                }
            }
        }
        i = i + 1;
    }
    assert(orig.take(i as int) =~= orig);
    out
}

/// Every record of a sorted sequence comes from the sequence.
pub proof fn lemma_sort_members(s: Seq<DocumentRecord>)
    ensures
        sort_by_date(s).len() == s.len(),
        forall|i: int| 0 <= i < s.len() ==> s.contains(#[trigger] sort_by_date(s)[i]),
    decreases s.len(),
{
    if s.len() > 0 {
        let rest = sort_by_date(s.drop_last());
        lemma_sort_members(s.drop_last());
        let p = insert_pos(rest, date_key(s.last()));
        lemma_insert_pos_bounds(rest, date_key(s.last()));
        let t = rest.insert(p, s.last());
        assert forall|i: int| 0 <= i < s.len() implies s.contains(#[trigger] sort_by_date(s)[i]) by {
            if i == p {
                assert(s[s.len() - 1] == s.last());
            } else {
                let x = if i < p { rest[i] } else { rest[i - 1] };
                assert(t[i] == x);
                assert(s.drop_last().contains(x));
                let k = choose|k: int| 0 <= k < s.drop_last().len() && s.drop_last()[k] == x;
                assert(s[k] == x);
            }
        }
    }
}

/// A draft never appears in the listing of a production build.
pub proof fn lemma_listing_without_drafts(docs: Seq<DocumentRecord>)
    ensures
        forall|i: int| 0 <= i < listing_of(docs, false).len() ==> !is_draft_meta(
            #[trigger] listing_of(docs, false)[i].meta,
        ),
{
    let pred = |r: DocumentRecord| in_listing(r, false);
    let f = docs.filter(pred);
    lemma_sort_members(f);
    assert forall|i: int| 0 <= i < listing_of(docs, false).len() implies !is_draft_meta(
        #[trigger] listing_of(docs, false)[i].meta,
    ) by {
        let x = listing_of(docs, false)[i];
        assert(f.contains(x));
        let k = choose|k: int| 0 <= k < f.len() && f[k] == x;
        broadcast use vstd::seq_lib::group_filter_ensures;
        assert(pred(f[k]));
    }
}

/// The listing is ordered by date, newest first.
pub proof fn lemma_listing_sorted(s: Seq<DocumentRecord>)
    ensures
        forall|i: int, j: int| 0 <= i < j < sort_by_date(s).len() ==> date_key(#[trigger] sort_by_date(s)[i]) >= date_key(
            #[trigger] sort_by_date(s)[j],
        ),
    decreases s.len(),
{
    if s.len() > 0 {
        let rest = sort_by_date(s.drop_last());
        lemma_listing_sorted(s.drop_last());
        lemma_sort_members(s.drop_last());
        let k = date_key(s.last());
        lemma_insert_pos_facts(rest, k);
        let p = insert_pos(rest, k);
        let t = rest.insert(p, s.last());
        assert forall|i: int, j: int| 0 <= i < j < t.len() implies date_key(#[trigger] t[i]) >= date_key(#[trigger] t[j]) by {
            if i < p && j < p {
                assert(t[i] == rest[i] && t[j] == rest[j]);
            } else if i < p && j == p {
                assert(t[i] == rest[i]);
            } else if i < p {
                assert(t[i] == rest[i] && t[j] == rest[j - 1]);
            } else if i == p {
                assert(t[j] == rest[j - 1]);
            } else {
                assert(t[i] == rest[i - 1] && t[j] == rest[j - 1]);
            }
        }
    }
}

/// Records before the insertion point have a key of at least `k`, and when the
/// sequence is sorted, those after it have a smaller one.
proof fn lemma_insert_pos_facts(s: Seq<DocumentRecord>, k: int)
    requires
        forall|i: int, j: int| 0 <= i < j < s.len() ==> date_key(#[trigger] s[i]) >= date_key(#[trigger] s[j]),
    ensures
        0 <= insert_pos(s, k) <= s.len(),
        forall|i: int| 0 <= i < insert_pos(s, k) ==> date_key(#[trigger] s[i]) >= k,
        forall|i: int| insert_pos(s, k) <= i < s.len() ==> date_key(#[trigger] s[i]) < k,
    decreases s.len(),
{
    if s.len() > 0 {
        let t = s.skip(1);
        assert forall|i: int, j: int| 0 <= i < j < t.len() implies date_key(#[trigger] t[i]) >= date_key(#[trigger] t[j]) by {
            assert(t[i] == s[i + 1] && t[j] == s[j + 1]);
        }
        lemma_insert_pos_facts(t, k);
        if date_key(s[0]) < k {
            assert forall|i: int| 0 <= i < s.len() implies date_key(#[trigger] s[i]) < k by {
                if i > 0 {
                    assert(date_key(s[0]) >= date_key(s[i]));
                }
            }
        } else {
            assert forall|i: int| 0 <= i < insert_pos(s, k) implies date_key(#[trigger] s[i]) >= k by {
                if i > 0 {
                    assert(s[i] == t[i - 1]);
                }
            }
            assert forall|i: int| insert_pos(s, k) <= i < s.len() implies date_key(#[trigger] s[i]) < k by {
                assert(s[i] == t[i - 1]);
            }
        }
    }
}

/// The lower-case form of a text, as std's `str::to_lowercase` gives it.
pub uninterp spec fn lowercase_of(s: Seq<char>) -> Seq<char>;

/// Relies on std's `str::to_lowercase`, whose result depends on the text alone.
#[verifier::external_body]
pub(crate) fn to_lower(s: &str) -> (r: String)
    ensures
        r@ == lowercase_of(s@),
{
    s.to_lowercase()
}

/// A category named by a record of `posts`, in lower case.
pub open spec fn named_category(posts: Seq<DocumentRecord>, c: Seq<char>) -> bool {
    exists|i: int, j: int|
        0 <= i < posts.len() && 0 <= j < categories_of(posts[i].meta).len() && c == lowercase_of(
            #[trigger] categories_of(posts[i].meta)[j],
        )
}

/// One of the first `j` categories of `m`, in lower case.
pub open spec fn among_first(m: Metadata, j: int, c: Seq<char>) -> bool {
    exists|l: int| 0 <= l < j && l < categories_of(m).len() && c == lowercase_of(#[trigger] categories_of(m)[l])
}

proof fn lemma_among_first_step(m: Metadata, j: int, c: Seq<char>)
    requires
        0 <= j < categories_of(m).len(),
    ensures
        among_first(m, j + 1, c) <==> (among_first(m, j, c) || c == lowercase_of(categories_of(m)[j])),
{
    if among_first(m, j + 1, c) {
        let l = choose|l: int| 0 <= l < j + 1 && l < categories_of(m).len() && c == lowercase_of(#[trigger] categories_of(m)[l]);
        if l < j {
            assert(among_first(m, j, c));
        }
    }
    if among_first(m, j, c) {
        let l = choose|l: int| 0 <= l < j && l < categories_of(m).len() && c == lowercase_of(#[trigger] categories_of(m)[l]);
        assert(among_first(m, j + 1, c));
    }
    if c == lowercase_of(categories_of(m)[j]) {
        assert(among_first(m, j + 1, c));
    }
}

proof fn lemma_named_step(posts: Seq<DocumentRecord>, i: int, c: Seq<char>)
    requires
        0 <= i < posts.len(),
    ensures
        named_category(posts.take(i + 1), c) <==> (named_category(posts.take(i), c) || among_first(
            posts[i].meta,
            categories_of(posts[i].meta).len() as int,
            c,
        )),
{
    let seen = posts.take(i);
    let next = posts.take(i + 1);
    let m = posts[i].meta;
    if named_category(next, c) {
        let (a, b) = choose|a: int, b: int|
            0 <= a < next.len() && 0 <= b < categories_of(next[a].meta).len() && c == lowercase_of(
                #[trigger] categories_of(next[a].meta)[b],
            );
        if a < i {
            assert(seen[a] == next[a]);
            assert(named_category(seen, c));
        } else {
            assert(next[a] == posts[i]);
            assert(among_first(m, categories_of(m).len() as int, c));
        }
    }
    if named_category(seen, c) {
        let (a, b) = choose|a: int, b: int|
            0 <= a < seen.len() && 0 <= b < categories_of(seen[a].meta).len() && c == lowercase_of(
                #[trigger] categories_of(seen[a].meta)[b],
            );
        assert(seen[a] == next[a]);
        assert(named_category(next, c));
    }
    if among_first(m, categories_of(m).len() as int, c) {
        let l = choose|l: int| 0 <= l < categories_of(m).len() && l < categories_of(m).len() && c == lowercase_of(#[trigger] categories_of(m)[l]);
        assert(next[i] == posts[i]);
        assert(named_category(next, c));
    }
}

/// The categories named by the posts of a listing, in lower case, each once, in
/// the order they first appear.
pub fn collect_categories(posts: &Vec<DocumentRecord>) -> (r: Vec<String>)
    ensures
        texts(r@).no_duplicates(),
        forall|c: Seq<char>| texts(r@).contains(c) <==> named_category(posts@, c),
{
    let mut out: Vec<String> = Vec::new();
    let mut i: usize = 0;
    assert(posts@.take(0) =~= Seq::<DocumentRecord>::empty());
    while i < posts.len()
        invariant
            i <= posts@.len(),
            texts(out@).no_duplicates(),
            forall|c: Seq<char>| texts(out@).contains(c) <==> named_category(posts@.take(i as int), c),
        decreases posts.len() - i,
    {
        let cats = posts[i].meta.categories();
        let ghost m = posts@[i as int].meta;
        let mut j: usize = 0;
        while j < cats.len()
            invariant
                i < posts@.len(),
                m == posts@[i as int].meta,
                j <= cats@.len(),
                cats@.len() == categories_of(m).len(),
                forall|l: int| 0 <= l < cats@.len() ==> cats@[l]@ == categories_of(m)[l],
                texts(out@).no_duplicates(),
                forall|c: Seq<char>| texts(out@).contains(c) <==> (named_category(posts@.take(i as int), c)
                    || among_first(m, j as int, c)),
            decreases cats.len() - j,
        {
            let low = to_lower(cats[j].as_str());
            assert(low@ == lowercase_of(categories_of(m)[j as int]));
            let ghost old_out = out@;
            if !contains_text(&out, low.as_str()) {
                out.push(low);
                assert(texts(out@) =~= texts(old_out).push(low@));
                assert forall|a: int, b: int| 0 <= a < b < texts(out@).len() implies texts(out@)[a] != texts(out@)[b] by {
                    if b == texts(out@).len() - 1 {
                        assert(texts(old_out).contains(texts(out@)[a]));
                    } else {
                        assert(texts(out@)[a] == texts(old_out)[a]);
                        assert(texts(out@)[b] == texts(old_out)[b]);
                    }
                }
            }
            assert forall|c: Seq<char>| texts(out@).contains(c) <==> (named_category(posts@.take(i as int), c)
                || among_first(m, j + 1, c)) by {
                lemma_among_first_step(m, j as int, c);
                if texts(out@).contains(c) && c != low@ {
                    let a = choose|a: int| 0 <= a < texts(out@).len() && texts(out@)[a] == c;
                    assert(texts(old_out)[a] == c);
                }
                if texts(old_out).contains(c) {
                    let a = choose|a: int| 0 <= a < texts(old_out).len() && texts(old_out)[a] == c;
                    assert(texts(out@)[a] == c);
                }
                if c == low@ && !texts(old_out).contains(c) {
                    assert(texts(out@)[texts(out@).len() - 1] == c);
                }
            }
            j = j + 1;
        }
        assert(j == cats@.len());
        assert forall|c: Seq<char>| texts(out@).contains(c) <==> named_category(posts@.take(i + 1), c) by {
            lemma_named_step(posts@, i as int, c);
            assert(among_first(m, j as int, c) == among_first(
                posts@[i as int].meta,
                categories_of(posts@[i as int].meta).len() as int,
                c,
            ));
        }
        i = i + 1;
    }
    assert(posts@.take(posts@.len() as int) =~= posts@);
    out
}

} // verus!
