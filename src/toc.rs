//! The table of contents of a page as nested HTML lists: each heading sits
//! under the nearest earlier heading of a lower level.

use vstd::prelude::*;
use vstd::string::*;

verus! {

/// One heading of a page.
pub struct TocEntry {
    pub level: u8,
    pub title: String,
    pub id: String,
}

/// The headings of a page with the parent of each: the nearest earlier
/// heading of a lower level, or none for a heading at the top.
pub struct TocTree {
    pub entries: Vec<TocEntry>,
    pub parents: Vec<Option<usize>>,
}

/// The nearest heading at or before `i` whose level is below that of `j`, or -1.
pub open spec fn nearest_below(levels: Seq<u8>, j: int, i: int) -> int
    decreases i + 1,
{
    if i < 0 {
        -1
    } else if levels[i] < levels[j] {
        i
    } else {
        nearest_below(levels, j, i - 1)
    }
}

pub open spec fn levels_of(es: Seq<TocEntry>) -> Seq<u8> {
    es.map_values(|e: TocEntry| e.level)
}

/// The parent of heading `j`, or -1.
pub open spec fn parent_of(es: Seq<TocEntry>, j: int) -> int {
    nearest_below(levels_of(es), j, j - 1)
}

pub open spec fn parent_view(p: Option<usize>) -> int {
    match p {
        Some(i) => i as int,
        None => -1,
    }
}

proof fn lemma_nearest_below_bounds(levels: Seq<u8>, j: int, i: int)
    requires
        -1 <= i < j < levels.len(),
    ensures
        -1 <= nearest_below(levels, j, i) <= i,
    decreases i + 1,
{
    if i >= 0 && !(levels[i] < levels[j]) {
        lemma_nearest_below_bounds(levels, j, i - 1);
    }
}

/// The headings `entries`, each with its parent.
pub fn parse_toc(entries: Vec<TocEntry>) -> (r: TocTree)
    ensures
        r.entries@ == entries@,
        r.parents@.len() == entries@.len(),
        forall|j: int| 0 <= j < entries@.len() ==> parent_view(#[trigger] r.parents@[j]) == parent_of(entries@, j),
{
    let mut parents: Vec<Option<usize>> = Vec::new();
    let mut j: usize = 0;
    while j < entries.len()
        invariant
            j <= entries@.len(),
            parents@.len() == j,
            forall|x: int| 0 <= x < j ==> parent_view(#[trigger] parents@[x]) == parent_of(entries@, x),
        decreases entries.len() - j,
    {
        let level = entries[j].level;
        let mut i: usize = j;
        while i > 0 && !(entries[i - 1].level < level)
            invariant
                i <= j < entries@.len(),
                level == entries@[j as int].level,
                nearest_below(levels_of(entries@), j as int, j - 1) == nearest_below(levels_of(entries@), j as int, i - 1),
            decreases i,
        {
            assert(levels_of(entries@)[i - 1] == entries@[i - 1].level);
            i = i - 1;
        }
        if i > 0 {
            assert(levels_of(entries@)[i - 1] == entries@[i - 1].level);
            assert(levels_of(entries@)[j as int] == level);
            parents.push(Some(i - 1));
        } else {
            parents.push(None);
        }
        j = j + 1;
    }
    TocTree { entries, parents }
}

/// The list item of heading `i` with the lists of its descendants.
pub open spec fn node_html(es: Seq<TocEntry>, lt: Seq<char>, i: int) -> Seq<char>
    decreases es.len() - i, 0int,
{
    if i < 0 || i >= es.len() {
        Seq::empty()
    } else {
        let kids = children_html(es, lt, i, i + 1);
        "<li><a href=\"#"@ + es[i].id@ + "\">"@ + es[i].title@ + "</a>"@ + (if kids.len() == 0 {
            Seq::empty()
        } else {
            "<"@ + lt + ">"@ + kids + "</"@ + lt + ">"@
        }) + "</li>"@
    }
}

/// The list items of the headings from `from` on whose parent is `p`.
pub open spec fn children_html(es: Seq<TocEntry>, lt: Seq<char>, p: int, from: int) -> Seq<char>
    decreases es.len() - from, 1int,
{
    if from < 0 || from >= es.len() {
        Seq::empty()
    } else {
        let rest = children_html(es, lt, p, from + 1);
        if parent_of(es, from) == p {
            node_html(es, lt, from) + rest
        } else {
            rest
        }
    }
}

/// The table of contents of `es` as a list of type `lt` (`ol` or `ul`).
pub open spec fn toc_html(es: Seq<TocEntry>, lt: Seq<char>) -> Seq<char> {
    "<"@ + lt + ">"@ + children_html(es, lt, -1, 0) + "</"@ + lt + ">"@
}

fn render_node(tree: &TocTree, lt: &str, i: usize) -> (r: String)
    requires
        i < tree.entries@.len(),
        tree.entries@.len() <= i64::MAX,
        tree.parents@.len() == tree.entries@.len(),
        forall|j: int| 0 <= j < tree.entries@.len() ==> parent_view(#[trigger] tree.parents@[j]) == parent_of(tree.entries@, j),
    ensures
        r@ == node_html(tree.entries@, lt@, i as int),
    decreases tree.entries@.len() - i, 0int,
{
    let n = tree.entries.len();
    let kids = render_children(tree, lt, i as i64, i + 1);
    let e = &tree.entries[i];
    let mut out = String::from_str("<li><a href=\"#");
    out.append(e.id.as_str());
    out.append("\">");
    out.append(e.title.as_str());
    out.append("</a>");
    if kids.as_str().unicode_len() > 0 {
        out.append("<");
        out.append(lt);
        out.append(">");
        out.append(kids.as_str());
        out.append("</");
        out.append(lt);
        out.append(">");
    }
    out.append("</li>");
    out
}

fn render_children(tree: &TocTree, lt: &str, p: i64, from: usize) -> (r: String)
    requires
        from <= tree.entries@.len(),
        tree.entries@.len() <= i64::MAX,
        tree.parents@.len() == tree.entries@.len(),
        forall|j: int| 0 <= j < tree.entries@.len() ==> parent_view(#[trigger] tree.parents@[j]) == parent_of(tree.entries@, j),
    ensures
        r@ == children_html(tree.entries@, lt@, p as int, from as int),
    decreases tree.entries@.len() - from, 1int,
{
    if from >= tree.entries.len() {
        return String::new();
    }
    let rest = render_children(tree, lt, p, from + 1);
    proof {
        assert(parent_view(tree.parents@[from as int]) == parent_of(tree.entries@, from as int));
        assert(levels_of(tree.entries@).len() == tree.entries@.len());
        lemma_nearest_below_bounds(levels_of(tree.entries@), from as int, from - 1);
    }
    let is_child = match tree.parents[from] {
        Some(q) => p >= 0 && q as i64 == p,
        None => p == -1,
    };
    proof {
        assert(parent_view(tree.parents@[from as int]) == parent_of(tree.entries@, from as int));
        if is_child {
            assert(parent_of(tree.entries@, from as int) == p as int);
        } else {
            assert(parent_of(tree.entries@, from as int) != p as int);
        }
    }
    if is_child {
        let mut out = render_node(tree, lt, from);
        out.append(rest.as_str());
        out
    } else {
        rest
    }
}

/// The table of contents of `tree` as nested lists of type `list_type`.
pub fn generate_nested_html(tree: &TocTree, list_type: &str) -> (r: String)
    requires
        tree.entries@.len() <= i64::MAX,
        tree.parents@.len() == tree.entries@.len(),
        forall|j: int| 0 <= j < tree.entries@.len() ==> parent_view(#[trigger] tree.parents@[j]) == parent_of(tree.entries@, j),
    ensures
        r@ == toc_html(tree.entries@, list_type@),
{
    let items = render_children(tree, list_type, -1, 0);
    let mut out = String::from_str("<");
    out.append(list_type);
    out.append(">");
    out.append(items.as_str());
    out.append("</");
    out.append(list_type);
    out.append(">");
    out
}

/// The table of contents of the headings `entries` as nested lists of type
/// `list_type`.
pub fn generate_toc(entries: Vec<TocEntry>, list_type: &str) -> (r: String)
    requires
        entries@.len() <= i64::MAX,
    ensures
        r@ == toc_html(entries@, list_type@),
{
    let tree = parse_toc(entries);
    generate_nested_html(&tree, list_type)
}

/// The template function that writes the current time.
pub struct NowFunction;

/// The format of the current time when a template names none.
pub const DEFAULT_NOW_FORMAT: &'static str = "%Y-%m-%d %H:%M:%S";

impl NowFunction {
    /// The format in which the current time is written: the one a template
    /// gives, else the default.
    pub fn format_or_default(format: Option<&str>) -> (r: &str)
        ensures
            match format {
                Some(f) => r@ == f@,
                None => r@ == DEFAULT_NOW_FORMAT@,
            },
    {
        match format {
            Some(f) => f,
            None => DEFAULT_NOW_FORMAT,
        }
    }
}

/// The template function that writes the table of contents of a page.
pub struct GenerateToc;

impl GenerateToc {
    /// The table of contents of the headings `entries` as nested lists of the
    /// type a template gives, ordered lists when it gives none.
    pub fn call(entries: Vec<TocEntry>, list_type: Option<&str>) -> (r: String)
        requires
            entries@.len() <= i64::MAX,
        ensures
            r@ == toc_html(entries@, match list_type {
                Some(t) => t@,
                None => "ol"@,
            }),
    {
        let lt = match list_type {
            Some(t) => t,
            None => "ol",
        };
        generate_toc(entries, lt)
    }

    /// Its output is HTML that templates insert as it is.
    pub fn is_safe() -> (r: bool)
        ensures
            r,
    {
        true
    }
}

} // verus!
