//! Small decisions of the command-line tool: the kinds of file it creates, the
//! theme subcommands, where a theme repository lives, and how a duration reads.

use vstd::prelude::*;
use vstd::string::*;
use crate::listing::{lowercase_of, to_lower};
use crate::meta::{decimal, decimal_of};
use crate::text::{str_eq, has_prefix, starts_with};
use crate::paths::{joined, join_path};
use crate::routes::{file_name_of, parent_of, stem_path, stem_of, extension_of, extension};
use crate::convert::texts;

verus! {

/// A kind of file that the tool creates in a site.
#[derive(PartialEq, Eq, Structural, Clone, Copy, Debug)]
pub enum AssetType {
    Js,
    Css,
    Content,
}

/// The kind of file named by an extension, in any case.
pub open spec fn asset_type_of(ext: Seq<char>) -> Option<AssetType> {
    let e = lowercase_of(ext);
    if e == "js"@ {
        Some(AssetType::Js)
    } else if e == "css"@ {
        Some(AssetType::Css)
    } else if e == "norg"@ {
        Some(AssetType::Content)
    } else {
        None
    }
}

impl AssetType {
    /// The kind of file named by the extension `ext`; an error names an
    /// extension the tool does not know.
    pub fn from_extension(ext: &str) -> (r: Result<AssetType, String>)
        ensures
            match r {
                Ok(t) => asset_type_of(ext@) == Some(t),
                Err(m) => asset_type_of(ext@).is_none() && m@ == "Unsupported file extension: "@ + ext@,
            },
    {
        let e = to_lower(ext);
        if str_eq(e.as_str(), "js") {
            Ok(AssetType::Js)
        } else if str_eq(e.as_str(), "css") {
            Ok(AssetType::Css)
        } else if str_eq(e.as_str(), "norg") {
            Ok(AssetType::Content)
        } else {
            let mut m = String::from_str("Unsupported file extension: ");
            m.append(ext);
            Err(m)
        }
    }

    /// The directory of the site that holds files of this kind.
    pub fn directory(&self) -> (r: &'static str)
        ensures
            *self == AssetType::Content ==> r@ == "content"@,
            *self != AssetType::Content ==> r@ == "assets"@,
    {
        match self {
            AssetType::Js | AssetType::Css => "assets",
            AssetType::Content => "content",
        }
    }

    /// The subdirectory, below that directory, for files of this kind.
    pub fn subdirectory(&self) -> (r: Option<&'static str>)
        ensures
            *self == AssetType::Js ==> (r matches Some(d) && d@ == "js"@),
            *self == AssetType::Css ==> (r matches Some(d) && d@ == "css"@),
            *self == AssetType::Content ==> r.is_none(),
    {
        match self {
            AssetType::Js => Some("js"),
            AssetType::Css => Some("css"),
            AssetType::Content => None,
        }
    }
}

/// The subcommands of theme management.
pub enum ThemeCommands {
    /// Install a theme from a repository.
    Pull { repo: String, version: Option<String>, pin: bool },
    /// Update the installed theme.
    Update,
    /// Restore the theme saved before the last update.
    Rollback,
    /// Lay out the files of a new theme.
    Init,
    /// Show what is known of the installed theme.
    Info,
}

/// The index of the first `c` in `s`, or -1.
pub open spec fn first_index_of(s: Seq<char>, c: char) -> int {
    if exists|i: int| 0 <= i < s.len() && s[i] == c {
        choose|i: int| 0 <= i < s.len() && s[i] == c && forall|j: int| 0 <= j < i ==> s[j] != c
    } else {
        -1
    }
}

fn first_index(s: &str, c: char) -> (r: Option<usize>)
    ensures
        match r {
            Some(i) => i < s@.len() && s@[i as int] == c && forall|j: int| 0 <= j < i ==> s@[j] != c,
            None => forall|j: int| 0 <= j < s@.len() ==> s@[j] != c,
        },
{
    let n = s.unicode_len();
    let mut i: usize = 0;
    while i < n
        invariant
            i <= n == s@.len(),
            forall|j: int| 0 <= j < i ==> s@[j] != c,
        decreases n - i,
    {
        if s.get_char(i) == c {
            return Some(i);
        }
        i = i + 1;
    }
    None
}

/// The URL of the repository named by `repo`: `service:path` names a path on
/// a known forge (`gh` or `github`, `srht` or `sourcehut`, `berg` or
/// `codeberg`, in any case), a bare `path` one on GitHub.
pub open spec fn repo_url_of(repo: Seq<char>) -> Result<Seq<char>, Seq<char>> {
    let k = first_index_of(repo, ':');
    if k < 0 {
        Ok("https://github.com/"@ + repo)
    } else {
        let service = repo.take(k);
        let rest = repo.skip(k + 1);
        let s = lowercase_of(service);
        if s == "gh"@ || s == "github"@ {
            Ok("https://github.com/"@ + rest)
        } else if s == "srht"@ || s == "sourcehut"@ {
            Ok("https://git.sr.ht/~"@ + rest)
        } else if s == "berg"@ || s == "codeberg"@ {
            Ok("https://codeberg.org/"@ + rest)
        } else {
            Err("Unknown repository service: "@ + service)
        }
    }
}

/// The URL of the theme repository named by `repo`.
pub fn resolve_repo_shorthand(repo: &str) -> (r: Result<String, String>)
    ensures
        match r {
            Ok(u) => repo_url_of(repo@) == Ok::<Seq<char>, Seq<char>>(u@),
            Err(m) => repo_url_of(repo@) == Err::<Seq<char>, Seq<char>>(m@),
        },
{
    let found = first_index(repo, ':');
    proof {
        if found.is_some() {
            let i = found.unwrap() as int;
            assert(exists|x: int| 0 <= x < repo@.len() && repo@[x] == ':');
            let k = first_index_of(repo@, ':');
            assert(k == i) by {
                if k < i {
                    assert(repo@[k] != ':');
                }
                if k > i {
                    assert(repo@[i] == ':');
                }
            }
        }
    }
    match found {
        None => {
            let mut u = String::from_str("https://github.com/");
            u.append(repo);
            Ok(u)
        },
        Some(k) => {
            let n = repo.unicode_len();
            let service = repo.substring_char(0, k);
            let rest = repo.substring_char(k + 1, n);
            assert(rest@ =~= repo@.skip(k + 1));
            let s = to_lower(service);
            let base = if str_eq(s.as_str(), "gh") || str_eq(s.as_str(), "github") {
                "https://github.com/"
            } else if str_eq(s.as_str(), "srht") || str_eq(s.as_str(), "sourcehut") {
                "https://git.sr.ht/~"
            } else if str_eq(s.as_str(), "berg") || str_eq(s.as_str(), "codeberg") {
                "https://codeberg.org/"
            } else {
                let mut m = String::from_str("Unknown repository service: ");
                m.append(service);
                return Err(m);
            };
            let mut u = String::from_str(base);
            u.append(rest);
            Ok(u)
        },
    }
}

/// How long something took, for people: whole milliseconds under a second,
/// else seconds with one decimal, both rounded half up.
pub open spec fn elapsed_text_of(nanos: nat) -> Seq<char> {
    if nanos < 1_000_000_000 {
        decimal_of((nanos + 500_000) / 1_000_000) + "ms"@
    } else {
        let tenths = (nanos + 50_000_000) / 100_000_000;
        decimal_of(tenths / 10) + "."@ + decimal_of(tenths % 10) + "s"@
    }
}

/// How long something that took `nanos` nanoseconds took, for people.
pub fn get_elapsed_time(nanos: u64) -> (r: String)
    ensures
        r@ == elapsed_text_of(nanos as nat),
{
    if nanos < 1_000_000_000 {
        let mut s = decimal((nanos + 500_000) / 1_000_000);
        s.append("ms");
        s
    } else {
        let tenths: u64 = nanos / 100_000_000 + (if nanos % 100_000_000 >= 50_000_000 { 1u64 } else { 0u64 });
        assert(tenths == (nanos + 50_000_000) / 100_000_000) by (nonlinear_arith)
            requires
                tenths == nanos / 100_000_000 + (if nanos % 100_000_000 >= 50_000_000 { 1int } else { 0int }),
        {
        }
        let mut s = decimal(tenths / 10);
        s.append(".");
        s.append(decimal(tenths % 10).as_str());
        s.append("s");
        s
    }
}


/// A character that separates the words of a title drawn from a file name:
/// ASCII white space, `-` and `_`.
pub open spec fn is_separator(c: char) -> bool {
    c == ' ' || c == '\t' || c == '\n' || c == '\r' || c == '\u{b}' || c == '\u{c}' || c == '-' || c == '_'
}

fn separator(c: char) -> (r: bool)
    ensures
        r == is_separator(c),
{
    c == ' ' || c == '\t' || c == '\n' || c == '\r' || c == '\u{b}' || c == '\u{c}' || c == '-' || c == '_'
}

/// The index of the last separator in `s`, or -1.
pub open spec fn last_separator(s: Seq<char>) -> int
    decreases s.len(),
{
    if s.len() == 0 {
        -1
    } else if is_separator(s.last()) {
        s.len() - 1
    } else {
        last_separator(s.drop_last())
    }
}

proof fn lemma_last_separator_bounds(s: Seq<char>)
    ensures
        -1 <= last_separator(s) < s.len(),
    decreases s.len(),
{
    if s.len() > 0 && !is_separator(s.last()) {
        lemma_last_separator_bounds(s.drop_last());
    }
}

/// The words of `s`: its non-empty runs between separators.
pub open spec fn words_of(s: Seq<char>) -> Seq<Seq<char>>
    decreases s.len(),
{
    let k = last_separator(s);
    if k < 0 || k >= s.len() {
        if s.len() > 0 {
            seq![s]
        } else {
            Seq::empty()
        }
    } else {
        let head = words_of(s.take(k));
        let tail = s.skip(k + 1);
        if tail.len() > 0 {
            head.push(tail)
        } else {
            head
        }
    }
}

fn find_last_separator(s: &str) -> (r: Option<usize>)
    ensures
        match r {
            Some(i) => i as int == last_separator(s@),
            None => last_separator(s@) == -1,
        },
{
    let n = s.unicode_len();
    let mut i: usize = n;
    assert(s@.take(n as int) =~= s@);
    while i > 0
        invariant
            i <= n == s@.len(),
            last_separator(s@) == last_separator(s@.take(i as int)),
        decreases i,
    {
        assert(s@.take(i as int).drop_last() =~= s@.take(i - 1));
        if separator(s.get_char(i - 1)) {
            return Some(i - 1);
        }
        i = i - 1;
    }
    assert(s@.take(0) =~= Seq::<char>::empty());
    None
}

/// The words of `s`.
pub fn split_words(s: &str) -> (r: Vec<String>)
    ensures
        texts(r@) == words_of(s@),
    decreases s@.len(),
{
    proof {
        lemma_last_separator_bounds(s@);
    }
    let n = s.unicode_len();
    match find_last_separator(s) {
        None => {
            let mut out: Vec<String> = Vec::new();
            if n > 0 {
                out.push(String::from_str(s));
            }
            assert(texts(out@) =~= words_of(s@));
            out
        },
        Some(k) => {
            let mut out = split_words(s.substring_char(0, k));
            let tail = s.substring_char(k + 1, n);
            assert(tail@ =~= s@.skip(k + 1));
            let ghost head = texts(out@);
            if n - (k + 1) > 0 {
                out.push(String::from_str(tail));
                assert(texts(out@) =~= head.push(tail@));
            }
            out
        },
    }
}

/// The upper-case form of a text, as std's `str::to_uppercase` gives it.
pub uninterp spec fn uppercase_of(s: Seq<char>) -> Seq<char>;

/// Relies on std's `str::to_uppercase`, whose result depends on the text alone.
#[verifier::external_body]
fn to_upper(s: &str) -> (r: String)
    ensures
        r@ == uppercase_of(s@),
{
    s.to_uppercase()
}

/// A text in title case, as the `titlecase` crate writes it.
pub uninterp spec fn title_case_of(s: Seq<char>) -> Seq<char>;

/// The longest text put in title case: the longest file name that common
/// filesystems accept. `titlecase` recurses once for each opening parenthesis
/// that starts a word, so its input is kept short.
pub const MAX_TITLE_LEN: usize = 255;

/// Relies on the `titlecase` crate's `titlecase`, which capitalizes the words
/// of a text but for small words; its result depends on the text alone.
#[verifier::external_body]
fn title_case(s: &str) -> (r: String)
    requires
        s@.len() <= MAX_TITLE_LEN,
    ensures
        r@ == title_case_of(s@),
{
    titlecase::titlecase(s)
}

/// A word with its first character in upper case.
pub open spec fn capitalized(w: Seq<char>) -> Seq<char> {
    if w.len() == 0 {
        w
    } else {
        uppercase_of(w.take(1)) + w.skip(1)
    }
}

/// Capitalized words joined by single spaces.
pub open spec fn joined_words(ws: Seq<Seq<char>>) -> Seq<char>
    decreases ws.len(),
{
    if ws.len() == 0 {
        Seq::empty()
    } else if ws.len() == 1 {
        capitalized(ws[0])
    } else {
        joined_words(ws.drop_last()) + " "@ + capitalized(ws.last())
    }
}

/// The path of `full` below the content directory of the site at `base`, or
/// `full` itself when it lies elsewhere.
pub open spec fn content_relative_of(base: Seq<char>, full: Seq<char>) -> Seq<char> {
    let dir = joined(base, "content"@);
    if full == dir {
        Seq::empty()
    } else if has_prefix(full, dir + "/"@) {
        full.skip(dir.len() + 1int)
    } else {
        full
    }
}

/// The name a title is drawn from: the directory of an index document (`Home`
/// at the top), else the file name without extension (`Untitled` if none).
pub open spec fn title_source_of(rel: Seq<char>) -> Seq<char> {
    if file_name_of(rel) == "index.norg"@ {
        let dir = file_name_of(parent_of(rel));
        if dir.len() == 0 {
            "Home"@
        } else {
            dir
        }
    } else {
        let stem = file_name_of(stem_path(rel));
        if stem.len() == 0 {
            "Untitled"@
        } else {
            stem
        }
    }
}

/// The words of the title of a new document at `full` in the site at `base`,
/// capitalized and joined, before title case.
pub open spec fn title_words_of(base: Seq<char>, full: Seq<char>) -> Seq<char> {
    joined_words(words_of(title_source_of(content_relative_of(base, full))))
}

/// The title of a new document at `full` in the site at `base`: none when its
/// words are longer than a file name may be.
pub open spec fn content_title_of(base: Seq<char>, full: Seq<char>) -> Option<Seq<char>> {
    if title_words_of(base, full).len() <= MAX_TITLE_LEN {
        Some(title_case_of(title_words_of(base, full)))
    } else {
        None
    }
}

fn last_component(p: &str) -> (r: String)
    ensures
        r@ == file_name_of(p@),
{
    proof {
        crate::text::lemma_last_index_bounds(p@, '/');
    }
    let n = p.unicode_len();
    match crate::text::last_index(p, '/') {
        Some(k) => {
            let r = String::from_str(p.substring_char(k + 1, n));
            assert(r@ =~= p@.skip(k + 1));
            r
        },
        None => {
            assert(p@.skip(0) =~= p@);
            String::from_str(p)
        },
    }
}

fn directory_part(p: &str) -> (r: String)
    ensures
        r@ == parent_of(p@),
{
    proof {
        crate::text::lemma_last_index_bounds(p@, '/');
    }
    match crate::text::last_index(p, '/') {
        Some(k) => String::from_str(p.substring_char(0, k)),
        None => String::new(),
    }
}

/// The title of a new document at `full` in the site whose root is `base`:
/// drawn from its name, words split at white space, `-` and `_`, each
/// capitalized, the whole in title case; none when the words are longer than
/// a file name may be.
pub fn generate_content_title(base: &str, full: &str) -> (r: Option<String>)
    ensures
        match r {
            Some(t) => content_title_of(base@, full@) == Some(t@),
            None => content_title_of(base@, full@).is_none(),
        },
{
    proof {
        reveal_strlit("/");
    }
    let dir = join_path(base, "content");
    let mut dir_slash = String::from_str(dir.as_str());
    dir_slash.append("/");
    let rel = if str_eq(full, dir.as_str()) {
        String::new()
    } else if starts_with(full, dir_slash.as_str()) {
        let n = full.unicode_len();
        let r = String::from_str(full.substring_char(dir.as_str().unicode_len() + 1, n));
        assert(r@ =~= full@.skip(dir@.len() + 1int));
        r
    } else {
        String::from_str(full)
    };
    let name = last_component(rel.as_str());
    let source = if str_eq(name.as_str(), "index.norg") {
        let parent = directory_part(rel.as_str());
        let d = last_component(parent.as_str());
        if d.as_str().unicode_len() == 0 { String::from_str("Home") } else { d }
    } else {
        let stem = stem_of(rel.as_str());
        let s = last_component(stem.as_str());
        if s.as_str().unicode_len() == 0 { String::from_str("Untitled") } else { s }
    };
    let words = split_words(source.as_str());
    let mut out = String::new();
    let mut i: usize = 0;
    assert(texts(words@).take(0) =~= Seq::<Seq<char>>::empty());
    while i < words.len()
        invariant
            i <= words@.len(),
            out@ == joined_words(texts(words@).take(i as int)),
        decreases words.len() - i,
    {
        let w = words[i].as_str();
        let n = w.unicode_len();
        let word = if n > 0 {
            let rest = w.substring_char(1, n);
            assert(rest@ =~= w@.skip(1));
            let mut up = to_upper(w.substring_char(0, 1));
            up.append(rest);
            up
        } else {
            String::new()
        };
        proof {
            assert(texts(words@).take(i + 1).drop_last() =~= texts(words@).take(i as int));
            assert(texts(words@).take(i + 1).last() == w@);
            if i == 0 {
                assert(texts(words@).take(1)[0] == w@);
            }
        }
        if i > 0 {
            out.append(" ");
        }
        out.append(word.as_str());
        assert(out@ =~= joined_words(texts(words@).take(i + 1)));
        i = i + 1;
    }
    assert(texts(words@).take(words@.len() as int) =~= texts(words@));
    if out.as_str().unicode_len() <= MAX_TITLE_LEN {
        Some(title_case(out.as_str()))
    } else {
        None
    }
}

/// The file name of a new document named `name`: `.norg` is added to a name
/// without extension, and a name with another extension is refused.
pub open spec fn content_name_of(name: Seq<char>) -> Option<Seq<char>> {
    match extension_of(name) {
        None => Some(name + ".norg"@),
        Some(e) => if e == "norg"@ {
            Some(name)
        } else {
            None
        },
    }
}

/// The file name of a new document named `name`.
pub fn content_file_name(name: &str) -> (r: Result<String, String>)
    ensures
        match r {
            Ok(n) => content_name_of(name@) == Some(n@),
            Err(m) => content_name_of(name@).is_none() && m@ == "Norg documents must have .norg extension"@,
        },
{
    match extension(name) {
        None => {
            let mut n = String::from_str(name);
            n.append(".norg");
            Ok(n)
        },
        Some(e) => if str_eq(e.as_str(), "norg") {
            Ok(String::from_str(name))
        } else {
            Err(String::from_str("Norg documents must have .norg extension"))
        },
    }
}

/// Where a new file of kind `t` named `name` goes in the site at `root`.
pub open spec fn target_path_of(root: Seq<char>, t: AssetType, name: Seq<char>) -> Seq<char> {
    match t {
        AssetType::Js => joined(joined(joined(root, "assets"@), "js"@), name),
        AssetType::Css => joined(joined(joined(root, "assets"@), "css"@), name),
        AssetType::Content => joined(joined(root, "content"@), name),
    }
}

/// Where a new file of kind `t` named `name` goes in the site at `root`.
pub fn target_path(root: &str, t: AssetType, name: &str) -> (r: String)
    ensures
        r@ == target_path_of(root@, t, name@),
{
    let dir = join_path(root, t.directory());
    let dir = match t.subdirectory() {
        Some(sub) => join_path(dir.as_str(), sub),
        None => dir,
    };
    join_path(dir.as_str(), name)
}

/// The pattern that separates the names in a list of authors or categories.
pub const LIST_SEPARATOR_PATTERN: &'static str = "[,\\s+?]+";

/// The text of a new Norg document: its metadata block, with the given title,
/// description, authors, categories, creation date and layout, marked as a
/// draft, then a heading and placeholder text. Authors and categories are
/// lists whose names are separated as `LIST_SEPARATOR_PATTERN` describes.
pub fn norg_document(
    title: &str,
    description: &str,
    authors: &str,
    categories: &str,
    created: &str,
    layout: &str,
) -> (r: Option<String>)
    ensures
        ({
            let a = crate::production::regex_replaced(LIST_SEPARATOR_PATTERN@, authors@, "\n  "@);
            let c = crate::production::regex_replaced(LIST_SEPARATOR_PATTERN@, categories@, "\n  "@);
            &&& (a.is_some() && c.is_some()) <==> r.is_some()
            &&& r.is_some() ==> r.unwrap()@ == "@document.meta\ntitle: "@ + title@ + "\ndescription: "@ + description@
                + "\nauthors: [\n  "@ + a.unwrap() + "\n]\ncategories: [\n  "@ + c.unwrap() + "\n]\ncreated: "@ + created@
                + "\nupdated: "@ + created@ + "\ndraft: true\nlayout: "@ + layout@ + "\nversion: 1.1.1\n@end\n\n* "@ + title@
                + "\n  "@ + PLACEHOLDER_TEXT@
        }),
{
    let a = crate::production::regex_replace_all(LIST_SEPARATOR_PATTERN, authors, "\n  ");
    let c = crate::production::regex_replace_all(LIST_SEPARATOR_PATTERN, categories, "\n  ");
    match (a, c) {
        (Some(a), Some(c)) => {
            let mut d = String::from_str("@document.meta\ntitle: ");
            d.append(title);
            d.append("\ndescription: ");
            d.append(description);
            d.append("\nauthors: [\n  ");
            d.append(a.as_str());
            d.append("\n]\ncategories: [\n  ");
            d.append(c.as_str());
            d.append("\n]\ncreated: ");
            d.append(created);
            d.append("\nupdated: ");
            d.append(created);
            d.append("\ndraft: true\nlayout: ");
            d.append(layout);
            d.append("\nversion: 1.1.1\n@end\n\n* ");
            d.append(title);
            d.append("\n  ");
            d.append(PLACEHOLDER_TEXT);
            Some(d)
        },
        _ => None,
    }
}

/// The body text of a new document.
pub const PLACEHOLDER_TEXT: &'static str = "Lorem ipsum dolor sit amet, consectetur adipiscing elit, sed do eiusmod tempor incididunt ut\n  labore et dolore magna aliqua. Lobortis scelerisque fermentum dui faucibus in ornare.";

} // verus!
