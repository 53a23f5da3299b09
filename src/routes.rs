//! Where each document of the source tree goes: its permalink, its output file,
//! and the intermediate artifacts that hold its converted form.
//!
//! All paths here are relative, with `/` as separator.

use vstd::prelude::*;
use vstd::string::*;
use crate::text::{last_index_of, last_index, lemma_last_index_bounds, lemma_last_index_append, lemma_last_index_at, str_eq};

verus! {

/// The index of the dot that starts the extension of the last component of `p`,
/// or -1 when that component has none (a leading dot starts no extension).
pub open spec fn ext_dot(p: Seq<char>) -> int {
    let slash = last_index_of(p, '/');
    let dot = last_index_of(p, '.');
    if dot > slash + 1 {
        dot
    } else {
        -1
    }
}

/// `p` without the extension of its last component.
pub open spec fn stem_path(p: Seq<char>) -> Seq<char> {
    if ext_dot(p) >= 0 {
        p.take(ext_dot(p))
    } else {
        p
    }
}

/// The extension of the last component of `p`.
pub open spec fn extension_of(p: Seq<char>) -> Option<Seq<char>> {
    if ext_dot(p) >= 0 {
        Some(p.skip(ext_dot(p) + 1))
    } else {
        None
    }
}

/// The last component of `p`.
pub open spec fn file_name_of(p: Seq<char>) -> Seq<char> {
    p.skip(last_index_of(p, '/') + 1)
}

/// The directory part of `p`, empty when `p` has a single component.
pub open spec fn parent_of(p: Seq<char>) -> Seq<char> {
    if last_index_of(p, '/') >= 0 {
        p.take(last_index_of(p, '/'))
    } else {
        Seq::empty()
    }
}

/// A document's place in the URL space: its path without extension, where an
/// `index` document stands for its directory.
pub open spec fn route_of(rel: Seq<char>) -> Seq<char> {
    let stem = stem_path(rel);
    if file_name_of(stem) == "index"@ {
        parent_of(stem)
    } else {
        stem
    }
}

/// The absolute URL of the document at `rel` on the site rooted at `root_url`.
pub open spec fn permalink_of(rel: Seq<char>, root_url: Seq<char>) -> Seq<char> {
    let route = route_of(rel);
    if route.len() == 0 {
        root_url + "/"@
    } else {
        root_url + "/"@ + route + "/"@
    }
}

/// The output file of the document at `rel`, relative to the output directory:
/// an `index` document keeps its place, any other becomes `<stem>/index.html`.
pub open spec fn output_path_of(rel: Seq<char>) -> Seq<char> {
    let stem = stem_path(rel);
    if file_name_of(stem) == "index"@ {
        stem + ".html"@
    } else {
        stem + "/index.html"@
    }
}

/// The intermediate HTML artifact of the document at `rel`.
pub open spec fn html_artifact_of(rel: Seq<char>) -> Seq<char> {
    stem_path(rel) + ".html"@
}

/// The intermediate metadata artifact of the document at `rel`.
pub open spec fn meta_artifact_of(rel: Seq<char>) -> Seq<char> {
    stem_path(rel) + ".meta"@
}

/// The document that an intermediate artifact at `rel` was made from.
pub open spec fn source_of_artifact(rel: Seq<char>) -> Option<Seq<char>> {
    if extension_of(rel) == Some("html"@) || extension_of(rel) == Some("meta"@) {
        Some(stem_path(rel) + ".norg"@)
    } else {
        None
    }
}

/// A Norg document, by its extension.
pub open spec fn is_document(p: Seq<char>) -> bool {
    extension_of(p) == Some("norg"@)
}


/// Text that holds neither a separator nor a dot.
pub open spec fn plain_segment(s: Seq<char>) -> bool {
    forall|j: int| 0 <= j < s.len() ==> s[j] != '/' && s[j] != '.'
}

/// Text that holds no separator.
pub open spec fn one_component(s: Seq<char>) -> bool {
    forall|j: int| 0 <= j < s.len() ==> s[j] != '/'
}

/// The facts about `dir + "/" + name + "." + ext` that every path rule reads.
proof fn lemma_page_parts(dir: Seq<char>, name: Seq<char>, ext: Seq<char>)
    requires
        one_component(name),
        plain_segment(ext),
        name.len() > 0,
    ensures
        ({
            let p = dir.push('/') + name.push('.') + ext;
            &&& ext_dot(p) == dir.len() + 1 + name.len()
            &&& stem_path(p) == dir.push('/') + name
            &&& last_index_of(stem_path(p), '/') == dir.len()
            &&& file_name_of(stem_path(p)) == name
            &&& parent_of(stem_path(p)) == dir
        }),
{
    let p = dir.push('/') + name.push('.') + ext;
    let q = dir.push('/') + name;
    assert(p =~= q.push('.') + ext);
    lemma_last_index_at(q, ext, '.');
    let rest = name.push('.') + ext;
    assert forall|j: int| 0 <= j < rest.len() implies rest[j] != '/' by {
        if j < name.len() {
            assert(rest[j] == name[j]);
        } else if j > name.len() {
            assert(rest[j] == ext[j - name.len() - 1]);
        }
    }
    assert(p =~= dir.push('/') + rest);
    lemma_last_index_at(dir, rest, '/');
    assert(p.take((dir.len() + 1 + name.len()) as int) =~= q);
    lemma_last_index_at(dir, name, '/');
    assert(q.skip((dir.len() + 1) as int) =~= name);
    assert(q.take(dir.len() as int) =~= dir);
}

/// The facts about a document `name + "." + ext` at the top of the tree.
proof fn lemma_top_parts(name: Seq<char>, ext: Seq<char>)
    requires
        one_component(name),
        plain_segment(ext),
        name.len() > 0,
    ensures
        ({
            let p = name.push('.') + ext;
            &&& ext_dot(p) == name.len()
            &&& stem_path(p) == name
            &&& last_index_of(stem_path(p), '/') == -1
            &&& file_name_of(stem_path(p)) == name
            &&& parent_of(stem_path(p)) == Seq::<char>::empty()
        }),
{
    let p = name.push('.') + ext;
    lemma_last_index_at(name, ext, '.');
    assert(p =~= Seq::<char>::empty() + (name.push('.') + ext));
    assert forall|j: int| 0 <= j < p.len() implies p[j] != '/' by {
        if j < name.len() {
            assert(p[j] == name[j]);
        } else if j > name.len() {
            assert(p[j] == ext[j - name.len() - 1]);
        }
    }
    lemma_last_index_append(Seq::<char>::empty(), p, '/');
    lemma_last_index_append(Seq::<char>::empty(), name, '/');
    assert(Seq::<char>::empty() + name =~= name);
    assert(p.take(name.len() as int) =~= name);
    assert(name.skip(0) =~= name);
}


/// Putting an extension on a path whose last component is not empty.
pub proof fn lemma_add_extension(q: Seq<char>, e: Seq<char>)
    requires
        plain_segment(e),
        q.len() > 0,
        q.last() != '/',
    ensures
        ext_dot(q.push('.') + e) == q.len(),
        stem_path(q.push('.') + e) == q,
        extension_of(q.push('.') + e) == Some(e),
{
    let p = q.push('.') + e;
    lemma_last_index_at(q, e, '.');
    let rest = seq!['.'] + e;
    assert(p =~= q + rest);
    assert forall|j: int| 0 <= j < rest.len() implies rest[j] != '/' by {
        if j > 0 {
            assert(rest[j] == e[j - 1]);
        }
    }
    lemma_last_index_append(q, rest, '/');
    lemma_last_index_bounds(q, '/');
    assert(p.take(q.len() as int) =~= q);
    assert(p.skip((q.len() + 1) as int) =~= e);
}

/// A path with an extension is its stem, a dot and the extension, where the
/// stem's last component is not empty.
pub proof fn lemma_split_extension(p: Seq<char>)
    requires
        ext_dot(p) >= 0,
    ensures
        stem_path(p).len() > 0,
        stem_path(p).last() != '/',
        plain_segment(extension_of(p).unwrap()),
        p == stem_path(p).push('.') + extension_of(p).unwrap(),
{
    lemma_last_index_bounds(p, '/');
    lemma_last_index_bounds(p, '.');
    let d = ext_dot(p);
    let e = p.skip(d + 1);
    assert forall|j: int| 0 <= j < e.len() implies e[j] != '/' && e[j] != '.' by {
        assert(e[j] == p[d + 1 + j]);
    }
    assert(p =~= p.take(d).push('.') + e);
}

/// An index document stands for its directory: `<dir>/index.<ext>` has the
/// permalink `<root_url>/<dir>/`, and the root index has `<root_url>/`.
pub proof fn lemma_permalink_of_index(root_url: Seq<char>, dir: Seq<char>, ext: Seq<char>)
    requires
        plain_segment(ext),
    ensures
        dir.len() > 0 ==> permalink_of(dir.push('/') + "index"@.push('.') + ext, root_url)
            == root_url + "/"@ + dir + "/"@,
        permalink_of("index"@.push('.') + ext, root_url) == root_url + "/"@,
{
    reveal_strlit("index");
    assert(plain_segment("index"@));
    assert(one_component("index"@));
    lemma_page_parts(dir, "index"@, ext);
    lemma_top_parts("index"@, ext);
}

/// Any other document becomes a directory of its own: `<dir>/<name>.<ext>` has
/// the permalink `<root_url>/<dir>/<name>/`; the name may hold dots.
pub proof fn lemma_permalink_of_page(root_url: Seq<char>, dir: Seq<char>, name: Seq<char>, ext: Seq<char>)
    requires
        one_component(name),
        plain_segment(ext),
        name.len() > 0,
        name != "index"@,
    ensures
        permalink_of(dir.push('/') + name.push('.') + ext, root_url)
            == root_url + "/"@ + (dir.push('/') + name) + "/"@,
        permalink_of(name.push('.') + ext, root_url) == root_url + "/"@ + name + "/"@,
{
    lemma_page_parts(dir, name, ext);
    lemma_top_parts(name, ext);
}

/// Output paths: `<name>.<ext>` is written to `<name>/index.html`, and
/// `index.<ext>` to `index.html` in the same directory; the name may hold dots.
pub proof fn lemma_output_path_rule(dir: Seq<char>, name: Seq<char>, ext: Seq<char>)
    requires
        one_component(name),
        plain_segment(ext),
        name.len() > 0,
    ensures
        name != "index"@ ==> output_path_of(name.push('.') + ext) == name + "/index.html"@,
        name != "index"@ ==> output_path_of(dir.push('/') + name.push('.') + ext)
            == dir.push('/') + name + "/index.html"@,
        output_path_of("index"@.push('.') + ext) == "index.html"@,
        output_path_of(dir.push('/') + "index"@.push('.') + ext) == dir.push('/') + "index.html"@,
{
    reveal_strlit("index");
    reveal_strlit("index.html");
    reveal_strlit(".html");
    assert(plain_segment("index"@));
    lemma_page_parts(dir, name, ext);
    lemma_top_parts(name, ext);
    lemma_page_parts(dir, "index"@, ext);
    lemma_top_parts("index"@, ext);
    assert("index"@ + ".html"@ =~= "index.html"@);
    assert(dir.push('/') + "index"@ + ".html"@ =~= dir.push('/') + "index.html"@);
}

/// The dot of the extension of the last component of `p`.
pub fn extension_dot(p: &str) -> (r: Option<usize>)
    ensures
        match r {
            Some(d) => d as int == ext_dot(p@) && 0 <= ext_dot(p@) < p@.len(),
            None => ext_dot(p@) == -1,
        },
{
    proof {
        lemma_last_index_bounds(p@, '/');
        lemma_last_index_bounds(p@, '.');
    }
    let dot = last_index(p, '.');
    let slash = last_index(p, '/');
    match dot {
        None => None,
        Some(d) => match slash {
            None => if d > 0 { Some(d) } else { None },
            Some(sl) => if d > sl && d - sl > 1 { Some(d) } else { None },
        },
    }
}

/// `p` without the extension of its last component.
pub fn stem_of(p: &str) -> (r: String)
    ensures
        r@ == stem_path(p@),
{
    match extension_dot(p) {
        Some(d) => String::from_str(p.substring_char(0, d)),
        None => String::from_str(p),
    }
}

/// The extension of the last component of `p`.
pub fn extension(p: &str) -> (r: Option<String>)
    ensures
        match r {
            Some(e) => extension_of(p@) == Some(e@),
            None => extension_of(p@).is_none(),
        },
{
    match extension_dot(p) {
        Some(d) => {
            let n = p.unicode_len();
            let e = String::from_str(p.substring_char(d + 1, n));
            assert(e@ =~= p@.skip(d + 1));
            Some(e)
        },
        None => None,
    }
}

/// Whether `p` names a Norg document.
pub fn is_norg_document(p: &str) -> (r: bool)
    ensures
        r == is_document(p@),
{
    match extension(p) {
        Some(e) => str_eq(e.as_str(), "norg"),
        None => false,
    }
}

/// The last component of `p` and the directory part before it.
fn split_last(p: &str) -> (r: (String, String))
    ensures
        r.0@ == parent_of(p@),
        r.1@ == file_name_of(p@),
{
    proof {
        lemma_last_index_bounds(p@, '/');
    }
    let n = p.unicode_len();
    match last_index(p, '/') {
        Some(s) => {
            let dir = String::from_str(p.substring_char(0, s));
            let name = String::from_str(p.substring_char(s + 1, n));
            assert(name@ =~= p@.skip(s + 1));
            (dir, name)
        },
        None => {
            assert(p@.skip(0) =~= p@);
            (String::new(), String::from_str(p))
        },
    }
}

/// The place in the URL space of the document at `rel`.
pub fn route(rel: &str) -> (r: String)
    ensures
        r@ == route_of(rel@),
{
    let stem = stem_of(rel);
    let (dir, name) = split_last(stem.as_str());
    if str_eq(name.as_str(), "index") {
        dir
    } else {
        stem
    }
}

/// The absolute URL of the document at `rel` on the site rooted at `root_url`.
pub fn permalink(rel: &str, root_url: &str) -> (r: String)
    ensures
        r@ == permalink_of(rel@, root_url@),
{
    let route = route(rel);
    let mut url = String::from_str(root_url);
    url.append("/");
    if route.unicode_len() > 0 {
        url.append(route.as_str());
        url.append("/");
    }
    url
}

/// The output file of the document at `rel`, relative to the output directory.
pub fn output_path(rel: &str) -> (r: String)
    ensures
        r@ == output_path_of(rel@),
{
    let mut stem = stem_of(rel);
    let (_dir, name) = split_last(stem.as_str());
    if str_eq(name.as_str(), "index") {
        stem.append(".html");
    } else {
        stem.append("/index.html");
    }
    stem
}

/// The intermediate HTML artifact of the document at `rel`.
pub fn html_artifact(rel: &str) -> (r: String)
    ensures
        r@ == html_artifact_of(rel@),
{
    let mut stem = stem_of(rel);
    stem.append(".html");
    stem
}

/// The intermediate metadata artifact of the document at `rel`.
pub fn meta_artifact(rel: &str) -> (r: String)
    ensures
        r@ == meta_artifact_of(rel@),
{
    let mut stem = stem_of(rel);
    stem.append(".meta");
    stem
}

/// The document that the intermediate artifact at `rel` was made from.
pub fn artifact_source(rel: &str) -> (r: Option<String>)
    ensures
        match r {
            Some(s) => source_of_artifact(rel@) == Some(s@),
            None => source_of_artifact(rel@).is_none(),
        },
{
    let known = match extension(rel) {
        Some(e) => str_eq(e.as_str(), "html") || str_eq(e.as_str(), "meta"),
        None => false,
    };
    if known {
        let mut stem = stem_of(rel);
        stem.append(".norg");
        Some(stem)
    } else {
        None
    }
}

} // verus!
