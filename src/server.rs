//! The decisions of the development server: where a request goes, which files
//! may answer it, what an I/O failure answers, how a page is prepared for live
//! reload, and what the reload channel says to a browser.

use vstd::prelude::*;
use vstd::string::*;
use crate::meta::{Metadata, is_draft_meta, categories_of};
use crate::listing::DocumentRecord;
use crate::text::{has_prefix, occurs_at, rfind, starts_with, str_eq};
use crate::paths::joined;
use crate::schema::{path_components, split_components};
use crate::convert::texts;

verus! {

/// What a request path asks for.
pub enum Route {
    LiveReloadScript,
    CategoryIndex,
    /// The page of the named category.
    Category(String),
    /// An asset, by its path below an assets directory.
    Asset(String),
    /// A document, by its path below the source tree, without extension.
    Content(String),
}

pub enum RouteView {
    LiveReloadScript,
    CategoryIndex,
    Category(Seq<char>),
    Asset(Seq<char>),
    Content(Seq<char>),
}

impl View for Route {
    type V = RouteView;

    open spec fn view(&self) -> RouteView {
        match self {
            Route::LiveReloadScript => RouteView::LiveReloadScript,
            Route::CategoryIndex => RouteView::CategoryIndex,
            Route::Category(c) => RouteView::Category(c@),
            Route::Asset(a) => RouteView::Asset(a@),
            Route::Content(c) => RouteView::Content(c@),
        }
    }
}

/// `p` without its leading separators.
pub open spec fn strip_leading_slashes(p: Seq<char>) -> Seq<char>
    decreases p.len(),
{
    if p.len() > 0 && p[0] == '/' {
        strip_leading_slashes(p.skip(1))
    } else {
        p
    }
}

/// The route of the request path `p`.
pub open spec fn route_of_request(p: Seq<char>) -> RouteView {
    if p == "/livereload.js"@ {
        RouteView::LiveReloadScript
    } else if p == "/categories"@ {
        RouteView::CategoryIndex
    } else if has_prefix(p, "/categories/"@) {
        RouteView::Category(p.skip("/categories/"@.len() as int))
    } else if has_prefix(p, "/assets/"@) {
        RouteView::Asset(p.skip("/assets/"@.len() as int))
    } else {
        RouteView::Content(strip_leading_slashes(p))
    }
}

/// `p` without its leading separators.
pub fn trim_leading_slashes(p: &str) -> (r: String)
    ensures
        r@ == strip_leading_slashes(p@),
{
    let n = p.unicode_len();
    let mut i: usize = 0;
    assert(p@.skip(0) =~= p@);
    while i < n && p.get_char(i) == '/'
        invariant
            i <= n == p@.len(),
            strip_leading_slashes(p@) == strip_leading_slashes(p@.skip(i as int)),
        decreases n - i,
    {
        assert(p@.skip(i as int).skip(1) =~= p@.skip(i + 1));
        i = i + 1;
    }
    let r = String::from_str(p.substring_char(i, n));
    assert(r@ =~= p@.skip(i as int));
    r
}

fn suffix_after(p: &str, k: usize) -> (r: String)
    requires
        k <= p@.len(),
    ensures
        r@ == p@.skip(k as int),
{
    let n = p.unicode_len();
    let r = String::from_str(p.substring_char(k, n));
    assert(r@ =~= p@.skip(k as int));
    r
}

/// Where the request for `path` goes.
pub fn route_request(path: &str) -> (r: Route)
    ensures
        r@ == route_of_request(path@),
{
    proof {
        reveal_strlit("/categories/");
        reveal_strlit("/assets/");
    }
    if str_eq(path, "/livereload.js") {
        Route::LiveReloadScript
    } else if str_eq(path, "/categories") {
        Route::CategoryIndex
    } else if starts_with(path, "/categories/") {
        Route::Category(suffix_after(path, 12))
    } else if starts_with(path, "/assets/") {
        Route::Asset(suffix_after(path, 8))
    } else {
        Route::Content(trim_leading_slashes(path))
    }
}

/// The files that may hold the document asked for as `rel`, in the order they
/// are tried: `<rel>.norg`, then `<rel>/index.norg`; the root asks for the
/// index of the source tree alone.
pub open spec fn content_candidates_of(content_dir: Seq<char>, rel: Seq<char>) -> Seq<Seq<char>> {
    if rel.len() == 0 {
        seq![joined(content_dir, "index.norg"@)]
    } else {
        seq![joined(content_dir, rel + ".norg"@), joined(content_dir, rel + "/index.norg"@)]
    }
}

/// The files that may hold the document asked for as `rel`, in order.
pub fn content_candidates(content_dir: &str, rel: &str) -> (r: Vec<String>)
    ensures
        crate::convert::texts(r@) == content_candidates_of(content_dir@, rel@),
{
    let mut out: Vec<String> = Vec::new();
    if rel.unicode_len() == 0 {
        out.push(crate::paths::join_path(content_dir, "index.norg"));
    } else {
        let mut a = String::from_str(rel);
        a.append(".norg");
        out.push(crate::paths::join_path(content_dir, a.as_str()));
        let mut b = String::from_str(rel);
        b.append("/index.norg");
        out.push(crate::paths::join_path(content_dir, b.as_str()));
    }
    assert(crate::convert::texts(out@) =~= content_candidates_of(content_dir@, rel@));
    out
}

/// The files that may hold the asset at `rel`, in order: the site's own
/// assets first, then the theme's.
pub fn asset_candidates(assets_dir: &str, theme_assets_dir: &str, rel: &str) -> (r: Vec<String>)
    ensures
        crate::convert::texts(r@) == seq![joined(assets_dir@, rel@), joined(theme_assets_dir@, rel@)],
{
    let mut out: Vec<String> = Vec::new();
    out.push(crate::paths::join_path(assets_dir, rel));
    out.push(crate::paths::join_path(theme_assets_dir, rel));
    assert(crate::convert::texts(out@) =~= seq![joined(assets_dir@, rel@), joined(theme_assets_dir@, rel@)]);
    out
}

/// Whether a document with metadata `meta` may be served: a draft only when
/// drafts are served.
pub fn may_serve(meta: &Metadata, drafts_enabled: bool) -> (r: bool)
    ensures
        r == (!is_draft_meta(*meta) || drafts_enabled),
{
    !meta.is_draft() || drafts_enabled
}

/// The kind of an I/O failure met while answering a request.
#[derive(PartialEq, Eq, Structural, Clone, Copy, Debug)]
pub enum IoFailure {
    NotFound,
    PermissionDenied,
    Other,
}

/// The HTTP status that answers an I/O failure.
pub fn status_for_failure(f: IoFailure) -> (r: u16)
    ensures
        f == IoFailure::NotFound ==> r == 404,
        f == IoFailure::PermissionDenied ==> r == 403,
        f == IoFailure::Other ==> r == 500,
{
    match f {
        IoFailure::NotFound => 404,
        IoFailure::PermissionDenied => 403,
        IoFailure::Other => 500,
    }
}

/// The port of the live-reload channel.
pub const LIVE_RELOAD_PORT: u16 = 35729;

/// The tag that loads the live-reload client.
pub const LIVE_RELOAD_TAG: &'static str = "<script src=\"/livereload.js?port=35729&amp;mindelay=10\"></script>";

/// The closing tag of a page body.
pub const BODY_END: &'static str = "</body>";

/// `s` with the live-reload tag put in at index `i`.
pub open spec fn injected_at(s: Seq<char>, i: int) -> Seq<char> {
    s.take(i) + LIVE_RELOAD_TAG@ + s.skip(i)
}

/// Puts the live-reload tag right before the last `</body>` of `html`; a page
/// without one stays as it is.
pub fn inject_livereload_script(html: &mut String)
    ensures
        (exists|i: int|
            occurs_at(old(html)@, BODY_END@, i) && (forall|j: int| i < j ==> !occurs_at(old(html)@, BODY_END@, j))
                && final(html)@ == injected_at(old(html)@, i))
            || ((forall|j: int| !occurs_at(old(html)@, BODY_END@, j)) && final(html)@ == old(html)@),
{
    let found = rfind(html.as_str(), BODY_END);
    match found {
        Some(pos) => {
            let n = html.as_str().unicode_len();
            let mut out = String::from_str(html.as_str().substring_char(0, pos));
            out.append(LIVE_RELOAD_TAG);
            out.append(html.as_str().substring_char(pos, n));
            let ghost before = html@;
            assert(out@ =~= injected_at(before, pos as int));
            *html = out;
        },
        None => {},
    }
}

/// `s` with `to` before every character and at its end: what replacing the
/// empty text gives.
pub open spec fn interleaved(s: Seq<char>, to: Seq<char>) -> Seq<char>
    decreases s.len(),
{
    if s.len() == 0 {
        to
    } else {
        to + seq![s[0]] + interleaved(s.skip(1), to)
    }
}

/// `s` with every occurrence of `from` replaced by `to`, occurrences taken
/// from left to right without overlap, as std's `str::replace` does.
pub open spec fn replaced(s: Seq<char>, from: Seq<char>, to: Seq<char>) -> Seq<char>
    decreases s.len(),
{
    if from.len() == 0 {
        interleaved(s, to)
    } else if s.len() < from.len() {
        s
    } else if s.take(from.len() as int) == from {
        to + replaced(s.skip(from.len() as int), from, to)
    } else {
        seq![s[0]] + replaced(s.skip(1), from, to)
    }
}

/// `s` with every occurrence of `from` replaced by `to`.
pub fn replace_text(s: &str, from: &str, to: &str) -> (r: String)
    ensures
        r@ == replaced(s@, from@, to@),
{
    let n = s.unicode_len();
    let m = from.unicode_len();
    let mut out = String::new();
    let mut i: usize = 0;
    assert(s@.skip(0) =~= s@);
    assert(out@ + replaced(s@, from@, to@) =~= replaced(s@, from@, to@));
    if m == 0 {
        while i < n
            invariant
                i <= n == s@.len(),
                m == from@.len() == 0,
                out@ + interleaved(s@.skip(i as int), to@) == replaced(s@, from@, to@),
            decreases n - i,
        {
            let ghost rest = s@.skip(i as int);
            out.append(to);
            let c = s.substring_char(i, i + 1);
            assert(c@ =~= seq![rest[0]]);
            out.append(c);
            assert(rest.skip(1) =~= s@.skip(i + 1));
            assert(out@ + interleaved(s@.skip(i + 1), to@) =~= replaced(s@, from@, to@));
            i = i + 1;
        }
        out.append(to);
        assert(s@.skip(n as int) =~= Seq::<char>::empty());
        return out;
    }
    while i < n
        invariant
            i <= n == s@.len(),
            m == from@.len() > 0,
            out@ + replaced(s@.skip(i as int), from@, to@) == replaced(s@, from@, to@),
        decreases n - i,
    {
        let ghost rest = s@.skip(i as int);
        if n - i < m {
            assert(replaced(rest, from@, to@) == rest);
            let tail = s.substring_char(i, n);
            assert(tail@ =~= rest);
            out.append(tail);
            assert(s@.skip(n as int) =~= Seq::<char>::empty());
            assert(replaced(s@.skip(n as int), from@, to@) =~= Seq::<char>::empty());
            assert(out@ + replaced(s@.skip(n as int), from@, to@) =~= replaced(s@, from@, to@));
            i = n;
        } else {
            let piece = s.substring_char(i, i + m);
            assert(piece@ =~= rest.take(m as int));
            if str_eq(piece, from) {
                out.append(to);
                assert(rest.skip(m as int) =~= s@.skip(i + m));
                assert(out@ + replaced(s@.skip(i + m), from@, to@) =~= replaced(s@, from@, to@));
                i = i + m;
            } else {
                let c = s.substring_char(i, i + 1);
                assert(c@ =~= seq![rest[0]]);
                out.append(c);
                assert(rest.skip(1) =~= s@.skip(i + 1));
                assert(out@ + replaced(s@.skip(i + 1), from@, to@) =~= replaced(s@, from@, to@));
                i = i + 1;
            }
        }
    }
    assert(s@.skip(n as int) =~= Seq::<char>::empty());
    assert(replaced(s@.skip(n as int), from@, to@) =~= Seq::<char>::empty());
    assert(out@ =~= out@ + replaced(s@.skip(n as int), from@, to@));
    out
}

/// The root URL as it appears in rendered pages, with its slashes escaped.
pub open spec fn escaped_root_of(root_url: Seq<char>) -> Seq<char> {
    replaced(root_url, "://"@, ":&#x2F;&#x2F;"@)
}

/// A rendered page whose links to the site's root URL point at the running
/// server instead.
pub fn localize_links(body: &str, root_url: &str, server_url: &str) -> (r: String)
    ensures
        r@ == replaced(body@, escaped_root_of(root_url@), server_url@),
{
    let escaped = replace_text(root_url, "://", ":&#x2F;&#x2F;");
    replace_text(body, escaped.as_str(), server_url)
}

/// The indices of the posts that name `category` among their categories, in order.
pub open spec fn in_category(p: DocumentRecord, category: Seq<char>) -> bool {
    categories_of(p.meta).contains(category)
}

/// The indices of the posts of `posts` that name `category`, in order.
pub fn category_members(posts: &Vec<DocumentRecord>, category: &str) -> (r: Vec<usize>)
    ensures
        forall|k: int| 0 <= k < r@.len() ==> r@[k] < posts@.len() && in_category(posts@[r@[k] as int], category@),
        forall|k: int, l: int| 0 <= k < l < r@.len() ==> r@[k] < r@[l],
        forall|i: int| 0 <= i < posts@.len() && in_category(posts@[i], category@) ==> r@.contains(i as usize),
{
    let mut out: Vec<usize> = Vec::new();
    let mut i: usize = 0;
    while i < posts.len()
        invariant
            i <= posts@.len(),
            forall|k: int| 0 <= k < out@.len() ==> out@[k] < i && in_category(posts@[out@[k] as int], category@),
            forall|k: int, l: int| 0 <= k < l < out@.len() ==> out@[k] < out@[l],
            forall|x: int| 0 <= x < i && in_category(posts@[x], category@) ==> out@.contains(x as usize),
        decreases posts.len() - i,
    {
        let cats = posts[i].meta.categories();
        let mut found = false;
        let mut j: usize = 0;
        while j < cats.len()
            invariant
                i < posts@.len(),
                j <= cats@.len(),
                cats@.len() == categories_of(posts@[i as int].meta).len(),
                forall|l: int| 0 <= l < cats@.len() ==> cats@[l]@ == categories_of(posts@[i as int].meta)[l],
                found == exists|l: int| 0 <= l < j && categories_of(posts@[i as int].meta)[l] == category@,
            decreases cats.len() - j,
        {
            let ghost cs = categories_of(posts@[i as int].meta);
            if str_eq(cats[j].as_str(), category) {
                found = true;
                assert(cs[j as int] == category@);
            }
            proof {
                if exists|l: int| 0 <= l < j + 1 && cs[l] == category@ {
                    let l = choose|l: int| 0 <= l < j + 1 && cs[l] == category@;
                    if l < j as int {
                        assert(exists|l: int| 0 <= l < j && cs[l] == category@);
                    }
                }
            }
            j = j + 1;
        }
        let ghost prev = out@;
        if found {
            out.push(i);
            assert(out@[out@.len() - 1] == i);
            assert forall|x: int| 0 <= x < i + 1 && in_category(posts@[x], category@) implies out@.contains(x as usize) by {
                if x < i {
                    let k = choose|k: int| 0 <= k < prev.len() && prev[k] == x as usize;
                    assert(out@[k] == prev[k]);
                }
            }
        } else {
            assert forall|x: int| 0 <= x < i + 1 && in_category(posts@[x], category@) implies out@.contains(x as usize) by {
                if x == i {
                    let l = choose|l: int| 0 <= l < categories_of(posts@[i as int].meta).len() && categories_of(posts@[i as int].meta)[l] == category@;
                }
            }
        }
        i = i + 1;
    }
    out
}

/// What happens on one connection of the reload channel.
#[derive(PartialEq, Eq, Structural, Clone, Copy, Debug)]
pub enum ChannelEvent {
    /// A browser connected.
    Connected,
    /// Something changed and every browser must reload.
    Pulse,
    /// The browser sent a close frame.
    CloseFrame,
    /// The browser sent any other frame.
    OtherFrame,
    /// A frame could not be sent or received.
    Failed,
}

/// What the server does on one connection in answer to an event.
pub enum ChannelAction {
    Send(String),
    Ignore,
    Close,
}

/// The greeting of the live-reload protocol.
pub const HELLO_MESSAGE: &'static str = "{\"command\":\"hello\",\"protocols\":[\"http://livereload.com/protocols/official-7\"],\"serverName\":\"norgolith\"}";

/// The reload order of the live-reload protocol.
pub const RELOAD_MESSAGE: &'static str = "{\"command\":\"reload\",\"path\":\"/\"}";

/// What the server does on a connection of the reload channel when `event`
/// happens: greet a new browser, order a reload on every pulse, end the
/// connection on a close frame or a failure, and pass over any other frame.
/// Only that one connection is concerned.
pub fn channel_step(event: ChannelEvent) -> (r: ChannelAction)
    ensures
        event == ChannelEvent::Connected ==> (r matches ChannelAction::Send(m) && m@ == HELLO_MESSAGE@),
        event == ChannelEvent::Pulse ==> (r matches ChannelAction::Send(m) && m@ == RELOAD_MESSAGE@),
        event == ChannelEvent::CloseFrame || event == ChannelEvent::Failed ==> r is Close,
        event == ChannelEvent::OtherFrame ==> r is Ignore,
{
    match event {
        ChannelEvent::Connected => ChannelAction::Send(String::from_str(HELLO_MESSAGE)),
        ChannelEvent::Pulse => ChannelAction::Send(String::from_str(RELOAD_MESSAGE)),
        ChannelEvent::CloseFrame => ChannelAction::Close,
        ChannelEvent::OtherFrame => ChannelAction::Ignore,
        ChannelEvent::Failed => ChannelAction::Close,
    }
}


/// `dir` followed by each of `parts`, each after a separator.
pub open spec fn under_dir(dir: Seq<char>, parts: Seq<Seq<char>>) -> Seq<char>
    decreases parts.len(),
{
    if parts.len() == 0 {
        dir
    } else {
        under_dir(dir, parts.drop_last()) + "/"@ + parts.last()
    }
}

/// A component that may not stand in a served path.
pub open spec fn climbs(c: Seq<char>) -> bool {
    c == ".."@ || c == "."@
}

/// The file below `./public` that the request path `uri_path` names: its
/// components, without any `..` or `.`, below the output directory.
pub open spec fn sanitized_of(uri_path: Seq<char>) -> Seq<char> {
    under_dir("./public"@, path_components(uri_path).filter(|c: Seq<char>| !climbs(c)))
}

/// The file below `./public` that the request path `uri_path` names; no
/// component can climb out of the output directory.
pub fn sanitize_path(uri_path: &str) -> (r: String)
    ensures
        r@ == sanitized_of(uri_path@),
{
    let comps = split_components(uri_path);
    let ghost pred = |c: Seq<char>| !climbs(c);
    let mut out = String::from_str("./public");
    let mut i: usize = 0;
    assert(texts(comps@).take(0).filter(pred) =~= Seq::<Seq<char>>::empty());
    while i < comps.len()
        invariant
            i <= comps@.len(),
            pred == (|c: Seq<char>| !climbs(c)),
            texts(comps@) == path_components(uri_path@),
            out@ == under_dir("./public"@, texts(comps@).take(i as int).filter(pred)),
        decreases comps.len() - i,
    {
        let c = &comps[i];
        proof {
            assert(texts(comps@).take(i + 1) =~= texts(comps@).take(i as int).push(c@));
            texts(comps@).take(i as int).lemma_filter_push(c@, pred);
        }
        let ghost f = texts(comps@).take(i as int).filter(pred);
        if !str_eq(c.as_str(), "..") && !str_eq(c.as_str(), ".") {
            out.append("/");
            out.append(c.as_str());
            assert(f.push(c@).drop_last() =~= f);
            assert(pred(c@));
        } else {
            assert(!pred(c@));
        }
        i = i + 1;
    }
    assert(texts(comps@).take(comps@.len() as int) =~= texts(comps@));
    out
}

} // verus!
