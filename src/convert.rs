//! The decisions of the document conversion pipeline: which intermediate
//! artifacts a freshly converted document must rewrite, and which artifacts
//! have outlived their source document.
//!
//! An artifact is rewritten only when its new content differs from what is on
//! disk, and a draft is not written at all unless drafts are wanted.

use vstd::prelude::*;
use vstd::string::*;
use crate::meta::{Metadata, is_draft_meta};
use crate::routes::{
    html_artifact, meta_artifact, artifact_source, html_artifact_of, meta_artifact_of,
    source_of_artifact, is_document, stem_path, lemma_add_extension,
    lemma_split_extension, plain_segment,
};
use crate::text::str_eq;

verus! {

/// One artifact to write: its path below the intermediate cache, and its content.
pub struct ArtifactWrite {
    pub path: String,
    pub content: String,
}

pub open spec fn write_view(w: ArtifactWrite) -> (Seq<char>, Seq<char>) {
    (w.path@, w.content@)
}

/// The texts of a list of strings.
pub open spec fn texts(v: Seq<String>) -> Seq<Seq<char>> {
    v.map_values(|s: String| s@)
}

pub open spec fn opt_text(o: Option<&str>) -> Option<Seq<char>> {
    match o {
        Some(s) => Some(s@),
        None => None,
    }
}

/// The writes that bring the artifacts of the document at `rel` up to date,
/// given what is on disk: none for a draft when drafts are not wanted, else the
/// HTML when it changed, then the metadata when it changed.
pub open spec fn planned_writes(
    rel: Seq<char>,
    html: Seq<char>,
    meta_text: Seq<char>,
    draft: bool,
    include_drafts: bool,
    html_on_disk: Option<Seq<char>>,
    meta_on_disk: Option<Seq<char>>,
) -> Seq<(Seq<char>, Seq<char>)> {
    if draft && !include_drafts {
        Seq::empty()
    } else {
        let h = if html_on_disk == Some(html) {
            Seq::empty()
        } else {
            seq![(html_artifact_of(rel), html)]
        };
        let m = if meta_on_disk == Some(meta_text) {
            Seq::empty()
        } else {
            seq![(meta_artifact_of(rel), meta_text)]
        };
        h + m
    }
}

/// Plans the writes for the document at `rel`, converted to `html` with its
/// metadata `meta` serialized as `meta_text`, against the artifacts now on disk.
pub fn plan_document_writes(
    rel: &str,
    html: &str,
    meta_text: &str,
    meta: &Metadata,
    include_drafts: bool,
    html_on_disk: Option<&str>,
    meta_on_disk: Option<&str>,
) -> (r: Vec<ArtifactWrite>)
    ensures
        r@.map_values(|w: ArtifactWrite| write_view(w)) == planned_writes(
            rel@,
            html@,
            meta_text@,
            is_draft_meta(*meta),
            include_drafts,
            opt_text(html_on_disk),
            opt_text(meta_on_disk),
        ),
{
    let mut out: Vec<ArtifactWrite> = Vec::new();
    if meta.is_draft() && !include_drafts {
        assert(out@.map_values(|w: ArtifactWrite| write_view(w)) =~= Seq::empty());
        return out;
    }
    let html_same = match html_on_disk {
        Some(d) => str_eq(d, html),
        None => false,
    };
    if !html_same {
        out.push(ArtifactWrite { path: html_artifact(rel), content: String::from_str(html) });
    }
    let meta_same = match meta_on_disk {
        Some(d) => str_eq(d, meta_text),
        None => false,
    };
    if !meta_same {
        out.push(ArtifactWrite { path: meta_artifact(rel), content: String::from_str(meta_text) });
    }
    assert(out@.map_values(|w: ArtifactWrite| write_view(w)) =~= planned_writes(
        rel@,
        html@,
        meta_text@,
        is_draft_meta(*meta),
        include_drafts,
        opt_text(html_on_disk),
        opt_text(meta_on_disk),
    ));
    out
}

/// What a file map holds at `path`.
pub open spec fn read_file(disk: Map<Seq<char>, Seq<char>>, path: Seq<char>) -> Option<Seq<char>> {
    if disk.dom().contains(path) {
        Some(disk[path])
    } else {
        None
    }
}

/// A file map after the writes `ws`, in order.
pub open spec fn apply_writes(disk: Map<Seq<char>, Seq<char>>, ws: Seq<(Seq<char>, Seq<char>)>) -> Map<Seq<char>, Seq<char>>
    decreases ws.len(),
{
    if ws.len() == 0 {
        disk
    } else {
        apply_writes(disk, ws.drop_last()).insert(ws.last().0, ws.last().1)
    }
}

/// The writes planned for one document against the file map `disk`.
pub open spec fn writes_on(
    disk: Map<Seq<char>, Seq<char>>,
    rel: Seq<char>,
    html: Seq<char>,
    meta_text: Seq<char>,
    draft: bool,
    include_drafts: bool,
) -> Seq<(Seq<char>, Seq<char>)> {
    planned_writes(
        rel,
        html,
        meta_text,
        draft,
        include_drafts,
        read_file(disk, html_artifact_of(rel)),
        read_file(disk, meta_artifact_of(rel)),
    )
}

/// The two artifacts of a document are distinct files.
pub proof fn lemma_artifacts_distinct(rel: Seq<char>)
    ensures
        html_artifact_of(rel) != meta_artifact_of(rel),
{
    reveal_strlit(".html");
    reveal_strlit(".meta");
    let a = html_artifact_of(rel);
    let b = meta_artifact_of(rel);
    let n = stem_path(rel).len() as int;
    assert(a[n + 1] == 'h');
    assert(b[n + 1] == 'm');
}

/// After the writes planned for a document are made, its artifacts hold what
/// conversion made, unless it is a draft that is not wanted.
pub proof fn lemma_document_written(
    disk: Map<Seq<char>, Seq<char>>,
    rel: Seq<char>,
    html: Seq<char>,
    meta_text: Seq<char>,
    draft: bool,
    include_drafts: bool,
)
    ensures
        !(draft && !include_drafts) ==> read_file(
            apply_writes(disk, writes_on(disk, rel, html, meta_text, draft, include_drafts)),
            html_artifact_of(rel),
        ) == Some(html),
        !(draft && !include_drafts) ==> read_file(
            apply_writes(disk, writes_on(disk, rel, html, meta_text, draft, include_drafts)),
            meta_artifact_of(rel),
        ) == Some(meta_text),
{
    lemma_artifacts_distinct(rel);
    let w = writes_on(disk, rel, html, meta_text, draft, include_drafts);
    let h = html_artifact_of(rel);
    let m = meta_artifact_of(rel);
    let d2 = apply_writes(disk, w);
    if !(draft && !include_drafts) {
        let hs = if read_file(disk, h) == Some(html) { Seq::<(Seq<char>, Seq<char>)>::empty() } else { seq![(h, html)] };
        let ms = if read_file(disk, m) == Some(meta_text) { Seq::<(Seq<char>, Seq<char>)>::empty() } else { seq![(m, meta_text)] };
        assert(w == hs + ms);
        let e = Seq::<(Seq<char>, Seq<char>)>::empty();
        if hs.len() == 1 && ms.len() == 1 {
            assert(w.drop_last() =~= hs);
            assert(hs.drop_last() =~= e);
            assert(apply_writes(disk, hs) == apply_writes(disk, e).insert(h, html));
            assert(d2 == apply_writes(disk, hs).insert(m, meta_text));
        } else if hs.len() == 1 {
            assert(w =~= hs);
            assert(hs.drop_last() =~= e);
            assert(d2 == apply_writes(disk, e).insert(h, html));
        } else if ms.len() == 1 {
            assert(w =~= ms);
            assert(ms.drop_last() =~= e);
            assert(d2 == apply_writes(disk, e).insert(m, meta_text));
        } else {
            assert(w =~= e);
        }
    }
}

/// Converting an unchanged document a second time rewrites nothing: after the
/// planned writes are made, planning again against the result yields no write.
pub proof fn lemma_conversion_idempotent(
    disk: Map<Seq<char>, Seq<char>>,
    rel: Seq<char>,
    html: Seq<char>,
    meta_text: Seq<char>,
    draft: bool,
    include_drafts: bool,
)
    ensures
        writes_on(
            apply_writes(disk, writes_on(disk, rel, html, meta_text, draft, include_drafts)),
            rel,
            html,
            meta_text,
            draft,
            include_drafts,
        ).len() == 0,
{
    lemma_document_written(disk, rel, html, meta_text, draft, include_drafts);
    let d2 = apply_writes(disk, writes_on(disk, rel, html, meta_text, draft, include_drafts));
    assert(writes_on(d2, rel, html, meta_text, draft, include_drafts) =~= Seq::<(Seq<char>, Seq<char>)>::empty());
}

/// A draft that is not wanted is never written.
pub proof fn lemma_drafts_not_written(
    rel: Seq<char>,
    html: Seq<char>,
    meta_text: Seq<char>,
    html_on_disk: Option<Seq<char>>,
    meta_on_disk: Option<Seq<char>>,
)
    ensures
        planned_writes(rel, html, meta_text, true, false, html_on_disk, meta_on_disk).len() == 0,
{
}

/// A document of the source tree as conversion sees it.
pub struct ConvertedDoc {
    pub rel: Seq<char>,
    pub html: Seq<char>,
    pub meta_text: Seq<char>,
    pub draft: bool,
}

pub open spec fn doc_writes(disk: Map<Seq<char>, Seq<char>>, d: ConvertedDoc, include_drafts: bool) -> Seq<(Seq<char>, Seq<char>)> {
    writes_on(disk, d.rel, d.html, d.meta_text, d.draft, include_drafts)
}

/// The file map after converting `docs` in order.
pub open spec fn tree_disk(disk: Map<Seq<char>, Seq<char>>, docs: Seq<ConvertedDoc>, include_drafts: bool) -> Map<Seq<char>, Seq<char>>
    decreases docs.len(),
{
    if docs.len() == 0 {
        disk
    } else {
        let before = tree_disk(disk, docs.drop_last(), include_drafts);
        apply_writes(before, doc_writes(before, docs.last(), include_drafts))
    }
}

/// Every write made while converting `docs` in order.
pub open spec fn tree_writes(disk: Map<Seq<char>, Seq<char>>, docs: Seq<ConvertedDoc>, include_drafts: bool) -> Seq<(Seq<char>, Seq<char>)>
    decreases docs.len(),
{
    if docs.len() == 0 {
        Seq::empty()
    } else {
        let before = tree_disk(disk, docs.drop_last(), include_drafts);
        tree_writes(disk, docs.drop_last(), include_drafts) + doc_writes(before, docs.last(), include_drafts)
    }
}

/// No two documents share a path without extension, so no two share an artifact.
pub open spec fn distinct_stems(docs: Seq<ConvertedDoc>) -> bool {
    forall|a: int, b: int| 0 <= a < docs.len() && 0 <= b < docs.len() && a != b ==> stem_path(docs[a].rel) != stem_path(
        docs[b].rel,
    )
}

pub open spec fn excluded(d: ConvertedDoc, include_drafts: bool) -> bool {
    d.draft && !include_drafts
}

/// The artifacts of a document hold what conversion made of it.
pub open spec fn holds_doc(disk: Map<Seq<char>, Seq<char>>, d: ConvertedDoc) -> bool {
    read_file(disk, html_artifact_of(d.rel)) == Some(d.html) && read_file(disk, meta_artifact_of(d.rel)) == Some(d.meta_text)
}

proof fn lemma_artifact_paths_apart(a: Seq<char>, b: Seq<char>)
    requires
        stem_path(a) != stem_path(b),
    ensures
        html_artifact_of(a) != html_artifact_of(b),
        html_artifact_of(a) != meta_artifact_of(b),
        meta_artifact_of(a) != meta_artifact_of(b),
        meta_artifact_of(a) != html_artifact_of(b),
{
    reveal_strlit(".html");
    reveal_strlit(".meta");
    let sa = stem_path(a);
    let sb = stem_path(b);
    let (ha, ma, hb, mb) = (html_artifact_of(a), meta_artifact_of(a), html_artifact_of(b), meta_artifact_of(b));
    if ha == hb {
        assert(sa =~= ha.take(sa.len() as int));
        assert(sb =~= hb.take(sb.len() as int));
    }
    if ma == mb {
        assert(sa =~= ma.take(sa.len() as int));
        assert(sb =~= mb.take(sb.len() as int));
    }
    assert(".html"@.len() == 5 && ".meta"@.len() == 5);
    assert(ha.len() == sa.len() + 5 && mb.len() == sb.len() + 5);
    assert(ma.len() == sa.len() + 5 && hb.len() == sb.len() + 5);
    if sa.len() == sb.len() {
        assert(ha[sa.len() + 1int] == 'h');
        assert(ma[sa.len() + 1int] == 'm');
        assert(hb[sb.len() + 1int] == 'h');
        assert(mb[sb.len() + 1int] == 'm');
    }
}

proof fn lemma_writes_keys(disk: Map<Seq<char>, Seq<char>>, d: ConvertedDoc, include_drafts: bool)
    ensures
        forall|i: int| 0 <= i < doc_writes(disk, d, include_drafts).len() ==> (#[trigger] doc_writes(disk, d, include_drafts)[i]).0
            == html_artifact_of(d.rel) || doc_writes(disk, d, include_drafts)[i].0 == meta_artifact_of(d.rel),
{
}

proof fn lemma_frame(disk: Map<Seq<char>, Seq<char>>, ws: Seq<(Seq<char>, Seq<char>)>, k: Seq<char>)
    requires
        forall|i: int| 0 <= i < ws.len() ==> (#[trigger] ws[i]).0 != k,
    ensures
        read_file(apply_writes(disk, ws), k) == read_file(disk, k),
    decreases ws.len(),
{
    if ws.len() > 0 {
        assert forall|i: int| 0 <= i < ws.drop_last().len() implies (#[trigger] ws.drop_last()[i]).0 != k by {
            assert(ws.drop_last()[i] == ws[i]);
        }
        lemma_frame(disk, ws.drop_last(), k);
        assert(ws[ws.len() - 1] == ws.last());
    }
}

/// After one pass over `docs`, every document that is written holds its artifacts.
pub proof fn lemma_pass_fills_cache(disk: Map<Seq<char>, Seq<char>>, docs: Seq<ConvertedDoc>, include_drafts: bool)
    requires
        distinct_stems(docs),
    ensures
        forall|k: int| 0 <= k < docs.len() && !excluded(docs[k], include_drafts) ==> holds_doc(
            tree_disk(disk, docs, include_drafts),
            #[trigger] docs[k],
        ),
    decreases docs.len(),
{
    if docs.len() > 0 {
        let init = docs.drop_last();
        let last = docs.last();
        assert forall|a: int, b: int| 0 <= a < init.len() && 0 <= b < init.len() && a != b implies stem_path(init[a].rel)
            != stem_path(init[b].rel) by {
            assert(init[a] == docs[a] && init[b] == docs[b]);
        }
        lemma_pass_fills_cache(disk, init, include_drafts);
        let before = tree_disk(disk, init, include_drafts);
        let w = doc_writes(before, last, include_drafts);
        lemma_document_written(before, last.rel, last.html, last.meta_text, last.draft, include_drafts);
        lemma_writes_keys(before, last, include_drafts);
        assert forall|k: int| 0 <= k < docs.len() && !excluded(docs[k], include_drafts) implies holds_doc(
            tree_disk(disk, docs, include_drafts),
            #[trigger] docs[k],
        ) by {
            if k < docs.len() - 1 {
                let d = docs[k];
                assert(init[k] == d);
                assert(docs[docs.len() - 1] == last);
                lemma_artifact_paths_apart(d.rel, last.rel);
                lemma_frame(before, w, html_artifact_of(d.rel));
                lemma_frame(before, w, meta_artifact_of(d.rel));
            } else {
                assert(docs[k] == last);
            }
        }
    }
}

/// Where every document that is written already holds its artifacts, a pass
/// over `docs` writes nothing and leaves the files as they are.
pub proof fn lemma_pass_over_filled_cache(disk: Map<Seq<char>, Seq<char>>, docs: Seq<ConvertedDoc>, include_drafts: bool)
    requires
        forall|k: int| 0 <= k < docs.len() && !excluded(docs[k], include_drafts) ==> holds_doc(disk, #[trigger] docs[k]),
    ensures
        tree_disk(disk, docs, include_drafts) == disk,
        tree_writes(disk, docs, include_drafts).len() == 0,
    decreases docs.len(),
{
    if docs.len() > 0 {
        let init = docs.drop_last();
        assert forall|k: int| 0 <= k < init.len() && !excluded(init[k], include_drafts) implies holds_doc(disk, #[trigger] init[k]) by {
            assert(init[k] == docs[k]);
        }
        lemma_pass_over_filled_cache(disk, init, include_drafts);
        let last = docs.last();
        assert(docs[docs.len() - 1] == last);
        let w = doc_writes(disk, last, include_drafts);
        assert(w =~= Seq::<(Seq<char>, Seq<char>)>::empty());
    }
}

/// Running the conversion of the whole tree twice in a row, with no source
/// change between the runs, makes no write the second time.
pub proof fn lemma_tree_conversion_idempotent(disk: Map<Seq<char>, Seq<char>>, docs: Seq<ConvertedDoc>, include_drafts: bool)
    requires
        distinct_stems(docs),
    ensures
        tree_writes(tree_disk(disk, docs, include_drafts), docs, include_drafts).len() == 0,
{
    lemma_pass_fills_cache(disk, docs, include_drafts);
    lemma_pass_over_filled_cache(tree_disk(disk, docs, include_drafts), docs, include_drafts);
}

/// An artifact is an orphan when it was made from a document that is gone.
pub open spec fn is_orphan(a: Seq<char>, sources: Seq<Seq<char>>) -> bool {
    match source_of_artifact(a) {
        Some(s) => !sources.contains(s),
        None => false,
    }
}

/// Whether `v` holds the text `s`.
pub fn contains_text(v: &Vec<String>, s: &str) -> (r: bool)
    ensures
        r == texts(v@).contains(s@),
{
    let mut i: usize = 0;
    while i < v.len()
        invariant
            i <= v@.len(),
            forall|j: int| 0 <= j < i ==> v@[j]@ != s@,
        decreases v.len() - i,
    {
        if str_eq(v[i].as_str(), s) {
            assert(texts(v@)[i as int] == s@);
            return true;
        }
        i = i + 1;
    }
    assert forall|j: int| 0 <= j < texts(v@).len() implies texts(v@)[j] != s@ by {
        assert(texts(v@)[j] == v@[j]@);
    }
    false
}

/// The artifacts, among `artifacts` (paths below the intermediate cache), whose
/// source document is not among `sources` (paths below the source tree), in order.
pub fn orphan_artifacts(artifacts: &Vec<String>, sources: &Vec<String>) -> (r: Vec<String>)
    ensures
        texts(r@) == texts(artifacts@).filter(|a: Seq<char>| is_orphan(a, texts(sources@))),
{
    let ghost pred = |a: Seq<char>| is_orphan(a, texts(sources@));
    let mut out: Vec<String> = Vec::new();
    let mut i: usize = 0;
    while i < artifacts.len()
        invariant
            i <= artifacts@.len(),
            pred == (|a: Seq<char>| is_orphan(a, texts(sources@))),
            texts(out@) == texts(artifacts@).take(i as int).filter(pred),
        decreases artifacts.len() - i,
    {
        let a = &artifacts[i];
        let orphan = match artifact_source(a.as_str()) {
            Some(src) => !contains_text(sources, src.as_str()),
            None => false,
        };
        proof {
            assert(texts(artifacts@).take(i + 1) =~= texts(artifacts@).take(i as int).push(a@));
            texts(artifacts@).take(i as int).lemma_filter_push(a@, pred);
        }
        if orphan {
            out.push(a.clone());
            assert(texts(out@) =~= texts(artifacts@).take(i + 1).filter(pred));
        } else {
            assert(texts(out@) =~= texts(artifacts@).take(i + 1).filter(pred));
        }
        i = i + 1;
    }
    assert(texts(artifacts@).take(artifacts@.len() as int) =~= texts(artifacts@));
    out
}

/// The artifacts made from a document are exactly its HTML and metadata artifacts.
pub proof fn lemma_artifact_source_exact(a: Seq<char>, d: Seq<char>)
    requires
        is_document(d),
    ensures
        source_of_artifact(a) == Some(d) <==> (a == html_artifact_of(d) || a == meta_artifact_of(d)),
{
    reveal_strlit(".norg");
    reveal_strlit(".html");
    reveal_strlit(".meta");
    reveal_strlit("norg");
    reveal_strlit("html");
    reveal_strlit("meta");
    lemma_split_extension(d);
    let q = stem_path(d);
    assert(d == q + ".norg"@);
    assert(plain_segment("html"@));
    assert(plain_segment("meta"@));
    lemma_add_extension(q, "html"@);
    lemma_add_extension(q, "meta"@);
    assert(q.push('.') + "html"@ =~= q + ".html"@);
    assert(q.push('.') + "meta"@ =~= q + ".meta"@);
    if source_of_artifact(a) == Some(d) {
        lemma_split_extension(a);
        let qa = stem_path(a);
        assert(qa + ".norg"@ == q + ".norg"@);
        assert(qa =~= (qa + ".norg"@).take(qa.len() as int));
        assert(q =~= (q + ".norg"@).take(q.len() as int));
    }
}

/// Cleanup after a deletion removes exactly the deleted document's HTML and
/// metadata artifacts: where no artifact was an orphan, removing the document
/// `d` from the sources makes orphans of its two artifacts and of no other.
pub proof fn lemma_cleanup_after_delete(artifacts: Seq<Seq<char>>, sources: Seq<Seq<char>>, d: Seq<char>)
    requires
        is_document(d),
        forall|i: int| 0 <= i < artifacts.len() ==> !is_orphan(#[trigger] artifacts[i], sources),
    ensures
        forall|i: int| 0 <= i < artifacts.len() ==> (
            is_orphan(#[trigger] artifacts[i], sources.filter(|s: Seq<char>| s != d))
                <==> (artifacts[i] == html_artifact_of(d) || artifacts[i] == meta_artifact_of(d))),
{
    let rest = sources.filter(|s: Seq<char>| s != d);
    assert forall|i: int| 0 <= i < artifacts.len() implies (
        is_orphan(#[trigger] artifacts[i], rest)
            <==> (artifacts[i] == html_artifact_of(d) || artifacts[i] == meta_artifact_of(d))) by {
        let a = artifacts[i];
        lemma_artifact_source_exact(a, d);
        assert(!is_orphan(a, sources));
        match source_of_artifact(a) {
            Some(s) => {
                if s != d && sources.contains(s) {
                    sources.lemma_filter_contains_rev(|s: Seq<char>| s != d, s);
                }
                broadcast use vstd::seq_lib::group_filter_ensures;
                if rest.contains(d) {
                    let k = choose|k: int| 0 <= k < rest.len() && rest[k] == d;
                }
            },
            None => {},
        }
    }
}

} // verus!
