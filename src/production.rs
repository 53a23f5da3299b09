//! The decisions of a one-shot production build: the order of its stages,
//! where each page and asset is written, which assets are minified, how theme
//! and site assets combine, and how validation failures are reported.

use vstd::prelude::*;
use vstd::string::*;
use crate::meta::{Metadata, layout_of, is_draft_meta};
use crate::routes::{output_path_of, output_path, extension_of, stem_path, extension, stem_of};
use crate::paths::{joined, join_path};
use crate::text::{has_suffix, ends_with, str_eq};
use crate::convert::{texts, apply_writes, read_file};
use crate::schema::{missing_fields, has_field, Violation};

verus! {

/// A stage of a production build.
#[derive(PartialEq, Eq, Structural, Clone, Copy, Debug)]
pub enum BuildStage {
    Idle,
    PrepareOutput,
    ConvertAll,
    CollectListing,
    RenderAll,
    GenerateListingPages,
    CopyAssets,
    GenerateFeed,
    Done,
    Failed,
}

/// The stage after `stage`, given whether it succeeded and whether the site
/// asks for a feed. A failure ends the build; so do `Done` and `Failed`.
pub open spec fn next_stage_of(stage: BuildStage, succeeded: bool, feed_enabled: bool) -> BuildStage {
    if stage == BuildStage::Done || stage == BuildStage::Failed {
        stage
    } else if !succeeded {
        BuildStage::Failed
    } else {
        match stage {
            BuildStage::Idle => BuildStage::PrepareOutput,
            BuildStage::PrepareOutput => BuildStage::ConvertAll,
            BuildStage::ConvertAll => BuildStage::CollectListing,
            BuildStage::CollectListing => BuildStage::RenderAll,
            BuildStage::RenderAll => BuildStage::GenerateListingPages,
            BuildStage::GenerateListingPages => BuildStage::CopyAssets,
            BuildStage::CopyAssets => if feed_enabled { BuildStage::GenerateFeed } else { BuildStage::Done },
            _ => BuildStage::Done,
        }
    }
}

/// The stage after `stage`.
pub fn next_stage(stage: BuildStage, succeeded: bool, feed_enabled: bool) -> (r: BuildStage)
    ensures
        r == next_stage_of(stage, succeeded, feed_enabled),
{
    if stage == BuildStage::Done || stage == BuildStage::Failed {
        return stage;
    }
    if !succeeded {
        return BuildStage::Failed;
    }
    match stage {
        BuildStage::Idle => BuildStage::PrepareOutput,
        BuildStage::PrepareOutput => BuildStage::ConvertAll,
        BuildStage::ConvertAll => BuildStage::CollectListing,
        BuildStage::CollectListing => BuildStage::RenderAll,
        BuildStage::RenderAll => BuildStage::GenerateListingPages,
        BuildStage::GenerateListingPages => BuildStage::CopyAssets,
        BuildStage::CopyAssets => if feed_enabled { BuildStage::GenerateFeed } else { BuildStage::Done },
        _ => BuildStage::Done,
    }
}

/// The output file of the document at `rel`, below the output directory `public_dir`.
pub fn public_path(public_dir: &str, rel: &str) -> (r: String)
    ensures
        r@ == joined(public_dir@, output_path_of(rel@)),
{
    join_path(public_dir, output_path(rel).as_str())
}

/// The template that renders a document: its layout, `default` when it names
/// none, as an HTML template.
pub fn template_name(meta: &Metadata) -> (r: String)
    ensures
        r@ == layout_of(*meta) + ".html"@,
{
    let mut t = meta.layout();
    t.append(".html");
    t
}

/// Whether a document is rendered in a production build: drafts are not.
pub fn renders_in_production(meta: &Metadata) -> (r: bool)
    ensures
        r == !is_draft_meta(*meta),
{
    !meta.is_draft()
}

/// The index page of the categories, below the output directory.
pub fn category_index_path(public_dir: &str) -> (r: String)
    ensures
        r@ == joined(public_dir@, "categories/index.html"@),
{
    join_path(public_dir, "categories/index.html")
}

/// The page of one category, below the output directory.
pub fn category_page_path(public_dir: &str, category: &str) -> (r: String)
    ensures
        r@ == joined(public_dir@, "categories/"@ + category@ + "/index.html"@),
{
    let mut rel = String::from_str("categories/");
    rel.append(category);
    rel.append("/index.html");
    join_path(public_dir, rel.as_str())
}

/// How an asset is copied.
#[derive(PartialEq, Eq, Structural, Clone, Copy, Debug)]
pub enum AssetTreatment {
    Verbatim,
    MinifyJs,
    MinifyCss,
}

/// Scripts and stylesheets are minified when minification is on, unless their
/// name says they already are (`*.min.js`, `*.min.css`); anything else is
/// copied as it is.
pub open spec fn treatment_of(name: Seq<char>, minify: bool) -> AssetTreatment {
    if !minify || has_suffix(stem_path(name), ".min"@) {
        AssetTreatment::Verbatim
    } else if extension_of(name) == Some("js"@) {
        AssetTreatment::MinifyJs
    } else if extension_of(name) == Some("css"@) {
        AssetTreatment::MinifyCss
    } else {
        AssetTreatment::Verbatim
    }
}

/// How the asset `name` is copied.
pub fn asset_treatment(name: &str, minify: bool) -> (r: AssetTreatment)
    ensures
        r == treatment_of(name@, minify),
{
    if !minify {
        return AssetTreatment::Verbatim;
    }
    let stem = stem_of(name);
    if ends_with(stem.as_str(), ".min") {
        return AssetTreatment::Verbatim;
    }
    match extension(name) {
        Some(e) => if str_eq(e.as_str(), "js") {
            AssetTreatment::MinifyJs
        } else if str_eq(e.as_str(), "css") {
            AssetTreatment::MinifyCss
        } else {
            AssetTreatment::Verbatim
        },
        None => AssetTreatment::Verbatim,
    }
}

/// Whether the asset `name` is minified when minification is on.
pub fn should_minify_asset(name: &str) -> (r: bool)
    ensures
        r == (treatment_of(name@, true) != AssetTreatment::Verbatim),
{
    asset_treatment(name, true) != AssetTreatment::Verbatim
}

/// Where an asset comes from.
#[derive(PartialEq, Eq, Structural, Clone, Copy, Debug)]
pub enum AssetOrigin {
    Theme,
    Site,
}

/// One asset to copy: its origin and its path below the assets directory.
pub struct AssetCopy {
    pub origin: AssetOrigin,
    pub rel: String,
}

pub open spec fn copy_view(c: AssetCopy) -> (AssetOrigin, Seq<char>) {
    (c.origin, c.rel@)
}

pub open spec fn copies_from(origin: AssetOrigin, rels: Seq<Seq<char>>) -> Seq<(AssetOrigin, Seq<char>)> {
    rels.map_values(|r: Seq<char>| (origin, r))
}

/// The order in which assets are copied: every theme asset, then every site
/// asset, so that a site asset overwrites a theme asset of the same path.
pub open spec fn copy_order(theme: Seq<Seq<char>>, site: Seq<Seq<char>>) -> Seq<(AssetOrigin, Seq<char>)> {
    copies_from(AssetOrigin::Theme, theme) + copies_from(AssetOrigin::Site, site)
}

fn push_copies(out: &mut Vec<AssetCopy>, origin: AssetOrigin, rels: &Vec<String>)
    ensures
        final(out)@.map_values(|c: AssetCopy| copy_view(c)) == old(out)@.map_values(|c: AssetCopy| copy_view(c))
            + copies_from(origin, texts(rels@)),
{
    let ghost base = out@.map_values(|c: AssetCopy| copy_view(c));
    let mut i: usize = 0;
    assert(copies_from(origin, texts(rels@).take(0)) =~= Seq::<(AssetOrigin, Seq<char>)>::empty());
    assert(out@.map_values(|c: AssetCopy| copy_view(c)) =~= base + copies_from(origin, texts(rels@).take(0)));
    while i < rels.len()
        invariant
            i <= rels@.len(),
            out@.map_values(|c: AssetCopy| copy_view(c)) == base + copies_from(origin, texts(rels@).take(i as int)),
        decreases rels.len() - i,
    {
        let ghost before = out@.map_values(|c: AssetCopy| copy_view(c));
        out.push(AssetCopy { origin, rel: rels[i].clone() });
        assert(out@.map_values(|c: AssetCopy| copy_view(c)) =~= before.push((origin, rels@[i as int]@)));
        assert(copies_from(origin, texts(rels@).take(i + 1)) =~= copies_from(origin, texts(rels@).take(i as int)).push(
            (origin, rels@[i as int]@),
        ));
        i = i + 1;
    }
    assert(texts(rels@).take(rels@.len() as int) =~= texts(rels@));
}

/// The copies that put the theme's assets `theme` and the site's assets `site`
/// (paths below their assets directories) in the output, in order.
pub fn plan_asset_copies(theme: &Vec<String>, site: &Vec<String>) -> (r: Vec<AssetCopy>)
    ensures
        r@.map_values(|c: AssetCopy| copy_view(c)) == copy_order(texts(theme@), texts(site@)),
{
    let mut out: Vec<AssetCopy> = Vec::new();
    assert(out@.map_values(|c: AssetCopy| copy_view(c)) =~= Seq::<(AssetOrigin, Seq<char>)>::empty());
    push_copies(&mut out, AssetOrigin::Theme, theme);
    push_copies(&mut out, AssetOrigin::Site, site);
    assert(copy_order(texts(theme@), texts(site@)) =~= Seq::<(AssetOrigin, Seq<char>)>::empty()
        + copies_from(AssetOrigin::Theme, texts(theme@)) + copies_from(AssetOrigin::Site, texts(site@)));
    out
}

/// The file writes of a copy order, given the content of each theme and site
/// asset.
pub open spec fn copy_writes(
    order: Seq<(AssetOrigin, Seq<char>)>,
    theme_files: Map<Seq<char>, Seq<char>>,
    site_files: Map<Seq<char>, Seq<char>>,
) -> Seq<(Seq<char>, Seq<char>)> {
    order.map_values(|c: (AssetOrigin, Seq<char>)| (c.1, if c.0 == AssetOrigin::Site { site_files[c.1] } else { theme_files[c.1] }))
}

proof fn lemma_last_write_wins(disk: Map<Seq<char>, Seq<char>>, front: Seq<(Seq<char>, Seq<char>)>, back: Seq<(Seq<char>, Seq<char>)>, k: Seq<char>, v: Seq<char>)
    requires
        exists|i: int| 0 <= i < back.len() && back[i].0 == k,
        forall|i: int| 0 <= i < back.len() && back[i].0 == k ==> back[i].1 == v,
    ensures
        read_file(apply_writes(disk, front + back), k) == Some(v),
    decreases back.len(),
{
    let all = front + back;
    assert(all.drop_last() =~= front + back.drop_last());
    assert(all.last() == back.last());
    if back.last().0 != k {
        let i = choose|i: int| 0 <= i < back.len() && back[i].0 == k;
        assert(back.drop_last()[i] == back[i]);
        assert forall|j: int| 0 <= j < back.drop_last().len() && back.drop_last()[j].0 == k implies back.drop_last()[j].1 == v by {
            assert(back.drop_last()[j] == back[j]);
        }
        lemma_last_write_wins(disk, front, back.drop_last(), k, v);
    }
}

/// A site asset overrides a theme asset of the same path: after the copies of
/// any theme and site assets, the output holds the site's content at every
/// path the site provides.
pub proof fn lemma_site_asset_overrides(
    disk: Map<Seq<char>, Seq<char>>,
    theme: Seq<Seq<char>>,
    site: Seq<Seq<char>>,
    theme_files: Map<Seq<char>, Seq<char>>,
    site_files: Map<Seq<char>, Seq<char>>,
    rel: Seq<char>,
)
    requires
        site.contains(rel),
    ensures
        read_file(apply_writes(disk, copy_writes(copy_order(theme, site), theme_files, site_files)), rel)
            == Some(site_files[rel]),
{
    let front = copy_writes(copies_from(AssetOrigin::Theme, theme), theme_files, site_files);
    let back = copy_writes(copies_from(AssetOrigin::Site, site), theme_files, site_files);
    assert(copy_writes(copy_order(theme, site), theme_files, site_files) =~= front + back);
    let i = choose|i: int| 0 <= i < site.len() && site[i] == rel;
    assert(back[i].0 == rel);
    lemma_last_write_wins(disk, front, back, rel, site_files[rel]);
}

/// The texts of `reports` one after the other.
pub open spec fn concat_all(reports: Seq<Seq<char>>) -> Seq<char>
    decreases reports.len(),
{
    if reports.len() == 0 {
        Seq::empty()
    } else {
        concat_all(reports.drop_last()) + reports.last()
    }
}

/// The failure of a build whose documents gave the validation reports
/// `reports` (an empty report for a document without violation): none when
/// every report is empty, else every report one after the other.
pub open spec fn failure_of(reports: Seq<Seq<char>>) -> Option<Seq<char>> {
    if forall|i: int| 0 <= i < reports.len() ==> #[trigger] reports[i].len() == 0 {
        None
    } else {
        Some(concat_all(reports))
    }
}

/// The failure of a build whose documents gave the validation reports `reports`.
pub fn validation_failure(reports: &Vec<String>) -> (r: Option<String>)
    ensures
        match r {
            Some(t) => failure_of(texts(reports@)) == Some(t@),
            None => failure_of(texts(reports@)).is_none(),
        },
{
    let mut out = String::new();
    let mut any = false;
    let mut i: usize = 0;
    assert(texts(reports@).take(0) =~= Seq::<Seq<char>>::empty());
    while i < reports.len()
        invariant
            i <= reports@.len(),
            out@ == concat_all(texts(reports@).take(i as int)),
            any == exists|j: int| 0 <= j < i && texts(reports@)[j].len() != 0,
        decreases reports.len() - i,
    {
        assert(texts(reports@).take(i + 1).drop_last() =~= texts(reports@).take(i as int));
        assert(texts(reports@)[i as int] == reports@[i as int]@);
        if reports[i].as_str().unicode_len() > 0 {
            any = true;
        }
        out.append(reports[i].as_str());
        proof {
            if exists|j: int| 0 <= j < i + 1 && texts(reports@)[j].len() != 0 {
                let j = choose|j: int| 0 <= j < i + 1 && texts(reports@)[j].len() != 0;
                if j < i as int {
                    assert(exists|j: int| 0 <= j < i && texts(reports@)[j].len() != 0);
                }
            }
        }
        i = i + 1;
    }
    assert(texts(reports@).take(reports@.len() as int) =~= texts(reports@));
    if any {
        Some(out)
    } else {
        None
    }
}

/// Violations are collected, not cut short: every required field that a
/// document lacks has a violation of its own in the document's report.
pub proof fn lemma_each_missing_field_reported(names: Seq<Seq<char>>, m: Metadata)
    ensures
        forall|i: int| 0 <= i < names.len() && !has_field(m, #[trigger] names[i]) ==> missing_fields(names, m).contains(
            Violation::Missing(names[i]),
        ),
    decreases names.len(),
{
    if names.len() > 0 {
        let init = names.drop_last();
        lemma_each_missing_field_reported(init, m);
        let rest = missing_fields(init, m);
        assert forall|i: int| 0 <= i < names.len() && !has_field(m, #[trigger] names[i]) implies missing_fields(names, m).contains(
            Violation::Missing(names[i]),
        ) by {
            if i < names.len() - 1 {
                assert(init[i] == names[i]);
                let k = choose|k: int| 0 <= k < rest.len() && rest[k] == Violation::Missing(init[i]);
                if has_field(m, names.last()) {
                } else {
                    assert(rest.push(Violation::Missing(names.last()))[k] == rest[k]);
                }
            } else {
                let all = rest.push(Violation::Missing(names.last()));
                assert(all[rest.len() as int] == Violation::Missing(names[i]));
            }
        }
    }
}

/// The failure of a build holds the report of every document that has
/// violations: with two documents that each have one, both reports stand in
/// it, one after the other.
pub proof fn lemma_failure_keeps_every_report(first: Seq<char>, second: Seq<char>)
    requires
        first.len() > 0,
        second.len() > 0,
    ensures
        failure_of(seq![first, second]) == Some(first + second),
{
    let rs = seq![first, second];
    assert(rs[0].len() != 0);
    assert(rs.drop_last() =~= seq![first]);
    assert(seq![first].drop_last() =~= Seq::<Seq<char>>::empty());
    assert(seq![first].last() == first);
    assert(concat_all(Seq::<Seq<char>>::empty()) =~= Seq::<char>::empty());
    assert(concat_all(seq![first]) == concat_all(Seq::<Seq<char>>::empty()) + first);
    assert(Seq::<char>::empty() + first =~= first);
}

/// The pattern of root-relative links in rendered pages.
pub const ROOT_LINK_PATTERN: &'static str = "href=\"(/|&#x2F;)";

/// `text` with every match of the regular expression `pattern` replaced by
/// `replacement`; `None` when the expression does not compile.
pub uninterp spec fn regex_replaced(pattern: Seq<char>, text: Seq<char>, replacement: Seq<char>) -> Option<Seq<char>>;

/// Relies on regex's `Regex::new`, which compiles `pattern` or fails on an
/// invalid one, and `Regex::replace_all`, which replaces every match in
/// `text`; the outcome depends on the three texts alone.
#[verifier::external_body]
pub(crate) fn regex_replace_all(pattern: &str, text: &str, replacement: &str) -> (r: Option<String>)
    ensures
        match r {
            Some(t) => regex_replaced(pattern@, text@, replacement@) == Some(t@),
            None => regex_replaced(pattern@, text@, replacement@).is_none(),
        },
{
    regex::Regex::new(pattern).ok().map(|re| re.replace_all(text, replacement).into_owned())
}

/// A rendered page whose root-relative links and asset references point at
/// the site's full URL `root_url`.
pub fn rewrite_root_links(html: &str, root_url: &str) -> (r: Option<String>)
    ensures
        match r {
            Some(t) => regex_replaced(ROOT_LINK_PATTERN@, html@, "href=\""@ + root_url@ + "/"@) == Some(t@),
            None => regex_replaced(ROOT_LINK_PATTERN@, html@, "href=\""@ + root_url@ + "/"@).is_none(),
        },
{
    let mut replacement = String::from_str("href=\"");
    replacement.append(root_url);
    replacement.append("/");
    regex_replace_all(ROOT_LINK_PATTERN, html, replacement.as_str())
}

} // verus!
