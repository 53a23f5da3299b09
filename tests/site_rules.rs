use norgolith::convert::{orphan_artifacts, plan_document_writes, ArtifactWrite};
use norgolith::listing::{collect_categories, collect_listing, DocumentRecord};
use norgolith::meta::{MetaEntry, MetaValue, Metadata};
use norgolith::paths::SitePaths;
use norgolith::production::{
    asset_treatment, next_stage, plan_asset_copies, public_path, rewrite_root_links, template_name,
    validation_failure, AssetOrigin, AssetTreatment, BuildStage,
};
use norgolith::routes::{artifact_source, html_artifact, meta_artifact, output_path, permalink};

fn entry(key: &str, value: MetaValue) -> MetaEntry {
    MetaEntry { key: key.to_string(), value }
}

fn text(s: &str) -> MetaValue {
    MetaValue::Str(s.to_string())
}

fn record(rel: &str, entries: Vec<MetaEntry>) -> DocumentRecord {
    DocumentRecord {
        rel_path: rel.to_string(),
        html: format!("<p>{}</p>", rel),
        meta: Metadata { entries },
        permalink: permalink(rel, "https://example.com"),
    }
}

fn rel_paths(list: &[DocumentRecord]) -> Vec<String> {
    list.iter().map(|r| r.rel_path.clone()).collect()
}

fn apply(disk: &mut Vec<(String, String)>, writes: &[ArtifactWrite]) {
    for w in writes {
        disk.retain(|(p, _)| *p != w.path);
        disk.push((w.path.clone(), w.content.clone()));
    }
}

fn on_disk<'a>(disk: &'a [(String, String)], path: &str) -> Option<&'a str> {
    disk.iter().find(|(p, _)| p == path).map(|(_, c)| c.as_str())
}

#[test]
fn site_paths_join_fixed_directories() {
    let p = SitePaths::new("/srv/site");
    assert_eq!(p.content, "/srv/site/content");
    assert_eq!(p.assets, "/srv/site/assets");
    assert_eq!(p.templates, "/srv/site/templates");
    assert_eq!(p.theme_assets, "/srv/site/theme/assets");
    assert_eq!(p.theme_templates, "/srv/site/theme/templates");
    assert_eq!(p.public, "/srv/site/public");
    assert_eq!(p.build, "/srv/site/.build");
}

#[test]
fn permalink_of_index_and_page() {
    assert_eq!(permalink("posts/index.norg", "https://example.com"), "https://example.com/posts/");
    assert_eq!(permalink("posts/hello.norg", "https://example.com"), "https://example.com/posts/hello/");
    assert_eq!(permalink("index.norg", "https://example.com"), "https://example.com/");
    assert_eq!(permalink("about.norg", "http://localhost:3030"), "http://localhost:3030/about/");
    assert_eq!(permalink("docs/v1.2.norg", "https://example.com"), "https://example.com/docs/v1.2/");
    assert_eq!(output_path("docs/v1.2.norg"), "docs/v1.2/index.html");
}

#[test]
fn output_path_of_pages() {
    assert_eq!(output_path("about.norg"), "about/index.html");
    assert_eq!(output_path("index.norg"), "index.html");
    assert_eq!(output_path("posts/a.norg"), "posts/a/index.html");
    assert_eq!(output_path("docs/index.norg"), "docs/index.html");
    assert_eq!(public_path("/srv/site/public", "about.norg"), "/srv/site/public/about/index.html");
}

#[test]
fn artifacts_mirror_the_source_tree() {
    assert_eq!(html_artifact("posts/a.norg"), "posts/a.html");
    assert_eq!(meta_artifact("posts/a.norg"), "posts/a.meta");
    assert_eq!(artifact_source("posts/a.meta").as_deref(), Some("posts/a.norg"));
    assert_eq!(artifact_source("posts/a.html").as_deref(), Some("posts/a.norg"));
    assert_eq!(artifact_source("posts/a.txt"), None);
}

#[test]
fn fresh_document_writes_both_artifacts() {
    let meta = Metadata { entries: vec![entry("title", text("A"))] };
    let w = plan_document_writes("a.norg", "<p>a</p>", "title = \"A\"", &meta, false, None, None);
    assert_eq!(w.len(), 2);
    assert_eq!(w[0].path, "a.html");
    assert_eq!(w[0].content, "<p>a</p>");
    assert_eq!(w[1].path, "a.meta");
    assert_eq!(w[1].content, "title = \"A\"");
}

#[test]
fn unchanged_document_writes_nothing_twice() {
    let meta = Metadata { entries: vec![entry("title", text("A"))] };
    let mut disk: Vec<(String, String)> = Vec::new();
    let first = plan_document_writes("posts/a.norg", "<p>a</p>", "m", &meta, false, None, None);
    apply(&mut disk, &first);
    let second = plan_document_writes(
        "posts/a.norg",
        "<p>a</p>",
        "m",
        &meta,
        false,
        on_disk(&disk, "posts/a.html"),
        on_disk(&disk, "posts/a.meta"),
    );
    assert!(second.is_empty());
}

#[test]
fn only_changed_artifact_is_rewritten() {
    let meta = Metadata::empty();
    let w = plan_document_writes("a.norg", "<p>new</p>", "m", &meta, false, Some("<p>old</p>"), Some("m"));
    assert_eq!(w.len(), 1);
    assert_eq!(w[0].path, "a.html");
}

#[test]
fn draft_is_not_written_without_drafts() {
    let meta = Metadata { entries: vec![entry("draft", MetaValue::Bool(true))] };
    assert!(plan_document_writes("b.norg", "<p>b</p>", "m", &meta, false, None, None).is_empty());
    assert_eq!(plan_document_writes("b.norg", "<p>b</p>", "m", &meta, true, None, None).len(), 2);
}

#[test]
fn cleanup_removes_exactly_the_deleted_documents_artifacts() {
    let artifacts: Vec<String> = ["a.html", "a.meta", "posts/b.html", "posts/b.meta", "notes.txt"]
        .iter()
        .map(|s| s.to_string())
        .collect();
    let before: Vec<String> = vec!["a.norg".to_string(), "posts/b.norg".to_string()];
    assert!(orphan_artifacts(&artifacts, &before).is_empty());
    let after: Vec<String> = vec!["a.norg".to_string()];
    assert_eq!(orphan_artifacts(&artifacts, &after), vec!["posts/b.html".to_string(), "posts/b.meta".to_string()]);
}

#[test]
fn listing_keeps_posts_newest_first_without_drafts() {
    let docs = vec![
        record("posts/old.norg", vec![entry("date", text("2023-05-01"))]),
        record("posts/undated.norg", vec![]),
        record("posts/new.norg", vec![entry("date", text("2024-03-10"))]),
        record("posts/index.norg", vec![entry("date", text("2025-01-01"))]),
        record("about.norg", vec![entry("date", text("2025-01-01"))]),
        record("posts/draft.norg", vec![entry("date", text("2025-01-01")), entry("draft", MetaValue::Bool(true))]),
    ];
    let list = collect_listing(docs, false);
    assert_eq!(rel_paths(&list), vec!["posts/new.norg", "posts/old.norg", "posts/undated.norg"]);
}

#[test]
fn listing_with_drafts_and_equal_dates_keeps_order() {
    let docs = vec![
        record("posts/x.norg", vec![entry("date", text("2024-01-01"))]),
        record("posts/y.norg", vec![entry("date", text("2024-01-01")), entry("draft", MetaValue::Bool(true))]),
        record("posts/z.norg", vec![entry("date", text("not a date"))]),
    ];
    let list = collect_listing(docs, true);
    assert_eq!(rel_paths(&list), vec!["posts/x.norg", "posts/y.norg", "posts/z.norg"]);
}

#[test]
fn categories_are_lower_case_and_unique() {
    let posts = vec![
        record("posts/a.norg", vec![entry("categories", MetaValue::Array(vec![text("Rust"), text("Web")]))]),
        record("posts/b.norg", vec![entry("categories", MetaValue::Array(vec![text("rust"), MetaValue::Int(3)]))]),
    ];
    let cats = collect_categories(&posts);
    assert_eq!(cats, vec!["rust".to_string(), "web".to_string()]);
}

#[test]
fn end_to_end_production_listing() {
    let a = record(
        "posts/a.norg",
        vec![entry("date", text("2024-01-01")), entry("categories", MetaValue::Array(vec![text("Neovim")]))],
    );
    let b = record(
        "posts/b.norg",
        vec![
            entry("date", text("2024-02-01")),
            entry("draft", MetaValue::Bool(true)),
            entry("categories", MetaValue::Array(vec![text("Secret")])),
        ],
    );
    let b_draft = Metadata { entries: vec![entry("draft", MetaValue::Bool(true))] };
    let list = collect_listing(vec![a, b], false);
    assert_eq!(rel_paths(&list), vec!["posts/a.norg"]);
    assert_eq!(collect_categories(&list), vec!["neovim".to_string()]);
    assert_eq!(public_path("public", "posts/a.norg"), "public/posts/a/index.html");
    assert!(plan_document_writes("posts/b.norg", "<p>b</p>", "m", &b_draft, false, None, None).is_empty());
}

#[test]
fn build_stages_run_in_order() {
    let mut stage = BuildStage::Idle;
    let mut seen = vec![stage];
    while stage != BuildStage::Done {
        stage = next_stage(stage, true, true);
        seen.push(stage);
    }
    assert_eq!(
        seen,
        vec![
            BuildStage::Idle,
            BuildStage::PrepareOutput,
            BuildStage::ConvertAll,
            BuildStage::CollectListing,
            BuildStage::RenderAll,
            BuildStage::GenerateListingPages,
            BuildStage::CopyAssets,
            BuildStage::GenerateFeed,
            BuildStage::Done,
        ]
    );
    assert_eq!(next_stage(BuildStage::CopyAssets, true, false), BuildStage::Done);
    assert_eq!(next_stage(BuildStage::RenderAll, false, true), BuildStage::Failed);
    assert_eq!(next_stage(BuildStage::Failed, true, true), BuildStage::Failed);
}

#[test]
fn asset_treatment_by_name() {
    assert_eq!(asset_treatment("js/app.js", true), AssetTreatment::MinifyJs);
    assert_eq!(asset_treatment("css/site.css", true), AssetTreatment::MinifyCss);
    assert_eq!(asset_treatment("js/app.min.js", true), AssetTreatment::Verbatim);
    assert_eq!(asset_treatment("img/logo.png", true), AssetTreatment::Verbatim);
    assert_eq!(asset_treatment("js/app.js", false), AssetTreatment::Verbatim);
}

#[test]
fn site_asset_overrides_theme_asset() {
    let theme = vec!["css/style.css".to_string(), "js/theme.js".to_string()];
    let site = vec!["css/style.css".to_string()];
    let plan = plan_asset_copies(&theme, &site);
    let order: Vec<(AssetOrigin, &str)> = plan.iter().map(|c| (c.origin, c.rel.as_str())).collect();
    assert_eq!(
        order,
        vec![(AssetOrigin::Theme, "css/style.css"), (AssetOrigin::Theme, "js/theme.js"), (AssetOrigin::Site, "css/style.css")]
    );
    let mut out: Vec<(String, &str)> = Vec::new();
    for c in &plan {
        let content = match c.origin {
            AssetOrigin::Theme => "theme bytes",
            AssetOrigin::Site => "site bytes",
        };
        out.retain(|(p, _)| *p != c.rel);
        out.push((c.rel.clone(), content));
    }
    let style = out.iter().find(|(p, _)| p == "css/style.css").unwrap();
    assert_eq!(style.1, "site bytes");
}

#[test]
fn validation_failure_concatenates_reports() {
    let none = vec![String::new(), String::new()];
    assert_eq!(validation_failure(&none), None);
    let some = vec!["first\n".to_string(), String::new(), "second\n".to_string()];
    assert_eq!(validation_failure(&some).as_deref(), Some("first\nsecond\n"));
}

#[test]
fn root_links_point_at_site_url() {
    let html = "<a href=\"/docs\">d</a><link href=\"&#x2F;assets/x.css\"><a href=\"https://other.org/\">o</a>";
    let out = rewrite_root_links(html, "https://example.com").unwrap();
    assert_eq!(
        out,
        "<a href=\"https://example.com/docs\">d</a><link href=\"https://example.com/assets/x.css\"><a href=\"https://other.org/\">o</a>"
    );
}

#[test]
fn template_from_layout() {
    assert_eq!(template_name(&Metadata::empty()), "default.html");
    let m = Metadata { entries: vec![entry("layout", text("post"))] };
    assert_eq!(template_name(&m), "post.html");
}
