use norgolith::commands::{get_elapsed_time, resolve_repo_shorthand, AssetType};
use norgolith::config::{default_drafts, default_minify, default_port, BuildConfig, DevConfig};
use norgolith::listing::DocumentRecord;
use norgolith::meta::{decimal, signed_decimal, MetaEntry, MetaValue, Metadata};
use norgolith::paths::SitePaths;
use norgolith::production::validation_failure;
use norgolith::render::render;
use norgolith::schema::{
    format_errors, validate_content_metadata, validate_metadata, ContentSchema, FieldDefinition, FieldSpec,
    MergedSchema, RuleAction, SchemaPath, ValidationError, ValidationRule,
};
use norgolith::server::{
    category_members, channel_step, content_candidates, asset_candidates, inject_livereload_script,
    localize_links, may_serve, replace_text, route_request, status_for_failure, ChannelAction, ChannelEvent, IoFailure, Route,
};
use norgolith::watch::{after_template_reload, plan_steps, reduce_events, EventKind, Step, WatchEvent};

fn entry(key: &str, value: MetaValue) -> MetaEntry {
    MetaEntry { key: key.to_string(), value }
}

fn text(s: &str) -> MetaValue {
    MetaValue::Str(s.to_string())
}

fn messages(errors: &[ValidationError]) -> Vec<String> {
    errors.iter().map(|e| e.message()).collect()
}

fn schema(required: &[&str], fields: Vec<FieldSpec>, rules: Vec<ValidationRule>, paths: Vec<SchemaPath>) -> ContentSchema {
    ContentSchema { required: required.iter().map(|s| s.to_string()).collect(), fields, rules, paths }
}

fn event(kind: EventKind, path: &str) -> WatchEvent {
    WatchEvent { kind, paths: vec![path.to_string()] }
}

#[test]
fn missing_required_field_is_reported() {
    let s = schema(&["title", "date"], vec![], vec![], vec![]);
    let nodes = s.resolve_path("posts/a");
    let merged = ContentSchema::merge_hierarchy(&nodes);
    let m = Metadata { entries: vec![entry("title", text("A"))] };
    assert_eq!(messages(&validate_metadata(&m, &merged)), vec!["Missing field 'date'"]);
}

#[test]
fn two_documents_give_two_violation_entries() {
    let s = schema(&["title"], vec![], vec![], vec![]);
    let a = Metadata { entries: vec![entry("date", text("2024-01-01"))] };
    let b = Metadata { entries: vec![] };
    let ra = validate_content_metadata("content/a.norg", "a.norg", &a, &s, false);
    let rb = validate_content_metadata("content/b.norg", "b.norg", &b, &s, false);
    let failure = validation_failure(&vec![ra, rb]).unwrap();
    assert_eq!(failure.matches("Missing field 'title'").count(), 2);
    assert!(failure.contains("content/a.norg"));
    assert!(failure.contains("content/b.norg"));
}

#[test]
fn report_text_is_exact() {
    let errors = vec![ValidationError::MissingField("title".to_string())];
    assert_eq!(
        format_errors("content/a.norg", "a", &errors, false),
        "Error: Validation failed for 'content/a.norg'\n  \u{2192} Schema applied: 'a'\n  \u{2192} Missing field 'title'\n"
    );
    assert!(format_errors("x", "y", &errors, true).starts_with("Warning: Validation issues for 'x'"));
}

#[test]
fn field_constraints_name_their_field() {
    let fields = vec![
        FieldSpec { name: "title".to_string(), definition: FieldDefinition::String { max_length: Some(3), pattern: None } },
        FieldSpec { name: "slug".to_string(), definition: FieldDefinition::String { max_length: None, pattern: Some("^[a-z-]+$".to_string()) } },
        FieldSpec { name: "draft".to_string(), definition: FieldDefinition::Boolean },
        FieldSpec {
            name: "tags".to_string(),
            definition: FieldDefinition::Array {
                items: Box::new(FieldDefinition::Boolean),
                min_items: Some(1),
                max_items: None,
                must_contain: Some(vec![text("blog")]),
            },
        },
    ];
    let merged = MergedSchema { required: vec![], fields: fields.iter().collect(), rules: vec![] };
    let m = Metadata {
        entries: vec![
            entry("title", text("Hello")),
            entry("slug", text("Bad Slug")),
            entry("draft", MetaValue::Int(1)),
            entry("tags", MetaValue::Array(vec![text("rust")])),
        ],
    };
    assert_eq!(
        messages(&validate_metadata(&m, &merged)),
        vec![
            "Constraint violation for field 'title': Exceeds max length 3",
            "Constraint violation for field 'slug': No pattern matching ^[a-z-]+$",
            "Type mismatch for field 'draft': expected boolean, got 1",
            "Constraint violation for field 'tags': Missing value \"blog\"",
        ]
    );
    let good = Metadata {
        entries: vec![
            entry("title", text("Hi")),
            entry("slug", text("good-slug")),
            entry("draft", MetaValue::Bool(false)),
            entry("tags", MetaValue::Array(vec![text("blog")])),
        ],
    };
    assert!(validate_metadata(&good, &merged).is_empty());
}

#[test]
fn conditional_rules() {
    let rule = ValidationRule {
        condition: vec![entry("kind", text("post"))],
        action: RuleAction { required: Some(vec!["date".to_string()]), fields: None },
    };
    let rules = vec![rule];
    let merged = MergedSchema { required: vec![], fields: vec![], rules: rules.iter().collect() };
    let post = Metadata { entries: vec![entry("kind", text("post"))] };
    assert_eq!(messages(&validate_metadata(&post, &merged)), vec!["Missing field 'date'"]);
    let page = Metadata { entries: vec![entry("kind", text("page"))] };
    assert!(validate_metadata(&page, &merged).is_empty());
    let none = Metadata { entries: vec![] };
    assert_eq!(messages(&validate_metadata(&none, &merged)), vec!["Rule condition failed: Missing condition field 'kind'"]);
    let wrong = Metadata { entries: vec![entry("kind", MetaValue::Bool(true))] };
    assert_eq!(
        messages(&validate_metadata(&wrong, &merged)),
        vec!["Rule condition failed: Type mismatch in condition field 'kind': expected string, got boolean"]
    );
}

#[test]
fn nested_schemas_merge_from_general_to_specific() {
    let posts = schema(
        &["date", "title"],
        vec![FieldSpec { name: "title".to_string(), definition: FieldDefinition::Boolean }],
        vec![],
        vec![],
    );
    let root = schema(
        &["title"],
        vec![FieldSpec { name: "title".to_string(), definition: FieldDefinition::String { max_length: None, pattern: None } }],
        vec![],
        vec![SchemaPath { name: "posts".to_string(), schema: Box::new(posts) }],
    );
    let nodes = root.resolve_path("posts/2024/a");
    assert_eq!(nodes.len(), 2);
    let merged = ContentSchema::merge_hierarchy(&nodes);
    assert_eq!(merged.required, vec!["title".to_string(), "date".to_string()]);
    assert_eq!(merged.fields.len(), 1);
    assert!(matches!(merged.fields[0].definition, FieldDefinition::Boolean));
    let report = validate_content_metadata("content/posts/2024/a.norg", "posts/2024/a.norg", &Metadata::empty(), &root, true);
    assert!(report.contains("Schema applied: 'posts/2024/a'"));
    assert_eq!(root.resolve_path("about").len(), 1);
}

#[test]
fn with_field_names_the_field() {
    let mut e = ValidationError::ConstraintViolation { field: String::new(), message: "m".to_string() };
    e.with_field("title".to_string());
    assert_eq!(e.message(), "Constraint violation for field 'title': m");
    let mut missing = ValidationError::MissingField("a".to_string());
    missing.with_field("b".to_string());
    assert_eq!(missing.message(), "Missing field 'a'");
}

#[test]
fn values_render_as_text() {
    assert_eq!(render(&text("x")), "\"x\"");
    assert_eq!(render(&MetaValue::Int(-42)), "-42");
    assert_eq!(render(&MetaValue::Array(vec![MetaValue::Int(1), MetaValue::Bool(true)])), "[1, true]");
    assert_eq!(render(&MetaValue::Array(vec![])), "[]");
    let nested = MetaValue::Array(vec![
        MetaValue::Array(vec![text("a")]),
        MetaValue::Table(vec![entry("k", MetaValue::Int(2)), entry("j", MetaValue::Bool(false))]),
    ]);
    assert_eq!(render(&nested), "[[\"a\"], {k = 2, j = false}]");
    assert_eq!(decimal(0), "0");
    assert_eq!(decimal(90210), "90210");
    assert_eq!(signed_decimal(i64::MIN), "-9223372036854775808");
}

#[test]
fn batch_reduces_to_actions() {
    let paths = SitePaths::new("/site");
    let events = vec![
        event(EventKind::ModifyData, "/site/templates/base.html"),
        event(EventKind::Create, "/site/content/posts/a.norg"),
        event(EventKind::Remove, "/site/content/old.norg"),
        event(EventKind::ModifyData, "/site/content/posts/a.norg~"),
        event(EventKind::Other, "/site/assets/x.css"),
        event(EventKind::ModifyData, "/site/content/posts/b.norg"),
        WatchEvent { kind: EventKind::Create, paths: vec![] },
    ];
    let a = reduce_events(&events, &paths);
    assert!(a.reload_templates);
    assert!(!a.reload_assets);
    assert!(a.reload_content);
    assert_eq!(a.rebuild_paths, vec!["/site/content/posts/a.norg".to_string(), "/site/content/posts/b.norg".to_string()]);
    assert_eq!(a.cleanup_paths, vec!["/site/.build/old.html".to_string(), "/site/.build/old.meta".to_string()]);
}

#[test]
fn theme_changes_count_too() {
    let paths = SitePaths::new("/site");
    let events = vec![
        event(EventKind::Create, "/site/theme/assets/css/t.css"),
        event(EventKind::ModifyData, "/site/theme/templates/post.html"),
        event(EventKind::ModifyData, "/site/templates/notes.txt"),
    ];
    let a = reduce_events(&events, &paths);
    assert!(a.reload_assets);
    assert!(a.reload_templates);
    assert!(!a.reload_content);
}

#[test]
fn steps_run_in_order() {
    let paths = SitePaths::new("/site");
    let events = vec![
        event(EventKind::Remove, "/site/content/gone.norg"),
        event(EventKind::ModifyData, "/site/content/a.norg"),
        event(EventKind::ModifyData, "/site/assets/a.css"),
        event(EventKind::ModifyData, "/site/templates/a.html"),
    ];
    let steps = plan_steps(&reduce_events(&events, &paths));
    let names: Vec<String> = steps
        .iter()
        .map(|s| match s {
            Step::PulseReload => "pulse".to_string(),
            Step::ReloadTemplates => "templates".to_string(),
            Step::Rebuild(p) => format!("rebuild {}", p),
            Step::RecollectListing => "listing".to_string(),
            Step::RemoveArtifact(p) => format!("remove {}", p),
        })
        .collect();
    assert_eq!(
        names,
        vec![
            "pulse",
            "templates",
            "rebuild /site/content/a.norg",
            "listing",
            "pulse",
            "remove /site/.build/gone.html",
            "remove /site/.build/gone.meta",
        ]
    );
}

#[test]
fn requests_are_routed() {
    assert!(matches!(route_request("/livereload.js"), Route::LiveReloadScript));
    assert!(matches!(route_request("/categories"), Route::CategoryIndex));
    assert!(matches!(route_request("/categories/rust"), Route::Category(c) if c == "rust"));
    assert!(matches!(route_request("/assets/css/a.css"), Route::Asset(a) if a == "css/a.css"));
    assert!(matches!(route_request("//posts/a"), Route::Content(c) if c == "posts/a"));
    assert!(matches!(route_request("/"), Route::Content(c) if c.is_empty()));
}

#[test]
fn lookup_candidates_in_order() {
    assert_eq!(content_candidates("/s/content", "posts/a"), vec!["/s/content/posts/a.norg", "/s/content/posts/a/index.norg"]);
    assert_eq!(content_candidates("/s/content", ""), vec!["/s/content/index.norg"]);
    assert_eq!(asset_candidates("/s/assets", "/s/theme/assets", "a.css"), vec!["/s/assets/a.css", "/s/theme/assets/a.css"]);
}

#[test]
fn drafts_and_failures_map_to_answers() {
    let draft = Metadata { entries: vec![entry("draft", MetaValue::Bool(true))] };
    assert!(!may_serve(&draft, false));
    assert!(may_serve(&draft, true));
    assert!(may_serve(&Metadata::empty(), false));
    assert_eq!(status_for_failure(IoFailure::NotFound), 404);
    assert_eq!(status_for_failure(IoFailure::PermissionDenied), 403);
    assert_eq!(status_for_failure(IoFailure::Other), 500);
}

#[test]
fn live_reload_tag_goes_before_last_body_end() {
    let mut page = "<body><p></body></p></body>".to_string();
    inject_livereload_script(&mut page);
    assert_eq!(
        page,
        "<body><p></body></p><script src=\"/livereload.js?port=35729&amp;mindelay=10\"></script></body>"
    );
    let mut bare = "<p>no body</p>".to_string();
    inject_livereload_script(&mut bare);
    assert_eq!(bare, "<p>no body</p>");
}

#[test]
fn root_url_links_point_at_server() {
    let body = "<a href=\"https:&#x2F;&#x2F;example.com/x\">x</a>";
    assert_eq!(
        localize_links(body, "https://example.com", "http://localhost:3030"),
        "<a href=\"http://localhost:3030/x\">x</a>"
    );
}

#[test]
fn reload_channel_protocol() {
    assert!(matches!(channel_step(ChannelEvent::Connected), ChannelAction::Send(m) if m.contains("\"command\":\"hello\"")));
    assert!(matches!(channel_step(ChannelEvent::Pulse), ChannelAction::Send(m) if m == "{\"command\":\"reload\",\"path\":\"/\"}"));
    assert!(matches!(channel_step(ChannelEvent::CloseFrame), ChannelAction::Close));
    assert!(matches!(channel_step(ChannelEvent::Failed), ChannelAction::Close));
    assert!(matches!(channel_step(ChannelEvent::OtherFrame), ChannelAction::Ignore));
}

#[test]
fn category_members_match_exactly() {
    let rec = |rel: &str, cats: Vec<&str>| DocumentRecord {
        rel_path: rel.to_string(),
        html: String::new(),
        meta: Metadata { entries: vec![entry("categories", MetaValue::Array(cats.into_iter().map(text).collect()))] },
        permalink: String::new(),
    };
    let posts = vec![rec("posts/a.norg", vec!["rust"]), rec("posts/b.norg", vec!["Rust"]), rec("posts/c.norg", vec!["web", "rust"])];
    assert_eq!(category_members(&posts, "rust"), vec![0, 2]);
}

#[test]
fn asset_types_and_defaults() {
    assert_eq!(AssetType::from_extension("JS"), Ok(AssetType::Js));
    assert_eq!(AssetType::from_extension("norg"), Ok(AssetType::Content));
    assert_eq!(AssetType::from_extension("txt"), Err("Unsupported file extension: txt".to_string()));
    assert_eq!(AssetType::Css.directory(), "assets");
    assert_eq!(AssetType::Content.directory(), "content");
    assert_eq!(AssetType::Js.subdirectory(), Some("js"));
    assert_eq!(AssetType::Content.subdirectory(), None);
    assert!(default_minify());
    assert_eq!(default_port(), 3030);
    assert!(default_drafts());
    assert!(BuildConfig::default().minify);
    let dev = DevConfig::default();
    assert_eq!(dev.port, 3030);
    assert!(dev.drafts && !dev.host && !dev.open);
}

#[test]
fn theme_repository_shorthands() {
    assert_eq!(resolve_repo_shorthand("user/repo"), Ok("https://github.com/user/repo".to_string()));
    assert_eq!(resolve_repo_shorthand("GH:user/repo"), Ok("https://github.com/user/repo".to_string()));
    assert_eq!(resolve_repo_shorthand("srht:user/repo"), Ok("https://git.sr.ht/~user/repo".to_string()));
    assert_eq!(resolve_repo_shorthand("codeberg:user/repo"), Ok("https://codeberg.org/user/repo".to_string()));
    assert_eq!(resolve_repo_shorthand("gitlab:user/repo"), Err("Unknown repository service: gitlab".to_string()));
}

#[test]
fn elapsed_time_reads_well() {
    assert_eq!(get_elapsed_time(250_000_000), "250ms");
    assert_eq!(get_elapsed_time(1_500_000_000), "1.5s");
    assert_eq!(get_elapsed_time(999_600_000), "1000ms");
    assert_eq!(get_elapsed_time(400_000), "0ms");
}

#[test]
fn failed_template_reload_sends_no_pulse() {
    assert!(matches!(after_template_reload(true).as_slice(), [Step::PulseReload]));
    assert!(after_template_reload(false).is_empty());
}

#[test]
fn max_length_counts_utf8_bytes() {
    let fields = vec![FieldSpec { name: "title".to_string(), definition: FieldDefinition::String { max_length: Some(4), pattern: None } }];
    let merged = MergedSchema { required: vec![], fields: fields.iter().collect(), rules: vec![] };
    let ascii = Metadata { entries: vec![entry("title", text("abcd"))] };
    assert!(validate_metadata(&ascii, &merged).is_empty());
    let accented = Metadata { entries: vec![entry("title", text("caf\u{e9}"))] };
    assert_eq!(
        messages(&validate_metadata(&accented, &merged)),
        vec!["Constraint violation for field 'title': Exceeds max length 4"]
    );
}

#[test]
fn replace_matches_std() {
    let cases = [("aaa", "aa", "b"), ("abc", "", "x"), ("", "", "x"), ("a.b.c", ".", "::"), ("xyz", "q", "r"), ("caf\u{e9} caf\u{e9}", "\u{e9}", "e"), ("ab", "abc", "z")];
    for (s, from, to) in cases {
        assert_eq!(replace_text(s, from, to), s.replace(from, to), "{:?}", (s, from, to));
    }
}

#[test]
fn nested_values_compare_by_structure() {
    let a = MetaValue::Array(vec![MetaValue::Array(vec![text("x")]), MetaValue::Table(vec![entry("k", MetaValue::Int(1))])]);
    let b = MetaValue::Array(vec![MetaValue::Array(vec![text("x")]), MetaValue::Table(vec![entry("k", MetaValue::Int(1))])]);
    let c = MetaValue::Array(vec![MetaValue::Array(vec![text("y")]), MetaValue::Table(vec![entry("k", MetaValue::Int(1))])]);
    let d = MetaValue::Table(vec![entry("k", MetaValue::Int(1))]);
    let e = MetaValue::Table(vec![entry("q", MetaValue::Int(1))]);
    assert!(a.same_as(&b));
    assert!(!a.same_as(&c));
    assert!(!d.same_as(&e));
    assert!(!a.same_as(&d));
    let fields = vec![FieldSpec {
        name: "tags".to_string(),
        definition: FieldDefinition::Array {
            items: Box::new(FieldDefinition::Boolean),
            min_items: None,
            max_items: None,
            must_contain: Some(vec![MetaValue::Array(vec![text("x")])]),
        },
    }];
    let merged = MergedSchema { required: vec![], fields: fields.iter().collect(), rules: vec![] };
    let m = Metadata { entries: vec![entry("tags", a)] };
    assert!(validate_metadata(&m, &merged).is_empty());
}
