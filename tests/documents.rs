use norgolith::commands::{content_file_name, generate_content_title, norg_document, target_path, AssetType};
use norgolith::norg::{extract_meta, split_lines};
use norgolith::server::sanitize_path;
use norgolith::toc::{generate_nested_html, generate_toc, parse_toc, GenerateToc, NowFunction, TocEntry};

fn heading(level: u8, title: &str, id: &str) -> TocEntry {
    TocEntry { level, title: title.to_string(), id: id.to_string() }
}

#[test]
fn metadata_block_is_extracted() {
    let doc = "@document.meta\ntitle: Hello\ndraft: true\n@end\n\n* Hello\n  body\n";
    assert_eq!(extract_meta(doc), "title: Hello\ndraft: true");
}

#[test]
fn metadata_block_handles_crlf_and_absence() {
    assert_eq!(extract_meta("@document.meta\r\ntitle: A\r\n@end\r\n"), "title: A");
    assert_eq!(extract_meta("* Only a heading\n"), "");
    assert_eq!(extract_meta("intro\n@document.meta\na: 1\nb: 2"), "a: 1\nb: 2");
    assert_eq!(extract_meta("@document.meta\n@end"), "");
}

#[test]
fn lines_follow_std() {
    for s in ["", "a", "a\n", "a\nb", "a\r\nb\r\n", "\n\n", "x\r", "a\n\nb\n"] {
        let expected: Vec<String> = s.lines().map(|l| l.to_string()).collect();
        assert_eq!(split_lines(s), expected, "lines of {:?}", s);
    }
}

#[test]
fn served_paths_stay_in_output() {
    assert_eq!(sanitize_path("/"), "./public");
    assert_eq!(sanitize_path("/posts/a/"), "./public/posts/a");
    assert_eq!(sanitize_path("/../../etc/passwd"), "./public/etc/passwd");
    assert_eq!(sanitize_path("/a/./b//c"), "./public/a/b/c");
}

#[test]
fn toc_nests_under_lower_levels() {
    let entries = vec![
        heading(1, "Intro", "intro"),
        heading(2, "Setup", "setup"),
        heading(3, "Deps", "deps"),
        heading(2, "Usage", "usage"),
        heading(1, "End", "end"),
    ];
    let tree = parse_toc(entries);
    assert_eq!(tree.parents, vec![None, Some(0), Some(1), Some(0), None]);
    assert_eq!(
        generate_nested_html(&tree, "ol"),
        "<ol><li><a href=\"#intro\">Intro</a><ol><li><a href=\"#setup\">Setup</a><ol><li><a href=\"#deps\">Deps</a></li></ol></li><li><a href=\"#usage\">Usage</a></li></ol></li><li><a href=\"#end\">End</a></li></ol>"
    );
}

#[test]
fn toc_of_nothing_and_of_deep_first_heading() {
    assert_eq!(generate_toc(vec![], "ul"), "<ul></ul>");
    let html = generate_toc(vec![heading(3, "Deep", "d"), heading(1, "Top", "t"), heading(2, "Mid", "m")], "ul");
    assert_eq!(
        html,
        "<ul><li><a href=\"#d\">Deep</a></li><li><a href=\"#t\">Top</a><ul><li><a href=\"#m\">Mid</a></li></ul></li></ul>"
    );
}

#[test]
fn template_functions_pick_defaults() {
    assert_eq!(NowFunction::format_or_default(None), "%Y-%m-%d %H:%M:%S");
    assert_eq!(NowFunction::format_or_default(Some("%A")), "%A");
    assert_eq!(GenerateToc::call(vec![heading(1, "A", "a")], None), "<ol><li><a href=\"#a\">A</a></li></ol>");
    assert_eq!(GenerateToc::call(vec![heading(1, "A", "a")], Some("ul")), "<ul><li><a href=\"#a\">A</a></li></ul>");
    assert!(GenerateToc::is_safe());
}

#[test]
fn theme_manifest_holds_plain_text() {
    let m = norgolith::config::ThemeMetadata {
        name: "lith".to_string(),
        author: "someone".to_string(),
        description: "a theme".to_string(),
        version: "1.0.0".to_string(),
        license: "MIT".to_string(),
    };
    assert_eq!(m.version, "1.0.0");
}

#[test]
fn titles_come_from_file_names() {
    assert_eq!(generate_content_title("/site", "/site/content/my-first_post.norg").as_deref(), Some("My First Post"));
    assert_eq!(generate_content_title("/site", "/site/content/posts/index.norg").as_deref(), Some("Posts"));
    assert_eq!(generate_content_title("/site", "/site/content/index.norg").as_deref(), Some("Home"));
    assert_eq!(generate_content_title("/site", "/site/content/a--b.norg").as_deref(), Some("A B"));
    let long = format!("/site/content/{}.norg", "(".repeat(300));
    assert_eq!(generate_content_title("/site", &long), None);
}

#[test]
fn new_files_are_named_and_placed() {
    assert_eq!(content_file_name("post1"), Ok("post1.norg".to_string()));
    assert_eq!(content_file_name("post1.norg"), Ok("post1.norg".to_string()));
    assert_eq!(content_file_name("post1.md"), Err("Norg documents must have .norg extension".to_string()));
    assert_eq!(target_path("/site", AssetType::Js, "app.js"), "/site/assets/js/app.js");
    assert_eq!(target_path("/site", AssetType::Css, "a.css"), "/site/assets/css/a.css");
    assert_eq!(target_path("/site", AssetType::Content, "posts/p.norg"), "/site/content/posts/p.norg");
}

#[test]
fn new_document_text() {
    let text = norg_document("Hello", "Greeting", "ana, bo", "rust neovim", "2024-01-01T00:00:00+00:00", "post").unwrap();
    assert!(text.starts_with("@document.meta\ntitle: Hello\ndescription: Greeting\nauthors: [\n  ana\n  bo\n]\ncategories: [\n  rust\n  neovim\n]\n"));
    assert!(text.contains("\ndraft: true\nlayout: post\nversion: 1.1.1\n@end\n\n* Hello\n  Lorem ipsum"));
    assert_eq!(extract_meta(&text).lines().next(), Some("title: Hello"));
}
