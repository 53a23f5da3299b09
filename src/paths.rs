//! The fixed layout of a project below its root directory.

use vstd::prelude::*;
use vstd::string::*;

verus! {

/// The path of `name` below the directory `root`.
pub open spec fn joined(root: Seq<char>, name: Seq<char>) -> Seq<char> {
    root + "/"@ + name
}

/// The well-known directories of a project.
pub struct SitePaths {
    pub content: String,
    pub assets: String,
    pub templates: String,
    pub theme_assets: String,
    pub theme_templates: String,
    pub public: String,
    pub build: String,
}

/// `root` and `name` joined by one separator.
pub fn join_path(root: &str, name: &str) -> (r: String)
    ensures
        r@ == joined(root@, name@),
{
    let mut s = String::from_str(root);
    s.append("/");
    s.append(name);
    s
}

impl SitePaths {
    /// The directories of the project whose root directory is `root`.
    pub fn new(root: &str) -> (r: SitePaths)
        ensures
            r.content@ == joined(root@, "content"@),
            r.assets@ == joined(root@, "assets"@),
            r.templates@ == joined(root@, "templates"@),
            r.theme_assets@ == joined(root@, "theme/assets"@),
            r.theme_templates@ == joined(root@, "theme/templates"@),
            r.public@ == joined(root@, "public"@),
            r.build@ == joined(root@, ".build"@),
    {
        SitePaths {
            content: join_path(root, "content"),
            assets: join_path(root, "assets"),
            templates: join_path(root, "templates"),
            theme_assets: join_path(root, "theme/assets"),
            theme_templates: join_path(root, "theme/templates"),
            public: join_path(root, "public"),
            build: join_path(root, ".build"),
        }
    }
}

} // verus!
