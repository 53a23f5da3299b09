//! The configuration of a site and of the build and development commands.

use vstd::prelude::*;
use crate::meta::MetaEntry;
use crate::schema::ContentSchema;

verus! {

/// Syntax highlighting of code blocks.
pub struct SiteConfigHighlighter {
    pub enable: bool,
    /// The highlighting engine; the templates fall back to one of their own.
    pub engine: Option<String>,
}

/// The syndication feed of a site.
pub struct SiteConfigRss {
    pub enable: bool,
    pub ttl: i32,
    pub description: String,
    pub image: String,
}

/// The configuration of a site, as its project file holds it.
pub struct SiteConfig {
    pub root_url: String,
    pub language: String,
    pub title: String,
    pub author: String,
    pub content_schema: Option<ContentSchema>,
    pub highlighter: Option<SiteConfigHighlighter>,
    pub rss: Option<SiteConfigRss>,
    /// Free-form settings for the templates.
    pub extra: Option<Vec<MetaEntry>>,
}

/// A feed is written when the site enables one.
pub open spec fn feed_enabled_of(c: SiteConfig) -> bool {
    c.rss.is_some() && c.rss.unwrap().enable
}

impl SiteConfig {
    /// Whether the build writes a syndication feed.
    pub fn feed_enabled(&self) -> (r: bool)
        ensures
            r == feed_enabled_of(*self),
    {
        match &self.rss {
            Some(rss) => rss.enable,
            None => false,
        }
    }
}

/// Settings of the production build.
pub struct BuildConfig {
    pub minify: bool,
}

/// Settings of the development server.
pub struct DevConfig {
    pub port: u16,
    pub drafts: bool,
    /// Serve on every network interface, not only on the loopback one.
    pub host: bool,
    /// Open the site in a browser once the server runs.
    pub open: bool,
}

/// A production build minifies unless told otherwise.
pub fn default_minify() -> (r: bool)
    ensures
        r == true,
{
    true
}

/// The development server listens on port 3030 unless told otherwise.
pub fn default_port() -> (r: u16)
    ensures
        r == 3030,
{
    3030
}

/// The development server serves drafts unless told otherwise.
pub fn default_drafts() -> (r: bool)
    ensures
        r == true,
{
    true
}

impl Default for BuildConfig {
    fn default() -> (r: BuildConfig)
        ensures
            r.minify,
    {
        BuildConfig { minify: default_minify() }
    }
}

impl Default for DevConfig {
    fn default() -> (r: DevConfig)
        ensures
            r.port == 3030,
            r.drafts,
            !r.host,
            !r.open,
    {
        DevConfig { port: default_port(), drafts: default_drafts(), host: false, open: false }
    }
}

/// What a theme says of itself in its manifest.
pub struct ThemeMetadata {
    pub name: String,
    pub author: String,
    pub description: String,
    pub version: String,
    pub license: String,
}

} // verus!
