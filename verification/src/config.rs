//! The settings of a site, as `config.yaml` gives them.

use vstd::prelude::*;

verus! {

/// The settings of a site (the `site` section of `config.yaml`).
pub struct SiteConfig {
    pub title: String,
    pub author: String,
    pub tagline: String,
    /// The URL the site is served at.
    pub url: String,
    /// The shell command that uploads the site.
    pub uploadcmd: String,
    /// Files and directories copied to the site as they are.
    pub extrafiles: Vec<String>,
}

} // verus!
