//! The site configuration that the pipeline reads.
use vstd::prelude::*;

use crate::paths::{join, join_path};

verus! {

/// serde_json::Value, carried unread as the value of a site-wide setting.
#[verifier::external_type_specification]
#[verifier::external_body]
pub struct ExJsonValue(serde_json::Value);

/// Where the site is read from and written to, and what is rendered.
#[derive(Debug)]
pub struct Config {
    /// Input directory
    pub input: String,
    /// Output directory
    pub output: String,
    /// Which top-level templates to render
    pub render: Vec<String>,
    /// Whether to write a search index
    pub search: bool,
    /// Site-wide metadata handed to every template
    pub site: std::collections::HashMap<String, serde_json::Value>,
}

impl Config {
    /// The directory whose entries are the content items.
    pub fn content_dir(&self) -> (r: String)
        ensures
            r@ == join(self.input@, "content"@),
    {
        join_path(self.input.as_str(), "content")
    }

    /// The directory that holds the templates.
    pub fn templates_dir(&self) -> (r: String)
        ensures
            r@ == join(self.input@, "templates"@),
    {
        join_path(self.input.as_str(), "templates")
    }

    /// The directory whose files are copied into the output as they are.
    pub fn include_dir(&self) -> (r: String)
        ensures
            r@ == join(self.input@, "include"@),
    {
        join_path(self.input.as_str(), "include")
    }
}

} // verus!
