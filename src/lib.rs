//! A static site generator's core: content files with front matter are
//! classified, parsed and converted to HTML, gathered into one collection,
//! and laid out as the pages, copies and search index of the output.
pub mod collection;
pub mod config;
pub mod content;
pub mod convert;
pub mod error;
pub mod front_matter;
pub mod paths;
pub mod render;
pub mod search;
pub mod text;

pub use collection::{collect_batches, collect_batches_lenient, AvailableContent};
pub use config::Config;
pub use content::{
    build_content, classify_file, classify_project, Content, ContentKind, ContentSource,
    LocationData, Post,
};
pub use convert::{convert_body, text_of_runs, PostSourceKind};
pub use error::{ContentError, ItemError};
pub use front_matter::{parse_document, split_document, write_front_matter, Metadata};
pub use render::{copy_jobs, include_destination, render_jobs, CopyJob, RenderJob};
pub use search::{
    frame_array, frame_record, search_index_json, search_index_path, search_records,
    SearchRecord,
};
