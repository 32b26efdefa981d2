//! Generates and maintains an auto-updating table of contents inside a
//! Markdown document, delimited by a pair of sentinel comments: heading
//! extraction with code-block awareness, link-slug derivation, depth
//! filtering, per-document configuration embedded in the begin sentinel, and
//! region replacement that leaves the rest of the document untouched.

pub mod config;
pub mod json;
pub mod laws;
pub mod render;
pub mod scan;
pub mod slug;
pub mod splice;
pub mod text;

pub use config::{Config, parse_json_config, parse_json_config_or_use_provided};
pub use render::generate_toc;
pub use slug::{strip_markdown_links, text_to_url};
pub use splice::add_toc;

use vstd::prelude::*;
use crate::config::{CfgModel, spec_resolve};
use crate::render::spec_generate_toc;
use crate::splice::spec_splice;

verus! {

/// Default lower bound for heading levels included in the table of contents.
pub fn default_min_depth() -> (r: i32)
    ensures
        r == 1,
{
    1
}

/// Default upper bound for heading levels included in the table of contents.
pub fn default_max_depth() -> (r: i32)
    ensures
        r == 6,
{
    6
}

/// The whole pipeline over a document's text: resolve the effective
/// configuration, scan and render the headings, and splice the block into
/// the first sentinel-bounded region.
pub open spec fn spec_make_toc(text: Seq<char>, fallback: CfgModel) -> Seq<char> {
    spec_splice(text, spec_generate_toc(text, spec_resolve(text, fallback)))
}

/// Build the table of contents for a document and splice it between the
/// sentinel comments, replacing whatever was there before; a document
/// without a sentinel pair comes back unchanged.
pub fn make_toc(source_text: String, cnf: Config) -> (res: String)
    ensures
        res@ == spec_make_toc(source_text@, cnf@),
{
    let config = parse_json_config_or_use_provided(source_text.as_str(), cnf);
    let new_toc = generate_toc(source_text.clone(), config);
    let res = add_toc(source_text, new_toc);
    res
}

} // verus!
