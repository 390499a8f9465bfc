//! Port-number reference data: parses the port tables of a markup document into
//! typed records, and answers port lookups and text searches over them.
//!
//! - `markup`: the document tree the parser reads.
//! - `parse`: table, row and cell extraction into records.
//! - `rich_text`: description cells as typed spans.
//! - `store`: categories, protocol support, records, lookup and search.
//! - `display`: use cases ready for display, with numbered links.
//! - `query`: port selections and user queries.
//! - `text`: text helpers (decimal numbers, case folding, substrings).
//! - `render`: answers laid out as tinted text segments.
//! - `laws`: properties proved of the above.

use vstd::prelude::*;

pub mod display;
pub mod laws;
pub mod markup;
pub mod parse;
pub mod query;
pub mod render;
pub mod rich_text;
pub mod store;
pub mod text;

verus! {

} // verus!
