//! Rebuilds numbered transcript lines from the positioned text operations
//! of a transcript document's pages.
//!
//! Each page's operations yield text objects ([`extract`]); these are sorted
//! into reading order, cut into rows of equal height and merged within a
//! tolerance ([`rows`]); each merged row becomes one [`line::Line`], and the
//! empty ones are left out ([`page`]).
pub mod text;
pub mod extract;
pub mod rows;
pub mod settings;
pub mod line;
pub mod page;
pub mod model;

pub use extract::{Operand, Operation, TextObject, TextObjectParser, UndecodableText, text_objects};
pub use line::{Line, transform_to_line_object};
pub use model::{Gender, Paragraph, Speaker, Statement, Transcript};
pub use page::{TranscriptError, parse_pdf_transcript, parse_text_objects_on_page, ROW_TOLERANCE};
pub use rows::{merge_lines, sort_text_objects_to_lines};
pub use settings::{PageSettings, UNITS_PER_POINT};
