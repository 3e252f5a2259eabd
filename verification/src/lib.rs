//! Display-safe shortening of text.
//!
//! `truncate_with_ellipsis` shortens a text to a number of Unicode scalar
//! values, `truncate_with_width` to a number of terminal columns. Both mark a
//! cut with an ellipsis, and neither ever cuts through a scalar value.
//!
//! Text is modelled as its sequence of scalar values, the view of a `str`. The
//! columns of a scalar value come from the `unicode-width` crate; a
//! `MeasuredText` carries them along, so that what is cut, and where, is
//! stated and proved for any widths whatever.

pub mod boundary;
pub mod by_count;
pub mod by_width;
pub mod columns;
pub mod fit;
pub mod maybe_set;
pub mod measure;
pub mod whitespace;

pub use by_count::truncate_with_ellipsis;
pub use by_width::{truncate_measured, truncate_with_width};
pub use maybe_set::MaybeSet;
pub use measure::MeasuredText;
