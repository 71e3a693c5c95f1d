//! The state and rules of an interactive fuzzy picker: the query language that
//! routes text to columns, cursor and viewport movement over the matched items,
//! cancellation of background producers by generation, the preview cache policy,
//! the styling of matched text, and selection movement over a syntax tree.
pub mod highlight;
pub mod object;
pub mod picker;
pub mod preview;
pub mod query;
