//! A server that gives agents tools to read, search and draw PDF files.
//!
//! The library decides everything: what a request means, what a tool needs from a
//! document, and what is answered. It does no input and no output of its own. A line
//! of input goes to [`protocol::handle_line`]; a request that needs something from the
//! outside comes back as a [`protocol::Job`], which says what it needs and goes on
//! once it is given an answer.
//!
//! What is read of a document is plain data, in [`document`]. Coordinates are
//! floating-point numbers, held as bit patterns and computed with exactly, in
//! [`float`] and [`rounding`]. What holds of the whole, from a request to its answer, is
//! stated in [`laws`].
pub mod args;
pub mod blocks;
pub mod cache;
pub mod call;
pub mod content;
pub mod document;
pub mod float;
pub mod info;
pub mod json;
pub mod laws;
pub mod links;
pub mod outline;
pub mod picture;
pub mod profile;
pub mod protocol;
pub mod render;
pub mod resize;
pub mod rounding;
pub mod search;
pub mod text;
pub mod tools;
