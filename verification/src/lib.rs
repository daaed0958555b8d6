//! A small toolkit for writing HTML.
//!
//! A [`Buffer`] wraps a sink and is driven by calls that follow the shape of
//! the document: [`Buffer::node`] opens an element, [`Buffer::attr`] adds an
//! attribute to it, and [`Buffer::close`] or [`Buffer::content`] ends it.
//! Which calls can follow which is decided by the type of the builder, so a
//! document that compiles is well nested. Text and attribute values are
//! escaped as they are written.
//!
//! ```text
//! let html = Buffer::default()
//!     .doctype()
//!     .node("html")
//!     .attr(("lang", "en"))
//!     .content(|buf| buf.node("body").content(|buf| buf.text("1 < 2")))
//!     .into_inner();
//! // <!DOCTYPE html><html lang="en"><body>1 &lt; 2</body></html>
//! ```
//!
//! Every function states what it writes, over the text that the sink has
//! accepted ([`prelude::WriterExt::written`]), the names of the elements that
//! are open ([`Buffer::names`]) and the record of the tags written so far
//! ([`Buffer::tags`]). The builder's surface comes twice: `node`, `attr`,
//! `text` and the like are for a sink that cannot fail, such as a `String`;
//! `try_node`, `try_attr`, `try_text` and the like are for any sink, and
//! return the error of the write that was refused.
mod ascii;
pub mod attribute;
pub mod buffer;
pub mod content;
pub mod escape;
pub mod number;
pub mod prelude;
pub mod tags;

pub use attribute::write_escaped_attribute_str;
pub use buffer::{Body, Buffer, Context, Element};
pub use content::{escape_content, write_escaped_content_str};
