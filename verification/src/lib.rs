//! Scanner for a line-oriented annotation grammar embedded in comments.
//!
//! A source text is read line by line. Each line is classified as one of a
//! fixed set of tags (`matcher`): a named invocation (a call), a fenced start
//! or end marker, an attribute comment, a plain code line (an item), or an
//! empty line. A region tracker (`parser`) consumes the tags in order and
//! produces the validated sequence of invocation regions (`block`) together
//! with non-fatal warnings, or a fatal structural error.

pub mod block;
pub mod laws;
pub mod matcher;
pub mod parser;
