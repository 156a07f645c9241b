//! A verified parser for the SubRip (`.srt`) subtitle text format.
//!
//! The library turns a byte buffer holding subtitle text into structured
//! records (sequence number, time range, caption text) and tokenizes inline
//! caption markup (bracket tags, attributes, color values).  Every parsed
//! fragment carries its exact byte location in the original buffer, so that
//! callers can point precisely at the offending substring when a parse fails.
//!
//! Only the legacy subtitle format is supported, not the newer `WebVTT`
//! format that shares the same file extension.
#![verifier::loop_isolation(false)]

pub mod attributes;
pub mod color;
pub mod duration;
pub mod lines;
pub mod num;
pub mod parser;
pub mod pattern;
pub mod serialize;
pub mod span;
pub mod spanned;
pub mod split;
pub mod split_iter;
pub mod split_iter_n;
pub mod subtitle;
pub mod subtitle_iterator;
pub mod tags;
pub mod text;

pub use crate::attributes::{Attribute, Attributes, LazyAttributesIter, ParseAttributeError};
pub use crate::color::{Color, ColorError, SerializeColorConfig};
pub use crate::duration::Duration;
pub use crate::parser::{Event, EventParser, ParserError};
pub use crate::serialize::{ExactSerializedLength, Serialize, SerializeToString,
    SerializeWithConfig, SerializeWithConfigToString};
pub use crate::span::Span;
pub use crate::spanned::{Spannable, Spanned};
pub use crate::subtitle::{InitError, Subtitle, SubtitleError, SubtitleInit};
pub use crate::subtitle_iterator::SubtitleIterator;
pub use crate::tags::{ParseTagError, ParsedTag, TagKind};
pub use crate::text::{Text, TextEvent, TextIter};
