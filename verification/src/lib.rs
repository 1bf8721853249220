//! Lazy-copying, lazy-allocated scanning `str` transformations.
//!
//! The one primitive here is [`transform`]: it walks a string left to right,
//! handing the not-yet-processed suffix to a caller-supplied segment function
//! again and again. Each call consumes a strictly positive number of
//! characters and reports whether that span stays as it is or is replaced by
//! a given text. As long as every span is unchanged nothing is allocated; the
//! moment the first replacement is reported, an output buffer is created,
//! seeded with everything consumed so far, and filled for the rest of the
//! scan. The result says which path was taken: [`Cow::Borrowed`] is the
//! untouched input, [`Cow::Owned`] a freshly built string.
//!
//! [`escape_double_quotes`] and [`unescape_backslashed_verbatim`] are two
//! ready-made policies built on the primitive.

mod cow;
mod escape;
mod scan;

pub use cow::Cow;
pub use cow::str_eq;
pub use escape::EscapeDoubleQuotes;
pub use escape::UnescapeBackslashedVerbatim;
pub use escape::escape_double_quotes;
pub use escape::escaped_text;
pub use escape::lemma_escape_then_unescape;
pub use escape::unescape_backslashed_verbatim;
pub use escape::unescaped_text;
pub use scan::KeepUnchanged;
pub use scan::Transform;
pub use scan::TransformNext;
pub use scan::TransformedPart;
pub use scan::any_changed;
pub use scan::consumed_spans;
pub use scan::contributions;
pub use scan::lemma_never_changed_stays_borrowed;
pub use scan::lemma_scan_covers_input;
pub use scan::lemma_unchanged_is_identity;
pub use scan::step_len;
pub use scan::transform;
pub use scan::transformed_text;
