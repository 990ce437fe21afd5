//! Conversion between UTF-8 and MUTF-8, the variant of UTF-8 that writes NUL as the two
//! bytes `C0 80` and every code point above U+FFFF as a pair of three-byte surrogate forms.
//!
//! The conversions themselves are in [`mutf8`], what is proved of them in [`laws`], and
//! the string types built on them in [`mstring`].
pub mod error;
pub mod laws;
pub mod mstring;
pub mod mutf8;

pub use mstring::mstr;
pub use mstring::MCow;
pub use mstring::MString;
pub use mutf8::mutf8_to_utf8;
pub use mutf8::try_mutf8_to_utf8;
pub use mutf8::try_utf8_to_mutf8;
pub use mutf8::utf8_to_mutf8;
