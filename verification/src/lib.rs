//! Character transliteration in the manner of `tr`.
//!
//! [`escape_parser`] compiles a set expression (literal characters,
//! backslash escapes, octal codes and ranges) into the ordered list of
//! characters it denotes. [`transducer`] applies translation, deletion and
//! squeezing to a stream of characters, given the compiled sets.
//! [`arguments`] reads the flags and operands of a command line and makes
//! the transducer they ask for.
//! [`theorems`] holds the laws of the compiler and of the transducer.
pub mod arguments;
pub mod escape_parser;
pub mod theorems;
pub mod transducer;
