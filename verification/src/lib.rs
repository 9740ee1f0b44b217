//! A streaming lexer for an s-expression-flavored data notation.
//!
//! The lexer turns a sequence of characters into typed, location-tagged
//! tokens: punctuation, symbols, numeric literals, quoted strings with
//! escape sequences, booleans and nil.  Line and block comments are elided
//! transparently, and every token (other than an opener or a dot) must be
//! followed by a legal delimiter.

pub mod classes;
pub mod laws;
pub mod scan;
pub mod token;
pub mod lexer;
pub mod location;
