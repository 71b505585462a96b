//! A calculator for arithmetic expressions, as a library.
//!
//! A line of text is split into tokens ([`lexer`]), the tokens are parsed
//! into a tree ([`parser`]), and the tree is evaluated within a session that
//! keeps variables and the last result ([`interpreter`]). Every stage tracks
//! where in the line each piece came from, so that an error ([`errors`]) can
//! point at the offending characters.
//!
//! Numbers are carried as IEEE-754 binary64 bit patterns ([`binary64`]). The
//! library does no arithmetic on them. It decides what is computed and in
//! which order, and asks a kernel that the caller supplies to compute it.
//!
//! Two further modules serve a front end on a terminal: [`input`] reads keys
//! from the bytes that a terminal sends and sorts lines into commands, and
//! [`editor`] keeps the line that is being written.
//!
//! What is taken on trust of `std` and of `unicode-width` is gathered in
//! [`text`].

pub mod ast;
pub mod binary64;
pub mod editor;
pub mod errors;
pub mod input;
pub mod interpreter;
pub mod lexer;
pub mod parser;
pub mod text;
pub mod token;
