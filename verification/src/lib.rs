//! A small embedded expression language for template placeholders, together
//! with the HTTP path utilities of the surrounding framework.
//!
//! The `language` module lexes, parses and evaluates expressions such as
//! `<% 1 + 2 %>` or `<% user.name.upcase %>` against a variable context.
//! The `http` module parses request paths and percent-encoded strings.

pub mod http;
pub mod language;
pub mod text;
