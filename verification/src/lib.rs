//! A linter core for prose, source code and commit messages: scanners that
//! match a text buffer against rule tables and emit findings (line, byte
//! column, matched span, severity, optional replacement), filters that apply
//! ignore directives and severity thresholds, and a rewriter that splices the
//! auto-fixable replacements back into the buffer.
//!
//! The pieces live in:
//! - `strutil`: the character-level text model, UTF-8 byte offsets, searching;
//! - `rules`: findings, the rewrite pass, filtering, user-rule binding;
//! - `rules::text`, `rules::code`, `rules::commit`, `rules::structural`: the
//!   scanners, with `rules::ignore` collecting protected lines;
//! - `detector`: text/code/commit mode selection;
//! - `engine`: gathering findings per mode, and plain argument values;
//! - `diff`: a unified line diff between the original and cleaned buffers;
//! - `config`: the configuration snapshot and its validation.

pub mod config;
pub mod detector;
pub mod diff;
pub mod engine;
pub mod rules;
pub mod strutil;
