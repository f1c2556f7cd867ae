//! A wikitext compiler core: it turns raw source text into a structured
//! document tree and renders that tree into output text or markup.
//!
//! The pipeline is: raw text -> (optional) transclusion expansion ->
//! preprocessing -> tokenizing -> parsing (tree plus warnings) ->
//! rendering (output plus warnings).  Every stage is a pure function of
//! its inputs, so a finished tree may be rendered any number of times
//! with byte-identical results, and independent documents may be
//! compiled concurrently.  The wiki platform around the core (storage,
//! transport, rate limiting) is an outside collaborator; only its
//! boundary decisions live here.

pub mod depth;
pub mod parse;
pub mod preproc;
pub mod render;
pub mod render_html;
pub mod service;
pub mod token;
pub mod transclude;
pub mod tree;
pub mod url;
