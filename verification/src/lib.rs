//! Turns the source bundle of a paper into a structured document.
//!
//! The files of an unpacked bundle are sorted by role and the entry file is
//! chosen among the markup files ([`extractor`]). The texts of the markup
//! files are joined, cleaned of typesetting commands, and searched for title,
//! authors, abstract, sections, figures and equations ([`processor`],
//! [`sections`]). Around this stand the address of a paper ([`arxiv`]), the
//! place of its download ([`downloader`]), and the request for a note and the
//! note made of the answer ([`llm_client`], [`note_generator`]).
//!
//! Nothing here reads a file or talks to a network: callers hand in paths and
//! texts as plain values ([`paths`], [`text`]). Patterns are matched by the
//! `regex` crate ([`pattern`]).

pub mod arxiv;
pub mod downloader;
pub mod extractor;
pub mod llm_client;
pub mod note_generator;
pub mod paths;
pub mod pattern;
pub mod processor;
pub mod sections;
pub mod text;
