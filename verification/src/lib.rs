//! Syntactic front end for a small language that describes historical
//! phonology: language trees, milestones in time, phoneme classes, traits,
//! series, sound changes and glossed words.
//!
//! [`parse`] turns a whole source text into an ordered list of spanned
//! statements, or into one error record located at the furthest point that
//! any grammar alternative reached. Every grammar function is an executable
//! function over a slice of characters and a position, and is proved equal to
//! a specification function of the same production.
//!
//! The spans that [`parse`] and the `parser` of each statement return
//! count bytes of the UTF-8 text, so that a span cuts its text out of the
//! `str`. The grammar functions themselves work on a slice of characters,
//! and their positions count characters; [`bytes`] carries the one over to
//! the other.
//!
//! Four laws are proved of the grammar. Parsing is a function of the text
//! ([`parser::lemma_parse_deterministic`]). What is read is well formed, and
//! its spans cut from the text what the nodes hold ([`cut::lemma_program`]).
//! Blank space put in at the start of a line changes nothing but the spans
//! ([`blank::lemma_blank_line`]), nor does blank space put in after any line
//! break between statements ([`between::lemma_blank_between`]). A bracket without a class letter is, as a
//! target, always a modification ([`order::lemma_modification_first`]).

pub mod ast;
pub mod between;
pub mod blank;
pub mod bytes;
pub mod chars;
pub mod cut;
pub mod error;
pub mod exact;
pub mod insert;
pub mod insert_bytes;
pub mod model;
pub mod order;
pub mod parser;

pub use parser::parse;
