//! A reader for a small slide-deck markup: `#config(...)` settings,
//! `#slide` pages, and on them text, headers, fonts, LaTeX, images and divs.
//! The text is prepared (comments taken out, shorthands written out), then
//! read with a cursor into cards.  Every function states what it reads in
//! terms of the text and the cursor's position.

pub mod cursor;
pub mod document;
pub mod lexer;
pub mod parser;
pub mod elements;
pub mod preprocess;
pub mod reader;
pub mod laws;
pub mod render;
pub mod latex;
