//! Reading the transcript of a compiler run that printed its intermediate
//! representation before and after every optimization pass: the transcript is
//! cut into sections, the sections are regrouped by function, and the
//! sections of each function are paired into passes, each with the text
//! before it and the text after it.

pub mod demangle;
pub mod dump;
pub mod filter;
pub mod function;
pub mod listing;
pub mod matcher;
pub mod optpipeline;
pub mod pattern;
pub mod route;
pub mod segment;
pub mod table;
pub mod text;
