//! A small compiler back-end: it lowers a typed Lisp-like language to NASM-flavoured
//! x86-64 assembly through a fixed sequence of passes.
//!
//! Every pass is an executable function whose result is pinned to a function on the
//! mathematical views of the intermediate representations; what the passes guarantee
//! of one another is proved over these functions.
//!
//! The passes, in their order: [`uniquify`] makes binders unique, [`anf`] brings the
//! program to normal form, [`select`] selects instructions, [`liveness`] finds the
//! live-after sets, [`homes`] gives every variable a register or a stack slot (with
//! [`intervals`] and [`regalloc`]), [`lower`] lowers conditionals, [`patch`] legalizes
//! instructions and [`emit`] writes the text. [`compile`] runs them all, [`reader`] and
//! [`parser`] read the source text.

pub mod error;
pub mod names;
pub mod seqs;
pub mod varset;
pub mod assoc;
pub mod ast;
pub mod reader;
pub mod parser;
pub mod uniquify;
pub mod plain;
pub mod anf;
pub mod anf_spec;
pub mod x86;
pub mod select;
pub mod liveness;
pub mod intervals;
pub mod regalloc;
pub mod homes;
pub mod lower;
pub mod patch;
pub mod emit;
pub mod compile;
