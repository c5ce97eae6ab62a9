//! A verified interpreter for a minimal stack-based scripting language.
//!
//! Programs are plain text: integer literals push values onto a single
//! evaluation stack, named operations manipulate that stack, and two
//! control constructs (`loop` ... `end` and `->` ... `end`) introduce
//! nested block execution. The library splits into a lexical tokenizer
//! (`lexer`), a mathematical model of execution (`semantics`), the
//! verified execution engine (`machine`), and proofs of general laws
//! about the language (`laws`).

pub mod lexer;
pub mod semantics;
pub mod machine;
pub mod laws;
