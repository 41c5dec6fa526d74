//! Front end of a Brainfuck compiler: comment filtering, run-length grouping of
//! operators, and construction of the control-flow plan that a code generator
//! materialises.
//!
//! A source text goes through `lexer` and `grouper` to an instruction stream,
//! through `builder` to a program of requests with its basic blocks and
//! branches, and through `emission` to the operations of the code generator's
//! interface. `machine` says what a program means, `nesting` and `control`
//! state what holds of every program that is built, and `position` finds an
//! instruction in the text.
pub mod operator;
pub mod lexer;
pub mod grouper;
pub mod ir;
pub mod builder;
pub mod nesting;
pub mod compile;
pub mod machine;
pub mod position;
pub mod control;
pub mod emission;
