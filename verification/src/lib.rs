//! A tree-walking interpreter core for a small dynamically typed scripting
//! language with closures and single-inheritance classes.
//!
//! The way from source text to a running program:
//!
//! * `scanner` splits the text into tokens;
//! * `syntax` reads the tokens into a syntax tree, following `grammar`;
//! * `resolver` checks the static rules and records, for every reference
//!   to a local variable, how many scopes out the variable lives;
//! * `interpreter` runs the program.
//!
//! The evaluator is a resumable machine, specified in `machine`: it never
//! blocks, prints or computes with floating-point numbers itself, but tells
//! its host after each step what to do next. Everything a program creates
//! lives in the stores of `heap` (`environment`, `callable`, `class`) and is
//! referred to by index. `eval` says what the operators mean on values.
//! `theorems`, `annotations`, `validity` and `discipline` hold what is
//! proved of every program.

pub mod builtins;
pub mod types;
pub mod text;
pub mod scanner;
pub mod grammar;
pub mod syntax;
pub mod environment;
pub mod heap;
pub mod callable;
pub mod class;
pub mod eval;
pub mod machine;
pub mod interpreter;
pub mod resolver;
pub mod theorems;
pub mod annotations;
pub mod validity;
pub mod discipline;
