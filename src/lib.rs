//! Front end of a small compiler for integer arithmetic: a scanner that turns
//! source text into positioned tokens, a recursive-descent parser that builds
//! precedence-correct expression trees with two tree rewrites, and a code
//! generator that lowers the trees to a two-register stack machine.
pub mod tokenizer;
pub mod parser;
pub mod ast;
pub mod machine;
