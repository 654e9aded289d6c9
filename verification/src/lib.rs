//! Front end for a small interface-definition language: a tokenizer and
//! recursive-descent parser that turn source text into an abstract syntax
//! tree, and a module loader / linker that resolves a program spread over
//! several files into one flat, name-qualified symbol table.

pub mod ast;
pub mod token;
pub mod parser;
pub mod module_loader;
pub mod linker;
