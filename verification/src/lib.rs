//! Rule expressions: small predicates such as `(AND (EQUALS ${role} 1) (IN ${tenant} 1 2 3))`,
//! read from text and evaluated against the values that the variables stand for.
//!
//! A [`ast::lexer::Lexer`] cuts the text into tokens, a [`ast::parser::Parser`] builds the
//! tree, and [`ast::Expr::eval`] reduces the tree to a [`ast::Value`]. Each of the three is
//! proved to compute what a specification function says: `scan_from`, `parse_spec` and
//! `eval_spec`. That the parser reads the grammar is proved in [`ast::grammar`]: the text
//! of a tree is parsed to that tree.

pub mod ast;
