//! A parser generator and the parsers built with it: the matching
//! primitives (`runtime`), the grammar-source parsers (`grammar`,
//! `newparse`, `boot`), a JSON parser (`json`, `json_syntax`), and the
//! compiler from grammar sources to parser code (`compile`).
pub mod runtime;
pub mod grammar;
pub mod json;
pub mod json_syntax;
pub mod compile;
pub mod newparse;
pub mod boot;
