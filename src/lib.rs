//! Scripture reference resolution: a canon of books, a parser for free-form
//! references, a resolver that checks them against the canon, a search front
//! end and an assembler for display and linked-data output.
pub mod text;
pub mod canon;
pub mod parse;
pub mod resolve;
pub mod format;
pub mod search;
pub mod linked;
