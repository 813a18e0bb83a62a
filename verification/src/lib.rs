//! A word-search core: given a wildcard query and a word list loaded from
//! delimited text, it returns every listed word whose recorded length equals
//! the query's character count and whose characters agree with the query at
//! every non-wildcard position, case-insensitively.
//!
//! The query character `?` stands for "any character at this position"; all
//! other query characters are literal. Matching lowers both the query and the
//! candidate words, so it is case-insensitive, while matched words are
//! returned in their original casing and in source order.

pub mod loader;
pub mod lowercase;
pub mod matcher;
pub mod query;
pub mod record;
pub mod text;
pub mod timing;
