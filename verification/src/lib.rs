//! A full-text search engine over a fixed corpus of verses in several translations.
//!
//! The corpus is turned once into a compact index of finite-state transducers; queries are
//! answered from that index with prefix matching and typo tolerance, and ranked across
//! translations.
//!
//! Building: [`corpus`] reads verses and counts tokens, [`citation`] counts citations, and
//! [`builder`] writes the index file. Querying: [`index`] and [`postings`] load an index
//! file, [`tokenizer`] splits the query, [`expand`] finds the tokens that it reaches,
//! [`select`] chooses the candidate verses, [`score`] counts what the tokens say about each
//! candidate, [`rank`] lists the best, and [`search`] puts the answer together.
//!
//! The transducers are those of the `fst` crate: [`transducer`] holds the calls into it and
//! says what each is taken to do, and [`reading`] says what is read back out of an image
//! that a builder wrote. Where a word stands in a text is kept as a run of places, counted in
//! characters; [`runs`] and [`be64`] write and read the rows.
//!
//! Beside the engine stand [`references`], which finds scripture references in free text,
//! [`trigram`], an index of verses by groups of three letters, and [`wordlist`], the words
//! of a text as plain strings.

pub mod be64;
pub mod book;
pub mod builder;
pub mod citation;
pub mod corpus;
pub mod error;
pub mod expand;
pub mod idset;
pub mod index;
pub mod lex;
pub mod postings;
pub mod rank;
pub mod ranking;
pub mod reading;
pub mod references;
pub mod runs;
pub mod score;
pub mod search;
pub mod select;
pub mod table;
pub mod text;
pub mod tokenizer;
pub mod transducer;
pub mod translation;
pub mod trigram;
pub mod verse_key;
pub mod verse_match;
pub mod wordlist;
