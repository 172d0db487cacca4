//! Enrichment of a movie catalog: title normalisation, the closed genre
//! vocabulary, search-result resolution and detail-page field extraction.
pub mod error;
pub mod movie;
pub mod text;
pub mod title;
pub mod imdb;
pub mod enrich;
pub mod movielens;
pub mod stats;
