//! Turn a GitHub profile into a static portfolio and a README quality scorecard.
//!
//! The library holds the scoring rubric, the selection and ordering of repositories,
//! the language tally, the conversion of API records and the rendering of the pages.
//! Fetching from the network and writing files is left to the program around it.

pub mod model;
pub mod emit;
pub mod generate;
pub mod github;
pub mod score;
pub mod text;
