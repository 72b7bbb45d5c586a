//! Extraction of product data (stock and price) from supplier feeds: the
//! verified core of the extractor. Fetching, files, e-mail and logging are
//! done by the program around this library; everything that decides what is
//! extracted, reported and written lives here.

pub mod text;
pub mod decimal;
pub mod paths;
pub mod cli;
pub mod config;
pub mod sources;
pub mod output;
pub mod pipeline;
pub mod report;
pub mod logging;

use vstd::prelude::*;

verus! {

} // verus!
