//! plainly: explain any software engineering concept in plain language,
//! without losing accuracy.
use vstd::prelude::*;

pub mod cache;
pub mod cli;
pub mod error;
pub mod llm;
pub mod model;
pub mod pipeline;
pub mod render;
pub mod text;

pub use error::{Error, Result};
pub use model::{Explanation, Level, Request};

verus! {

} // verus!
