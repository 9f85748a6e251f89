//! Loads task documents ("books") made of headed pages of named blocks, and
//! classifies each block by how it would run.

use vstd::prelude::*;

pub mod book;
pub mod document;
pub mod filter;
pub mod flavor;
pub mod load;
pub mod text;
pub mod view;

pub use book::{Book, Function, Page};
pub use flavor::{ExecutionFlavor, ResolveError};
pub use load::LoadError;
pub use view::{view_rows, ViewRow};

verus! {

} // verus!
