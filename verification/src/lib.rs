//! The reading logic of a multilingual Dhammapada reader: the chapter
//! layout of the 423 verses, the text shown for each verse, the navigation
//! between chapters, and the choice of language at start-up.
use vstd::prelude::*;

pub mod text;
pub mod verse;
pub mod chapters;
pub mod navigation;
pub mod locale;

verus! {

} // verus!
