//! Turns an object-detection dataset into the layout of a YOLO-style trainer:
//! image names are matched with label records, split into train, validation and
//! test, and each annotation is kept with its class index or skipped.
use vstd::prelude::*;

pub mod labels;
pub mod layout;
pub mod matching;
pub mod split;

verus! {

} // verus!
