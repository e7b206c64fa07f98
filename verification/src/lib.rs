//! Phone-number word finder.
//!
//! A seven-digit phone number is expanded into every letter string the
//! telephone keypad allows, and dictionary words are matched against those
//! strings by substring containment.  The pipeline is: normalize the raw
//! input to exactly seven characters, generate the ordered sequence of
//! letter combinations, then scan words one at a time against it.

use vstd::prelude::*;

pub mod combos;
pub mod keypad;
pub mod matcher;
pub mod normalize;
pub mod text;

verus! {

/// Every normalized phone number has exactly this many characters.
pub const NUMBER_LEN: usize = 7;

} // verus!
