//! Combining and reducing columnar tables: vertical, diagonal and horizontal
//! concatenation, row-wise reducers over expressions, range generation and
//! struct construction, each with a verified contract.
use vstd::prelude::*;

pub mod frame;
pub mod concat;
pub mod diagonal;
pub mod reduce;
pub mod duration;
pub mod calendar;
pub mod range;
pub mod structs;
