//! Keeps the set of repository modes closed.

use vstd::prelude::*;

use crate::{
    concurrency::{Optimistic, Unchecked},
    repository::Snapshots,
    snapshot::NoSnapshots,
};

verus! {

/// Implemented by the modes of this crate, and nothing else.
pub trait Sealed {

}

impl Sealed for Unchecked {

}

impl Sealed for Optimistic {

}

impl<Pos> Sealed for NoSnapshots<Pos> {

}

impl<SS> Sealed for Snapshots<SS> {

}

} // verus!
