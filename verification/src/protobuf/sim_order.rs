//! The order of closenesses, as `Ordering`.

use vstd::prelude::*;

use std::cmp::Ordering;

use crate::protobuf::type_path::{sim_rank, PathSim};

verus! {

impl PathSim {
    /// Orders two closenesses by their rank.
    pub fn cmp(&self, other: &PathSim) -> (res: Ordering)
        ensures
            (res == Ordering::Less) == (sim_rank(*self) < sim_rank(*other)),
            (res == Ordering::Equal) == (sim_rank(*self) == sim_rank(*other)),
            (res == Ordering::Greater) == (sim_rank(*self) > sim_rank(*other)),
    {
        if self.ranks_below(other) {
            Ordering::Less
        } else if self.same_rank(other) {
            Ordering::Equal
        } else {
            Ordering::Greater
        }
    }

    /// Orders two closenesses by their rank.
    pub fn partial_cmp(&self, other: &PathSim) -> (res: Option<Ordering>)
        ensures
            res is Some,
            (res == Some(Ordering::Less)) == (sim_rank(*self) < sim_rank(*other)),
            (res == Some(Ordering::Equal)) == (sim_rank(*self) == sim_rank(*other)),
            (res == Some(Ordering::Greater)) == (sim_rank(*self) > sim_rank(*other)),
    {
        Some(self.cmp(other))
    }
}

} // verus!
