//! The games this crate can play.

use vstd::prelude::*;

verus! {

#[derive(Debug, Clone, Copy, PartialEq, Eq, Structural)]
pub enum Games {
    C4,
    NT,
    CS,
    EBR,
    Utwid,
}

} // verus!
