//! A port that accepts connections.
use vstd::prelude::*;

verus! {

#[derive(Debug, Clone, Copy)]
pub struct Listener {
    pub port: u16,
}

impl Listener {
    pub fn new(port: u16) -> (r: Self)
        ensures
            r.port == port,
    {
        Listener { port }
    }
}

} // verus!
