//! The codecs that a benchmark runs besides this library's own.

use vstd::prelude::*;

verus! {

/// The settings of the Vortex codec, which has none.
#[derive(Clone, Copy, Debug, PartialEq, Eq, Structural)]
pub struct VortexConfig {}

impl VortexConfig {
    /// The name under which the codec is asked for and shown.
    pub fn name(&self) -> (r: &'static str)
        ensures
            r@ == "vortex"@,
    {
        "vortex"
    }

    /// The settings as pairs of name and value: none.
    pub fn get_confs(&self) -> (r: Vec<(&'static str, String)>)
        ensures
            r@.len() == 0,
    {
        Vec::new()
    }
}

/// Compressed data that was computed before the measured runs.
#[derive(Clone, Debug)]
pub struct Precomputed {
    compressed: Vec<u8>,
}

impl Precomputed {
    pub closed spec fn view(&self) -> Seq<u8> {
        self.compressed@
    }

    pub fn new(compressed: Vec<u8>) -> (r: Precomputed)
        ensures
            r@ == compressed@,
    {
        Precomputed { compressed }
    }

    pub fn compressed(&self) -> (r: &Vec<u8>)
        ensures
            r@ == self@,
    {
        &self.compressed
    }
}

} // verus!
