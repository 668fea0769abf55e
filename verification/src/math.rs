//! The configuration of the pseudo-random primitive: which value of pi each
//! of the four seed-derivation stages multiplies with.

use vstd::prelude::*;

verus! {

/// Which pi the `rand` primitive uses. The truncated literal `3.14159265` is
/// the historical default and is load-bearing: worlds rendered from a given
/// seed only reproduce under it.
#[derive(Clone, Copy, PartialEq, Eq, Structural, Debug)]
pub enum RandPrecision {
    Original,
    Normal,
    High,
}

/// The per-stage precision choices for deriving the four corner seeds.
#[derive(Clone, Copy, PartialEq, Eq, Structural, Debug)]
pub struct SeedGenerator {
    pub pre1: RandPrecision,
    pub pre2: RandPrecision,
    pub pre3: RandPrecision,
    pub pre4: RandPrecision,
}

pub open spec fn spec_precision_of(c: char) -> RandPrecision {
    if c == 'n' {
        RandPrecision::Normal
    } else if c == 'h' {
        RandPrecision::High
    } else {
        RandPrecision::Original
    }
}

/// The precision that position `i` of the configuration string selects;
/// absent positions fall back to the historical default.
pub open spec fn spec_precision_at(cfg: Seq<char>, i: int) -> RandPrecision {
    if 0 <= i < cfg.len() {
        spec_precision_of(cfg[i])
    } else {
        RandPrecision::Original
    }
}

impl SeedGenerator {
    /// Reads a configuration of up to four characters, one per stage:
    /// `n` full 32-bit pi, `h` full 64-bit pi, anything else the default.
    pub fn new(config: &str) -> (s: Self)
        ensures
            s.pre1 == spec_precision_at(config@, 0),
            s.pre2 == spec_precision_at(config@, 1),
            s.pre3 == spec_precision_at(config@, 2),
            s.pre4 == spec_precision_at(config@, 3),
    {
        let n = config.unicode_len();
        Self {
            pre1: precision_at(config, n, 0),
            pre2: precision_at(config, n, 1),
            pre3: precision_at(config, n, 2),
            pre4: precision_at(config, n, 3),
        }
    }
}

fn precision_at(config: &str, n: usize, i: usize) -> (r: RandPrecision)
    requires
        n == config@.len(),
    ensures
        r == spec_precision_at(config@, i as int),
{
    if i < n {
        let c = config.get_char(i);
        if c == 'n' {
            RandPrecision::Normal
        } else if c == 'h' {
            RandPrecision::High
        } else {
            RandPrecision::Original
        }
    } else {
        RandPrecision::Original
    }
}

} // verus!
