//! Command-line configuration.
use vstd::prelude::*;

verus! {

/// The path of the sensor's byte source: the first argument after the
/// program's name.
pub fn parse_config(args: &[String]) -> (r: String)
    requires
        args@.len() >= 2,
    ensures
        r@ == args@[1]@,
{
    args[1].clone()
}

} // verus!
