//! The supported pairs: a table from pair identifiers to what the engine has to know
//! of a pair.

use crate::error::EngineError;
use vstd::prelude::*;

verus! {

/// What the engine knows of one tradable pair.
pub struct Pair {
    /// The identifier of the pair, and the prefix of its two keys in the store.
    pub name: String,
    /// The identifier of the pair at the fallback source, if it is listed there.
    pub fallback_name: Option<String>,
    /// The decimal places of the coin the price is counted in.
    pub price_decimals: u32,
    /// The decimal places of the coin that one unit is priced of.
    pub unit_decimals: u32,
}

/// Whether the `i`-th pair of the table is the first with the identifier `name`.
pub open spec fn first_named(supported: Seq<Pair>, name: Seq<char>, i: int) -> bool {
    &&& 0 <= i < supported.len()
    &&& supported[i].name@ == name
    &&& forall|h: int| 0 <= h < i ==> (#[trigger] supported[h]).name@ != name
}

/// Whether no pair of the table has the identifier `name`.
pub open spec fn unknown(supported: Seq<Pair>, name: Seq<char>) -> bool {
    forall|h: int| 0 <= h < supported.len() ==> (#[trigger] supported[h]).name@ != name
}

/// Looks a pair up by its identifier.
pub fn get_pair(supported: &Vec<Pair>, name: &str) -> (r: Result<usize, EngineError>)
    ensures
        match r {
            Ok(i) => first_named(supported@, name@, i as int),
            Err(e) => e == EngineError::PairNotFound && unknown(supported@, name@),
        },
{
    let wanted = name.to_owned();
    let mut i: usize = 0;
    while i < supported.len()
        invariant
            i <= supported.len(),
            wanted@ == name@,
            forall|h: int| 0 <= h < i ==> (#[trigger] supported@[h]).name@ != name@,
        decreases supported.len() - i,
    {
        if supported[i].name == wanted {
            return Ok(i);
        }
        i = i + 1;
    }
    Err(EngineError::PairNotFound)
}

} // verus!
