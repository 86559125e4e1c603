//! Where a translated document is stored.

use vstd::prelude::*;
use vstd::string::*;

verus! {

/// The destination of the document for a target language: the language
/// code names a JSON file among the translated assets.
pub open spec fn destination_of(target: Seq<char>) -> Seq<char> {
    "assets/translated/"@ + target + ".json"@
}

/// The destination of the document for `target`. The caller creates it if
/// it is absent and overwrites it if it is present.
pub fn destination(target: &str) -> (path: String)
    ensures
        path@ == destination_of(target@),
{
    let mut path = "assets/translated/".to_owned();
    path.append(target);
    path.append(".json");
    path
}

} // verus!
