//! Wrapping actions taken over from another document: each gains the
//! importing section's name as a qualifying prefix and loses its priority,
//! so that the importing file's own actions win subname collisions.
use vstd::prelude::*;

use crate::recipes::Action;

verus! {

/// The qualified name of an imported action: the import's name, a dot,
/// and the action's own qualified name.
pub open spec fn import_name(prefix: Seq<char>, name: Seq<char>) -> Seq<char> {
    prefix + seq!['.'] + name
}

/// Wrap an action taken over from an imported document: its qualified name
/// gains the prefix, its subname and help stay, and its priority is
/// withdrawn.
pub fn import_action(prefix: &str, sub: &Action) -> (r: Action)
    ensures
        r@.name == import_name(prefix@, sub@.name),
        r@.subname == sub@.subname,
        r@.priority == false,
        r@.help == sub@.help,
{
    let mut name = prefix.to_owned();
    name.append(".");
    proof {
        reveal_strlit(".");
        assert(name@ =~= prefix@ + seq!['.']);
    }
    name.append(sub.name.as_str());
    Action {
        name,
        subname: sub.subname.clone(),
        priority: false,
        help: sub.help.clone(),
    }
}

} // verus!
