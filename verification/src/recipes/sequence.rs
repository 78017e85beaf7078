//! Sequence actions: running a list of named subactions in order. Resolving
//! every named subaction — with the failures aggregated — is decided here;
//! running the resolved actions is the caller's work.
use vstd::prelude::*;

use crate::GobiError;
use crate::GobiResult;
use crate::merge_spec;
use crate::recipes::Action;
use crate::recipes::action_views;
use crate::recipes::ActionView;
use crate::recipes::ambiguous_msg;
use crate::recipes::find_action_index;
use crate::recipes::not_found_msg;
use crate::recipes::resolution_ambiguous;
use crate::recipes::resolution_fails;
use crate::recipes::resolution_ok;

verus! {

/// The qualified name of a sequence action: "sequence." and its key.
pub open spec fn sequence_name(n: Seq<char>) -> Seq<char> {
    "sequence."@ + n
}

/// A sequence action's resolvable form: qualified under "sequence.", shown
/// under its own key, with default priority.
pub fn sequence_action(subname: &str, help: String) -> (r: Action)
    ensures
        r@.name == sequence_name(subname@),
        r@.subname == subname@,
        r@.priority == true,
        r@.help == help@,
{
    let mut name = "sequence.".to_owned();
    name.append(subname);
    proof {
        reveal_strlit("sequence.");
    }
    Action { name, subname: subname.to_owned(), priority: true, help }
}

/// The merged report of every subaction name that fails to resolve, in
/// order.
pub open spec fn sequence_err_fold(
    acts: Seq<ActionView>,
    names: Seq<String>,
    err: (int, Seq<char>),
) -> (int, Seq<char>)
    decreases names.len(),
{
    if names.len() == 0 {
        err
    } else {
        let step = if resolution_fails(acts, names[0]@) {
            merge_spec(
                err,
                (
                    1int,
                    if resolution_ambiguous(acts, names[0]@) {
                        ambiguous_msg(names[0]@)
                    } else {
                        not_found_msg(names[0]@)
                    },
                ),
            )
        } else {
            err
        };
        sequence_err_fold(acts, names.drop_first(), step)
    }
}

/// Resolve every named subaction of a sequence against the action list.
/// Every name is tried; if any fails, the merged report of all failures is
/// returned; otherwise the resolved positions, in order.
#[verifier::loop_isolation(false)]
pub fn resolve_sequence(subactions: &Vec<String>, actions: &Vec<Action>) -> (r: GobiResult<
    Vec<usize>,
>)
    ensures
        ({
            let folded = sequence_err_fold(
                action_views(actions@),
                subactions@,
                (0int, Seq::<char>::empty()),
            );
            match r {
                Ok(idxs) => folded.0 == 0 && idxs@.len() == subactions@.len() && forall|i: int|
                    0 <= i < subactions@.len() ==> resolution_ok(
                        action_views(actions@),
                        subactions@[i]@,
                        #[trigger] idxs@[i] as int,
                    ),
                Err(e) => folded.0 != 0 && e.code as int == folded.0 && e.msg@ == folded.1,
            }
        }),
{
    let ghost acts = action_views(actions@);
    let mut idxs: Vec<usize> = Vec::new();
    let mut err = GobiError { code: 0, msg: String::new() };
    let mut i: usize = 0;
    proof {
        assert(subactions@.skip(0) =~= subactions@);
    }
    while i < subactions.len()
        invariant
            i <= subactions.len(),
            sequence_err_fold(acts, subactions@.skip(i as int), (err.code as int, err.msg@))
                == sequence_err_fold(acts, subactions@, (0int, Seq::<char>::empty())),
            err.code == 0 ==> idxs@.len() == i && forall|m: int|
                0 <= m < i ==> resolution_ok(acts, subactions@[m]@, #[trigger] idxs@[m] as int),
        decreases subactions.len() - i,
    {
        proof {
            assert(subactions@.skip(i as int)[0] == subactions@[i as int]);
            assert(subactions@.skip(i as int).drop_first() =~= subactions@.skip(i as int + 1));
        }
        match find_action_index(subactions[i].as_str(), actions) {
            Ok(at) => {
                idxs.push(at);
            },
            Err(e) => {
                err = err.merge(e);
            },
        }
        i = i + 1;
    }
    proof {
        assert(subactions@.skip(subactions@.len() as int) =~= Seq::<String>::empty());
    }
    if err.code != 0 {
        Err(err)
    } else {
        Ok(idxs)
    }
}

} // verus!
