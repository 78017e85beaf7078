//! Help-text formatting: the banner a help listing frames each name with.
//! Gathering names and dispatching output are the caller's work.
use vstd::prelude::*;

use crate::GobiError;
use crate::GobiResult;
use crate::merge_spec;
use crate::recipes::Action;
use crate::recipes::ActionView;
use crate::recipes::action_views;
use crate::recipes::ambiguous_msg;
use crate::recipes::chosen_action;
use crate::recipes::find_action_index;
use crate::recipes::lemma_resolution_unique;
use crate::recipes::not_found_msg;
use crate::recipes::resolution_ambiguous;
use crate::recipes::resolution_fails;

verus! {

/// `n` copies of one character.
pub open spec fn char_repeat(c: char, n: nat) -> Seq<char> {
    Seq::new(n, |i: int| c)
}

/// A line of `n` hash marks.
#[verifier::loop_isolation(false)]
pub fn hash_line(n: usize) -> (r: String)
    ensures
        r@ == char_repeat('#', n as nat),
{
    let mut out = String::new();
    let mut i: usize = 0;
    proof {
        reveal_strlit("#");
        assert(out@ =~= char_repeat('#', 0));
    }
    while i < n
        invariant
            i <= n,
            out@ == char_repeat('#', i as nat),
        decreases n - i,
    {
        out.append("#");
        proof {
            assert(out@ =~= char_repeat('#', i as nat + 1));
        }
        i = i + 1;
    }
    out
}

/// What a help banner displays: a hash rule, the framed name, the rule
/// again, and the help text.
pub open spec fn banner_spec(name: Seq<char>, help: Seq<char>) -> Seq<char> {
    char_repeat('#', name.len() + 4) + "\n# "@ + name + " #\n"@ + char_repeat('#', name.len() + 4)
        + "\n"@ + help
}

/// Frame a name and its help text between hash rules as wide as the framed
/// name line.
pub fn help_banner(name: &str, help: &str) -> (r: String)
    requires
        name@.len() + 4 <= usize::MAX,
    ensures
        r@ == banner_spec(name@, help@),
{
    let width = name.unicode_len() + 4;
    let rule = hash_line(width);
    let mut out = rule.clone();
    out.append("\n# ");
    out.append(name);
    out.append(" #\n");
    out.append(rule.as_str());
    out.append("\n");
    out.append(help);
    proof {
        reveal_strlit("\n# ");
        reveal_strlit(" #\n");
        reveal_strlit("\n");
    }
    out
}


/// Left fold of a help listing: each resolved name contributes its banner
/// behind a blank line; each failing name merges its resolution report.
pub open spec fn help_fold(
    acts: Seq<ActionView>,
    names: Seq<String>,
    text: Seq<char>,
    err: (int, Seq<char>),
) -> (Seq<char>, (int, Seq<char>))
    decreases names.len(),
{
    if names.len() == 0 {
        (text, err)
    } else if resolution_fails(acts, names[0]@) {
        let report = (
            1int,
            if resolution_ambiguous(acts, names[0]@) {
                ambiguous_msg(names[0]@)
            } else {
                not_found_msg(names[0]@)
            },
        );
        help_fold(acts, names.drop_first(), text, merge_spec(err, report))
    } else {
        let a = chosen_action(acts, names[0]@);
        help_fold(
            acts,
            names.drop_first(),
            text + "\n\n"@ + banner_spec(a.name, a.help),
            err,
        )
    }
}

/// The help listing for the named actions: every name is resolved; the
/// banners of the resolved actions are joined in request order, and the
/// failures, if any, are reported together and the banners discarded.
#[verifier::loop_isolation(false)]
pub fn help_listing(actions: &Vec<Action>, names: &Vec<String>) -> (r: GobiResult<String>)
    requires
        forall|i: int|
            0 <= i < actions@.len() ==> (#[trigger] actions@[i])@.name.len() + 4 <= usize::MAX,
    ensures
        ({
            let folded = help_fold(
                action_views(actions@),
                names@,
                Seq::empty(),
                (0int, Seq::<char>::empty()),
            );
            match r {
                Ok(text) => folded.1.0 == 0 && text@ == folded.0,
                Err(e) => folded.1.0 != 0 && e.code as int == folded.1.0 && e.msg@ == folded.1.1,
            }
        }),
{
    let ghost acts = action_views(actions@);
    let mut text = String::new();
    let mut err = GobiError { code: 0, msg: String::new() };
    let mut i: usize = 0;
    proof {
        assert(names@.skip(0) =~= names@);
    }
    while i < names.len()
        invariant
            i <= names.len(),
            help_fold(acts, names@.skip(i as int), text@, (err.code as int, err.msg@))
                == help_fold(acts, names@, Seq::empty(), (0int, Seq::<char>::empty())),
        decreases names.len() - i,
    {
        proof {
            assert(names@.skip(i as int)[0] == names@[i as int]);
            assert(names@.skip(i as int).drop_first() =~= names@.skip(i as int + 1));
        }
        match find_action_index(names[i].as_str(), actions) {
            Ok(at) => {
                proof {
                    let picked = choose|k: int|
                        crate::recipes::resolution_ok(acts, names@[i as int]@, k);
                    lemma_resolution_unique(acts, names@[i as int]@, at as int, picked);
                    assert(acts[at as int] == chosen_action(acts, names@[i as int]@));
                    reveal_strlit("\n\n");
                }
                text.append("\n\n");
                let banner = help_banner(actions[at].name.as_str(), actions[at].help.as_str());
                text.append(banner.as_str());
            },
            Err(e) => {
                err = err.merge(e);
            },
        }
        i = i + 1;
    }
    proof {
        assert(names@.skip(names@.len() as int) =~= Seq::<String>::empty());
    }
    if err.code != 0 {
        Err(err)
    } else {
        Ok(text)
    }
}

} // verus!
