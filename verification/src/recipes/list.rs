//! The listing action's decisions: which form a listing request selects,
//! and the lines a listing displays. Printing is the caller's work.
use vstd::prelude::*;

use crate::GobiError;
use crate::GobiResult;
use crate::recipes::Action;
use crate::recipes::action_views;
use crate::recipes::get_minimal_names;
use crate::recipes::key_views;
use crate::recipes::minimal_names_spec;
use crate::recipes::sort_by_name;
use crate::recipes::sort_by_name_exec;
use crate::strutil::str_eq;

verus! {

/// How a listing request is read: no argument lists minimal names behind a
/// heading; "porcelain" lists them bare; "full" lists every qualified name;
/// anything else is refused.
#[derive(Debug)]
pub enum ListMode {
    /// Minimal names behind a heading.
    Decorated,
    /// Minimal names, bare.
    Porcelain,
    /// Every qualified name, sorted.
    Full,
}

/// Decide the listing form: none, "porcelain" or "full"; an unknown
/// argument and more than one argument are dedicated errors.
pub fn list_mode(args: &Vec<String>) -> (r: GobiResult<ListMode>)
    ensures
        match r {
            Ok(m) => if args@.len() == 0 {
                m is Decorated
            } else {
                args@.len() == 1 && (m matches ListMode::Porcelain ==> args@[0]@ == "porcelain"@)
                    && (m matches ListMode::Full ==> args@[0]@ == "full"@) && !(m is Decorated)
            },
            Err(e) => e.code == 1 && if args@.len() > 1 {
                e.msg@ == "Too many arguments passed to list action"@
            } else {
                args@.len() == 1 && args@[0]@ != "porcelain"@ && args@[0]@ != "full"@ && e.msg@
                    == "Unknown argument: "@ + args@[0]@
            },
        },
{
    if args.len() == 0 {
        Ok(ListMode::Decorated)
    } else if args.len() == 1 {
        if str_eq(args[0].as_str(), "porcelain") {
            Ok(ListMode::Porcelain)
        } else if str_eq(args[0].as_str(), "full") {
            Ok(ListMode::Full)
        } else {
            let mut msg = "Unknown argument: ".to_owned();
            msg.append(args[0].as_str());
            proof {
                reveal_strlit("Unknown argument: ");
            }
            Err(GobiError { code: 1, msg })
        }
    } else {
        Err(GobiError { code: 1, msg: "Too many arguments passed to list action".to_owned() })
    }
}

/// The qualified names of a listing's entries.
pub open spec fn names_of(s: Seq<crate::recipes::ActionView>) -> Seq<Seq<char>> {
    s.map_values(|a: crate::recipes::ActionView| a.name)
}

/// The displayed names of a minimal listing.
pub open spec fn shown_names(s: Seq<(crate::recipes::ActionView, Seq<char>)>) -> Seq<Seq<char>> {
    s.map_values(|p: (crate::recipes::ActionView, Seq<char>)| p.1)
}

/// The lines a listing displays: with `full`, every qualified name in
/// sorted order; otherwise each action's minimal unambiguous name.
#[verifier::loop_isolation(false)]
pub fn list_lines(actions: &Vec<Action>, full: bool) -> (r: Vec<String>)
    ensures
        key_views(r@) == if full {
            names_of(sort_by_name(action_views(actions@)))
        } else {
            shown_names(minimal_names_spec(action_views(actions@)))
        },
{
    let mut out: Vec<String> = Vec::new();
    if full {
        let sorted = sort_by_name_exec(actions);
        let mut i: usize = 0;
        while i < sorted.len()
            invariant
                i <= sorted.len(),
                out@.len() == i,
                forall|m: int| 0 <= m < i ==> (#[trigger] out@[m])@ == sorted@[m]@.name,
            decreases sorted.len() - i,
        {
            out.push(sorted[i].name.clone());
            i = i + 1;
        }
        proof {
            assert forall|m: int|
                0 <= m < key_views(out@).len() implies key_views(out@)[m] == names_of(
                action_views(sorted@),
            )[m] by {
                assert(key_views(out@)[m] == out@[m]@);
                assert(action_views(sorted@)[m] == sorted@[m]@);
            }
            assert(key_views(out@) =~= names_of(action_views(sorted@)));
        }
    } else {
        let entries = get_minimal_names(actions);
        let mut i: usize = 0;
        while i < entries.len()
            invariant
                i <= entries.len(),
                out@.len() == i,
                forall|m: int| 0 <= m < i ==> (#[trigger] out@[m])@ == entries@[m].1@,
            decreases entries.len() - i,
        {
            out.push(entries[i].1.clone());
            i = i + 1;
        }
        proof {
            assert forall|m: int|
                0 <= m < key_views(out@).len() implies key_views(out@)[m] == shown_names(
                crate::recipes::pair_views(entries@),
            )[m] by {
                assert(key_views(out@)[m] == out@[m]@);
                assert(crate::recipes::pair_views(entries@)[m] == (
                    entries@[m].0@,
                    entries@[m].1@,
                ));
            }
            assert(key_views(out@) =~= shown_names(crate::recipes::pair_views(entries@)));
        }
    }
    out
}

} // verus!
