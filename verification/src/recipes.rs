//! Actions, ambiguity-aware name resolution, the minimal-display-name
//! listing, and the recipe registry with its error-aggregating fan-out.
use vstd::prelude::*;

use crate::GobiError;
use crate::GobiResult;
use crate::strutil::lex_leq;
use crate::strutil::str_eq;
use crate::strutil::str_lex_leq;

pub mod gobi;
pub mod help;
pub mod imports;
pub mod list;
pub mod project_manager;
pub mod sequence;
pub mod shell;
pub mod utils;

verus! {

/// A runnable unit as the resolution engine sees it: a globally unique
/// qualified name, a short display name (the subname, not necessarily
/// unique), a priority flag that breaks subname collisions, and help text.
#[derive(Debug)]
pub struct Action {
    pub name: String,
    pub subname: String,
    pub priority: bool,
    pub help: String,
}

/// Specification-level action.
pub struct ActionView {
    pub name: Seq<char>,
    pub subname: Seq<char>,
    pub priority: bool,
    pub help: Seq<char>,
}

impl View for Action {
    type V = ActionView;

    open spec fn view(&self) -> ActionView {
        ActionView {
            name: self.name@,
            subname: self.subname@,
            priority: self.priority,
            help: self.help@,
        }
    }
}

impl Clone for Action {
    /// A copy with an equal view.
    fn clone(&self) -> (r: Action)
        ensures
            r@ == self@,
    {
        Action {
            name: self.name.clone(),
            subname: self.subname.clone(),
            priority: self.priority,
            help: self.help.clone(),
        }
    }
}

impl Action {
    /// An action with the given names, priority and help text.
    pub fn new(name: String, subname: String, priority: bool, help: String) -> (r: Action)
        ensures
            r@ == (ActionView { name: name@, subname: subname@, priority, help: help@ }),
    {
        Action { name, subname, priority, help }
    }
}

/// The views of a list of actions, in order.
pub open spec fn action_views(s: Seq<Action>) -> Seq<ActionView> {
    s.map_values(|a: Action| a@)
}

/// How many actions carry the queried subname.
pub open spec fn cnt_sub(s: Seq<ActionView>, q: Seq<char>) -> nat
    decreases s.len(),
{
    if s.len() == 0 {
        0
    } else {
        (if s[0].subname == q {
            1nat
        } else {
            0nat
        }) + cnt_sub(s.drop_first(), q)
    }
}

/// How many actions carry the queried subname and the priority flag.
pub open spec fn cnt_sub_pri(s: Seq<ActionView>, q: Seq<char>) -> nat
    decreases s.len(),
{
    if s.len() == 0 {
        0
    } else {
        (if s[0].subname == q && s[0].priority {
            1nat
        } else {
            0nat
        }) + cnt_sub_pri(s.drop_first(), q)
    }
}

/// How many actions carry the queried qualified name.
pub open spec fn cnt_name(s: Seq<ActionView>, q: Seq<char>) -> nat
    decreases s.len(),
{
    if s.len() == 0 {
        0
    } else {
        (if s[0].name == q {
            1nat
        } else {
            0nat
        }) + cnt_name(s.drop_first(), q)
    }
}

/// Counting over one more element adds that element's contribution.
pub proof fn lemma_cnt_push(s: Seq<ActionView>, x: ActionView, q: Seq<char>)
    ensures
        cnt_sub(s.push(x), q) == cnt_sub(s, q) + (if x.subname == q {
            1nat
        } else {
            0nat
        }),
        cnt_sub_pri(s.push(x), q) == cnt_sub_pri(s, q) + (if x.subname == q && x.priority {
            1nat
        } else {
            0nat
        }),
        cnt_name(s.push(x), q) == cnt_name(s, q) + (if x.name == q {
            1nat
        } else {
            0nat
        }),
    decreases s.len(),
{
    if s.len() == 0 {
        assert(s.push(x)[0] == x);
        assert(s.push(x).drop_first() =~= Seq::<ActionView>::empty());
        assert(cnt_sub(s.push(x).drop_first(), q) == 0);
        assert(cnt_sub_pri(s.push(x).drop_first(), q) == 0);
        assert(cnt_name(s.push(x).drop_first(), q) == 0);
    } else {
        lemma_cnt_push(s.drop_first(), x, q);
        assert(s.push(x)[0] == s[0]);
        assert(s.push(x).drop_first() =~= s.drop_first().push(x));
        assert(cnt_sub(s.push(x), q) == (if s[0].subname == q {
            1nat
        } else {
            0nat
        }) + cnt_sub(s.drop_first().push(x), q));
        assert(cnt_sub_pri(s.push(x), q) == (if s[0].subname == q && s[0].priority {
            1nat
        } else {
            0nat
        }) + cnt_sub_pri(s.drop_first().push(x), q));
        assert(cnt_name(s.push(x), q) == (if s[0].name == q {
            1nat
        } else {
            0nat
        }) + cnt_name(s.drop_first().push(x), q));
    }
}

/// The message reported when a query matches more than one action.
pub open spec fn ambiguous_msg(q: Seq<char>) -> Seq<char> {
    "Action "@ + q + " is ambiguous"@
}

/// The message reported when a query matches nothing.
pub open spec fn not_found_msg(q: Seq<char>) -> Seq<char> {
    "Action "@ + q + " not found"@
}

/// What resolving a query against a list of actions must yield, stated of a
/// chosen index `i`: the unique subname match; failing that, the unique
/// priority subname match; failing that, the unique qualified-name match.
pub open spec fn resolution_ok(acts: Seq<ActionView>, q: Seq<char>, i: int) -> bool {
    &&& 0 <= i < acts.len()
    &&& if cnt_sub(acts, q) == 1 {
        acts[i].subname == q
    } else if cnt_sub_pri(acts, q) == 1 {
        acts[i].subname == q && acts[i].priority
    } else {
        cnt_name(acts, q) == 1 && acts[i].name == q
    }
}

/// Whether resolving the query fails, and if so whether as ambiguous (some
/// match set holds several actions) rather than as not found.
pub open spec fn resolution_fails(acts: Seq<ActionView>, q: Seq<char>) -> bool {
    cnt_sub(acts, q) != 1 && cnt_sub_pri(acts, q) != 1 && cnt_name(acts, q) != 1
}

pub open spec fn resolution_ambiguous(acts: Seq<ActionView>, q: Seq<char>) -> bool {
    cnt_sub(acts, q) > 1 || cnt_sub_pri(acts, q) > 1 || cnt_name(acts, q) > 1
}

/// Resolve a user-supplied action name to the position of exactly one
/// action: the unique subname match wins; a unique priority match breaks a
/// subname tie; the unique qualified-name match is the last resort. More
/// than one candidate in every non-empty match set is ambiguous; empty match
/// sets are a distinct not-found failure.
#[verifier::loop_isolation(false)]
pub fn find_action_index(query: &str, actions: &Vec<Action>) -> (r: Result<usize, GobiError>)
    ensures
        match r {
            Ok(i) => resolution_ok(action_views(actions@), query@, i as int),
            Err(e) => resolution_fails(action_views(actions@), query@) && e.code == 1 && e.msg@
                == (if resolution_ambiguous(action_views(actions@), query@) {
                ambiguous_msg(query@)
            } else {
                not_found_msg(query@)
            }),
        },
{
    let ghost acts = action_views(actions@);
    let mut sub_cnt: usize = 0;
    let mut sub_at: usize = 0;
    let mut pri_cnt: usize = 0;
    let mut pri_at: usize = 0;
    let mut name_cnt: usize = 0;
    let mut name_at: usize = 0;
    let mut i: usize = 0;
    proof {
        assert(acts.take(0) =~= Seq::<ActionView>::empty());
    }
    while i < actions.len()
        invariant
            i <= actions.len(),
            sub_cnt == cnt_sub(acts.take(i as int), query@),
            pri_cnt == cnt_sub_pri(acts.take(i as int), query@),
            name_cnt == cnt_name(acts.take(i as int), query@),
            sub_cnt > 0 ==> sub_at < i && acts[sub_at as int].subname == query@,
            pri_cnt > 0 ==> pri_at < i && acts[pri_at as int].subname == query@
                && acts[pri_at as int].priority,
            name_cnt > 0 ==> name_at < i && acts[name_at as int].name == query@,
            sub_cnt <= i && pri_cnt <= i && name_cnt <= i,
        decreases actions.len() - i,
    {
        proof {
            assert(acts.take(i as int + 1) =~= acts.take(i as int).push(acts[i as int]));
            lemma_cnt_push(acts.take(i as int), acts[i as int], query@);
            assert(acts[i as int] == actions@[i as int]@);
        }
        let is_sub = str_eq(actions[i].subname.as_str(), query);
        let is_name = str_eq(actions[i].name.as_str(), query);
        if is_sub {
            if sub_cnt == 0 {
                sub_at = i;
            }
            sub_cnt = sub_cnt + 1;
            if actions[i].priority {
                if pri_cnt == 0 {
                    pri_at = i;
                }
                pri_cnt = pri_cnt + 1;
            }
        }
        if is_name {
            if name_cnt == 0 {
                name_at = i;
            }
            name_cnt = name_cnt + 1;
        }
        i = i + 1;
    }
    proof {
        assert(acts.take(actions@.len() as int) =~= acts);
    }
    if sub_cnt == 1 {
        Ok(sub_at)
    } else if pri_cnt == 1 {
        Ok(pri_at)
    } else if name_cnt == 1 {
        Ok(name_at)
    } else if sub_cnt > 1 || pri_cnt > 1 || name_cnt > 1 {
        let mut msg = "Action ".to_owned();
        msg.append(query);
        msg.append(" is ambiguous");
        proof {
            reveal_strlit("Action ");
            reveal_strlit(" is ambiguous");
        }
        Err(GobiError { code: 1, msg })
    } else {
        let mut msg = "Action ".to_owned();
        msg.append(query);
        msg.append(" not found");
        proof {
            reveal_strlit("Action ");
            reveal_strlit(" not found");
        }
        Err(GobiError { code: 1, msg })
    }
}

/// Resolve a user-supplied action name to exactly one action, as
/// `find_action_index` does, returning a copy of the chosen action.
pub fn find_action(query: &str, actions: &Vec<Action>) -> (r: GobiResult<Action>)
    ensures
        match r {
            Ok(a) => exists|i: int|
                resolution_ok(action_views(actions@), query@, i) && a@ == action_views(actions@)[i],
            Err(e) => resolution_fails(action_views(actions@), query@) && e.code == 1 && e.msg@
                == (if resolution_ambiguous(action_views(actions@), query@) {
                ambiguous_msg(query@)
            } else {
                not_found_msg(query@)
            }),
        },
{
    match find_action_index(query, actions) {
        Ok(i) => {
            let a = actions[i].clone();
            proof {
                assert(resolution_ok(action_views(actions@), query@, i as int) && a@
                    == action_views(actions@)[i as int]);
            }
            Ok(a)
        },
        Err(e) => Err(e),
    }
}


/// Insert an action into a name-sorted sequence, before the first action
/// whose qualified name does not come earlier.
pub open spec fn insert_by_name(a: ActionView, s: Seq<ActionView>) -> Seq<ActionView>
    decreases s.len(),
{
    if s.len() == 0 {
        seq![a]
    } else if lex_leq(a.name, s[0].name) {
        seq![a] + s
    } else {
        seq![s[0]] + insert_by_name(a, s.drop_first())
    }
}

/// Sort actions by qualified name, by repeated insertion.
pub open spec fn sort_by_name(s: Seq<ActionView>) -> Seq<ActionView>
    decreases s.len(),
{
    if s.len() == 0 {
        s
    } else {
        insert_by_name(s[0], sort_by_name(s.drop_first()))
    }
}

/// Insert a subname into a sorted key list.
pub open spec fn insert_key(k: Seq<char>, s: Seq<Seq<char>>) -> Seq<Seq<char>>
    decreases s.len(),
{
    if s.len() == 0 {
        seq![k]
    } else if lex_leq(k, s[0]) {
        seq![k] + s
    } else {
        seq![s[0]] + insert_key(k, s.drop_first())
    }
}

/// Sort subnames, by repeated insertion.
pub open spec fn sort_keys(s: Seq<Seq<char>>) -> Seq<Seq<char>>
    decreases s.len(),
{
    if s.len() == 0 {
        s
    } else {
        insert_key(s[0], sort_keys(s.drop_first()))
    }
}

/// The distinct subnames of a list of actions, first occurrence first,
/// appended to those already collected.
pub open spec fn distinct_from(s: Seq<ActionView>, acc: Seq<Seq<char>>) -> Seq<Seq<char>>
    decreases s.len(),
{
    if s.len() == 0 {
        acc
    } else if acc.contains(s[0].subname) {
        distinct_from(s.drop_first(), acc)
    } else {
        distinct_from(s.drop_first(), acc.push(s[0].subname))
    }
}

/// The actions whose subname is `k`, in encounter order.
pub open spec fn group_of(s: Seq<ActionView>, k: Seq<char>) -> Seq<ActionView>
    decreases s.len(),
{
    if s.len() == 0 {
        Seq::empty()
    } else if s[0].subname == k {
        seq![s[0]] + group_of(s.drop_first(), k)
    } else {
        group_of(s.drop_first(), k)
    }
}

/// The actions of a group that carry the priority flag, in order.
pub open spec fn pri_of(s: Seq<ActionView>) -> Seq<ActionView>
    decreases s.len(),
{
    if s.len() == 0 {
        Seq::empty()
    } else if s[0].priority {
        seq![s[0]] + pri_of(s.drop_first())
    } else {
        pri_of(s.drop_first())
    }
}

/// Each action paired with its qualified name.
pub open spec fn with_names(s: Seq<ActionView>) -> Seq<(ActionView, Seq<char>)> {
    s.map_values(|a: ActionView| (a, a.name))
}

/// What one subname group displays as. A lone priority holder owns the
/// subname; several priority holders are listed under their qualified names,
/// sorted; a group of one owns the subname; otherwise the whole group is
/// listed under qualified names, sorted.
pub open spec fn segment_of(s: Seq<ActionView>, k: Seq<char>) -> Seq<(ActionView, Seq<char>)> {
    let g = group_of(s, k);
    let p = pri_of(g);
    if p.len() == 1 {
        seq![(p[0], k)]
    } else if p.len() > 1 {
        with_names(sort_by_name(p))
    } else if g.len() == 1 {
        seq![(g[0], k)]
    } else {
        with_names(sort_by_name(g))
    }
}

/// The segments of the given subnames, concatenated in order.
pub open spec fn segments(s: Seq<ActionView>, keys: Seq<Seq<char>>) -> Seq<(ActionView, Seq<char>)>
    decreases keys.len(),
{
    if keys.len() == 0 {
        Seq::empty()
    } else {
        segment_of(s, keys[0]) + segments(s, keys.drop_first())
    }
}

/// The full minimal-display-name listing: every action shown under its
/// shortest unambiguous name, grouped by subname, groups in sorted subname
/// order.
pub open spec fn minimal_names_spec(s: Seq<ActionView>) -> Seq<(ActionView, Seq<char>)> {
    segments(s, sort_keys(distinct_from(s, Seq::empty())))
}

/// The views of a listing's entries.
pub open spec fn pair_views(s: Seq<(Action, String)>) -> Seq<(ActionView, Seq<char>)> {
    s.map_values(|p: (Action, String)| (p.0@, p.1@))
}

/// The views of a list of owned strings.
pub open spec fn key_views(s: Seq<String>) -> Seq<Seq<char>> {
    s.map_values(|k: String| k@)
}

/// Grouping over one more element appends it when its subname matches.
proof fn lemma_group_push(s: Seq<ActionView>, x: ActionView, k: Seq<char>)
    ensures
        group_of(s.push(x), k) == if x.subname == k {
            group_of(s, k).push(x)
        } else {
            group_of(s, k)
        },
    decreases s.len(),
{
    if s.len() == 0 {
        assert(s.push(x)[0] == x);
        assert(s.push(x).drop_first() =~= Seq::<ActionView>::empty());
        assert(group_of(s.push(x).drop_first(), k) =~= Seq::<ActionView>::empty());
        if x.subname == k {
            assert(group_of(s.push(x), k) =~= group_of(s, k).push(x));
        }
    } else {
        lemma_group_push(s.drop_first(), x, k);
        assert(s.push(x)[0] == s[0]);
        assert(s.push(x).drop_first() =~= s.drop_first().push(x));
        if s[0].subname == k {
            if x.subname == k {
                assert(seq![s[0]] + group_of(s.drop_first(), k).push(x) =~= (seq![s[0]] + group_of(
                    s.drop_first(),
                    k,
                )).push(x));
            }
        }
    }
}

/// Priority filtering over one more element appends it when it has priority.
proof fn lemma_pri_push(s: Seq<ActionView>, x: ActionView)
    ensures
        pri_of(s.push(x)) == if x.priority {
            pri_of(s).push(x)
        } else {
            pri_of(s)
        },
    decreases s.len(),
{
    if s.len() == 0 {
        assert(s.push(x)[0] == x);
        assert(s.push(x).drop_first() =~= Seq::<ActionView>::empty());
        assert(pri_of(s.push(x).drop_first()) =~= Seq::<ActionView>::empty());
        if x.priority {
            assert(pri_of(s.push(x)) =~= pri_of(s).push(x));
        }
    } else {
        lemma_pri_push(s.drop_first(), x);
        assert(s.push(x)[0] == s[0]);
        assert(s.push(x).drop_first() =~= s.drop_first().push(x));
        if s[0].priority {
            if x.priority {
                assert(seq![s[0]] + pri_of(s.drop_first()).push(x) =~= (seq![s[0]] + pri_of(
                    s.drop_first(),
                )).push(x));
            }
        }
    }
}

/// Where `j` is the first position not strictly earlier than the inserted
/// name, insertion places the action exactly there.
proof fn lemma_insert_by_name_at(a: ActionView, s: Seq<ActionView>, j: int)
    requires
        0 <= j <= s.len(),
        forall|m: int| 0 <= m < j ==> !lex_leq(a.name, (#[trigger] s[m]).name),
        j < s.len() ==> lex_leq(a.name, s[j].name),
    ensures
        insert_by_name(a, s) == s.take(j) + seq![a] + s.skip(j),
    decreases j,
{
    if j == 0 {
        if s.len() == 0 {
            assert(insert_by_name(a, s) =~= s.take(0) + seq![a] + s.skip(0));
        } else {
            assert(insert_by_name(a, s) =~= s.take(0) + seq![a] + s.skip(0));
        }
    } else {
        lemma_insert_by_name_at(a, s.drop_first(), j - 1);
        assert(s.drop_first().take(j - 1) =~= s.take(j).drop_first());
        assert(s.drop_first().skip(j - 1) =~= s.skip(j));
        assert(seq![s[0]] + (s.drop_first().take(j - 1) + seq![a] + s.drop_first().skip(j - 1))
            =~= s.take(j) + seq![a] + s.skip(j));
    }
}

/// The same placement fact for subname keys.
proof fn lemma_insert_key_at(k: Seq<char>, s: Seq<Seq<char>>, j: int)
    requires
        0 <= j <= s.len(),
        forall|m: int| 0 <= m < j ==> !lex_leq(k, #[trigger] s[m]),
        j < s.len() ==> lex_leq(k, s[j]),
    ensures
        insert_key(k, s) == s.take(j) + seq![k] + s.skip(j),
    decreases j,
{
    if j == 0 {
        assert(insert_key(k, s) =~= s.take(0) + seq![k] + s.skip(0));
    } else {
        lemma_insert_key_at(k, s.drop_first(), j - 1);
        assert(s.drop_first().take(j - 1) =~= s.take(j).drop_first());
        assert(s.drop_first().skip(j - 1) =~= s.skip(j));
        assert(seq![s[0]] + (s.drop_first().take(j - 1) + seq![k] + s.drop_first().skip(j - 1))
            =~= s.take(j) + seq![k] + s.skip(j));
    }
}

/// Insert an action into a name-sorted vector, matching `insert_by_name`.
#[verifier::loop_isolation(false)]
fn insert_by_name_exec(a: Action, v: &mut Vec<Action>)
    ensures
        action_views(final(v)@) == insert_by_name(a@, action_views(old(v)@)),
{
    let ghost s = action_views(v@);
    let mut j: usize = 0;
    while j < v.len()
        invariant
            v@ == old(v)@,
            j <= v.len(),
            forall|m: int| 0 <= m < j ==> !lex_leq(a@.name, (#[trigger] v@[m])@.name),
        decreases v.len() - j,
    {
        if str_lex_leq(a.name.as_str(), v[j].name.as_str()) {
            proof {
                assert forall|m: int| 0 <= m < j implies !lex_leq(a@.name, (#[trigger] s[m]).name) by {
                    assert(s[m] == v@[m]@);
                }
                assert(s[j as int] == v@[j as int]@);
                lemma_insert_by_name_at(a@, s, j as int);
            }
            let ghost before = v@;
            v.insert(j, a);
            proof {
                assert(action_views(v@) =~= s.take(j as int) + seq![a@] + s.skip(j as int));
            }
            return ;
        }
        j = j + 1;
    }
    proof {
        assert forall|m: int| 0 <= m < s.len() implies !lex_leq(a@.name, (#[trigger] s[m]).name) by {
            assert(s[m] == v@[m]@);
        }
        lemma_insert_by_name_at(a@, s, s.len() as int);
    }
    v.push(a);
    proof {
        assert(action_views(v@) =~= s.take(s.len() as int) + seq![a@] + s.skip(s.len() as int));
    }
}

/// Insert a subname into a sorted key vector, matching `insert_key`.
#[verifier::loop_isolation(false)]
fn insert_key_exec(k: String, v: &mut Vec<String>)
    ensures
        key_views(final(v)@) == insert_key(k@, key_views(old(v)@)),
{
    let ghost s = key_views(v@);
    let mut j: usize = 0;
    while j < v.len()
        invariant
            v@ == old(v)@,
            j <= v.len(),
            forall|m: int| 0 <= m < j ==> !lex_leq(k@, (#[trigger] v@[m])@),
        decreases v.len() - j,
    {
        if str_lex_leq(k.as_str(), v[j].as_str()) {
            proof {
                assert forall|m: int| 0 <= m < j implies !lex_leq(k@, #[trigger] s[m]) by {
                    assert(s[m] == v@[m]@);
                }
                assert(s[j as int] == v@[j as int]@);
                lemma_insert_key_at(k@, s, j as int);
            }
            v.insert(j, k);
            proof {
                assert(key_views(v@) =~= s.take(j as int) + seq![k@] + s.skip(j as int));
            }
            return ;
        }
        j = j + 1;
    }
    proof {
        assert forall|m: int| 0 <= m < s.len() implies !lex_leq(k@, #[trigger] s[m]) by {
            assert(s[m] == v@[m]@);
        }
        lemma_insert_key_at(k@, s, s.len() as int);
    }
    v.push(k);
    proof {
        assert(key_views(v@) =~= s.take(s.len() as int) + seq![k@] + s.skip(s.len() as int));
    }
}

/// Whether some collected key holds the same characters as `s`.
#[verifier::loop_isolation(false)]
fn keys_contain(v: &Vec<String>, s: &str) -> (r: bool)
    ensures
        r == key_views(v@).contains(s@),
{
    let mut j: usize = 0;
    while j < v.len()
        invariant
            j <= v.len(),
            forall|m: int| 0 <= m < j ==> (#[trigger] v@[m])@ != s@,
        decreases v.len() - j,
    {
        if str_eq(v[j].as_str(), s) {
            proof {
                assert(key_views(v@)[j as int] == s@);
            }
            return true;
        }
        j = j + 1;
    }
    proof {
        assert forall|m: int| 0 <= m < key_views(v@).len() implies #[trigger] key_views(v@)[m]
            != s@ by {
            assert(key_views(v@)[m] == v@[m]@);
        }
    }
    false
}

/// The actions of one subname group, in encounter order.
#[verifier::loop_isolation(false)]
fn collect_group(actions: &Vec<Action>, k: &str) -> (r: Vec<Action>)
    ensures
        action_views(r@) == group_of(action_views(actions@), k@),
{
    let ghost acts = action_views(actions@);
    let mut out: Vec<Action> = Vec::new();
    let mut i: usize = 0;
    proof {
        assert(acts.take(0) =~= Seq::<ActionView>::empty());
        assert(action_views(out@) =~= group_of(acts.take(0), k@));
    }
    while i < actions.len()
        invariant
            i <= actions.len(),
            action_views(out@) == group_of(acts.take(i as int), k@),
        decreases actions.len() - i,
    {
        proof {
            assert(acts.take(i as int + 1) =~= acts.take(i as int).push(acts[i as int]));
            lemma_group_push(acts.take(i as int), acts[i as int], k@);
            assert(acts[i as int] == actions@[i as int]@);
        }
        if str_eq(actions[i].subname.as_str(), k) {
            out.push(actions[i].clone());
            proof {
                assert(action_views(out@) =~= group_of(acts.take(i as int), k@).push(
                    acts[i as int],
                ));
            }
        }
        i = i + 1;
    }
    proof {
        assert(acts.take(actions@.len() as int) =~= acts);
    }
    out
}

/// The priority holders of a group, in order.
#[verifier::loop_isolation(false)]
fn collect_priority(group: &Vec<Action>) -> (r: Vec<Action>)
    ensures
        action_views(r@) == pri_of(action_views(group@)),
{
    let ghost g = action_views(group@);
    let mut out: Vec<Action> = Vec::new();
    let mut i: usize = 0;
    proof {
        assert(g.take(0) =~= Seq::<ActionView>::empty());
        assert(action_views(out@) =~= pri_of(g.take(0)));
    }
    while i < group.len()
        invariant
            i <= group.len(),
            action_views(out@) == pri_of(g.take(i as int)),
        decreases group.len() - i,
    {
        proof {
            assert(g.take(i as int + 1) =~= g.take(i as int).push(g[i as int]));
            lemma_pri_push(g.take(i as int), g[i as int]);
            assert(g[i as int] == group@[i as int]@);
        }
        if group[i].priority {
            out.push(group[i].clone());
            proof {
                assert(action_views(out@) =~= pri_of(g.take(i as int)).push(g[i as int]));
            }
        }
        i = i + 1;
    }
    proof {
        assert(g.take(group@.len() as int) =~= g);
    }
    out
}

/// Sort actions by qualified name, matching `sort_by_name`.
#[verifier::loop_isolation(false)]
pub(crate) fn sort_by_name_exec(v: &Vec<Action>) -> (r: Vec<Action>)
    ensures
        action_views(r@) == sort_by_name(action_views(v@)),
{
    let ghost s = action_views(v@);
    let mut out: Vec<Action> = Vec::new();
    let mut i: usize = v.len();
    proof {
        assert(s.skip(v@.len() as int) =~= Seq::<ActionView>::empty());
        assert(action_views(out@) =~= sort_by_name(s.skip(v@.len() as int)));
    }
    while i > 0
        invariant
            i <= v.len(),
            action_views(out@) == sort_by_name(s.skip(i as int)),
        decreases i,
    {
        i = i - 1;
        proof {
            assert(s.skip(i as int)[0] == s[i as int]);
            assert(s.skip(i as int).drop_first() =~= s.skip(i as int + 1));
            assert(s[i as int] == v@[i as int]@);
        }
        insert_by_name_exec(v[i].clone(), &mut out);
    }
    proof {
        assert(s.skip(0) =~= s);
    }
    out
}

/// Sort subnames, matching `sort_keys`.
#[verifier::loop_isolation(false)]
fn sort_keys_exec(v: Vec<String>) -> (r: Vec<String>)
    ensures
        key_views(r@) == sort_keys(key_views(v@)),
{
    let ghost s = key_views(v@);
    let mut out: Vec<String> = Vec::new();
    let mut i: usize = v.len();
    proof {
        assert(s.skip(v@.len() as int) =~= Seq::<Seq<char>>::empty());
        assert(key_views(out@) =~= sort_keys(s.skip(v@.len() as int)));
    }
    while i > 0
        invariant
            i <= v.len(),
            key_views(out@) == sort_keys(s.skip(i as int)),
        decreases i,
    {
        i = i - 1;
        proof {
            assert(s.skip(i as int)[0] == s[i as int]);
            assert(s.skip(i as int).drop_first() =~= s.skip(i as int + 1));
            assert(s[i as int] == v@[i as int]@);
        }
        insert_key_exec(v[i].clone(), &mut out);
    }
    proof {
        assert(s.skip(0) =~= s);
    }
    out
}

/// The display entries of one subname group, matching `segment_of`.
fn segment_exec(actions: &Vec<Action>, k: &String) -> (r: Vec<(Action, String)>)
    ensures
        pair_views(r@) == segment_of(action_views(actions@), k@),
{
    let group = collect_group(actions, k.as_str());
    let pri = collect_priority(&group);
    let ghost g = group_of(action_views(actions@), k@);
    let ghost p = pri_of(g);
    if pri.len() == 1 {
        let mut out: Vec<(Action, String)> = Vec::new();
        let a = pri[0].clone();
        out.push((a, k.clone()));
        proof {
            assert(action_views(pri@)[0] == pri@[0]@);
            assert(pair_views(out@) =~= seq![(p[0], k@)]);
        }
        out
    } else if pri.len() > 1 {
        let sorted = sort_by_name_exec(&pri);
        let out = pairs_with_names(&sorted);
        proof {
            assert(pair_views(out@) =~= with_names(sort_by_name(p)));
        }
        out
    } else if group.len() == 1 {
        let mut out: Vec<(Action, String)> = Vec::new();
        let a = group[0].clone();
        out.push((a, k.clone()));
        proof {
            assert(action_views(group@)[0] == group@[0]@);
            assert(pair_views(out@) =~= seq![(g[0], k@)]);
        }
        out
    } else {
        let sorted = sort_by_name_exec(&group);
        let out = pairs_with_names(&sorted);
        proof {
            assert(pair_views(out@) =~= with_names(sort_by_name(g)));
        }
        out
    }
}

/// Each action paired with a copy of its qualified name.
#[verifier::loop_isolation(false)]
fn pairs_with_names(v: &Vec<Action>) -> (r: Vec<(Action, String)>)
    ensures
        pair_views(r@) == with_names(action_views(v@)),
{
    let mut out: Vec<(Action, String)> = Vec::new();
    let mut i: usize = 0;
    while i < v.len()
        invariant
            i <= v.len(),
            out@.len() == i,
            forall|m: int|
                0 <= m < i ==> (#[trigger] out@[m]).0@ == v@[m]@ && out@[m].1@ == v@[m]@.name,
        decreases v.len() - i,
    {
        let name = v[i].name.clone();
        out.push((v[i].clone(), name));
        i = i + 1;
    }
    proof {
        assert forall|m: int|
            0 <= m < pair_views(out@).len() implies pair_views(out@)[m] == with_names(
            action_views(v@),
        )[m] by {
            assert(pair_views(out@)[m] == (out@[m].0@, out@[m].1@));
            assert(action_views(v@)[m] == v@[m]@);
        }
        assert(pair_views(out@) =~= with_names(action_views(v@)));
    }
    out
}

/// The minimal-display-name listing: every action under its shortest
/// unambiguous name, grouped by subname; a lone priority holder owns a
/// contested subname; contested groups fall back to sorted qualified names;
/// groups are listed in sorted subname order.
#[verifier::loop_isolation(false)]
pub fn get_minimal_names(actions: &Vec<Action>) -> (r: Vec<(Action, String)>)
    ensures
        pair_views(r@) == minimal_names_spec(action_views(actions@)),
{
    let ghost acts = action_views(actions@);
    let mut keys: Vec<String> = Vec::new();
    let mut i: usize = 0;
    proof {
        assert(acts.skip(0) =~= acts);
        assert(key_views(keys@) =~= Seq::<Seq<char>>::empty());
    }
    while i < actions.len()
        invariant
            i <= actions.len(),
            distinct_from(acts.skip(i as int), key_views(keys@)) == distinct_from(
                acts,
                Seq::empty(),
            ),
        decreases actions.len() - i,
    {
        proof {
            assert(acts.skip(i as int)[0] == acts[i as int]);
            assert(acts.skip(i as int).drop_first() =~= acts.skip(i as int + 1));
            assert(acts[i as int] == actions@[i as int]@);
        }
        if !keys_contain(&keys, actions[i].subname.as_str()) {
            let ghost before = key_views(keys@);
            keys.push(actions[i].subname.clone());
            proof {
                assert(key_views(keys@) =~= before.push(acts[i as int].subname));
            }
        }
        i = i + 1;
    }
    proof {
        assert(acts.skip(actions@.len() as int) =~= Seq::<ActionView>::empty());
    }
    let sorted_keys = sort_keys_exec(keys);
    let ghost sk = sort_keys(distinct_from(acts, Seq::empty()));
    let mut out: Vec<(Action, String)> = Vec::new();
    let mut t: usize = 0;
    proof {
        assert(sk.skip(0) =~= sk);
        assert(pair_views(out@) =~= Seq::<(ActionView, Seq<char>)>::empty());
        assert(segments(acts, sk) == pair_views(out@) + segments(acts, sk.skip(0)));
    }
    while t < sorted_keys.len()
        invariant
            t <= sorted_keys.len(),
            key_views(sorted_keys@) == sk,
            segments(acts, sk) == pair_views(out@) + segments(acts, sk.skip(t as int)),
        decreases sorted_keys.len() - t,
    {
        proof {
            assert(sk.skip(t as int)[0] == sk[t as int]);
            assert(sk.skip(t as int).drop_first() =~= sk.skip(t as int + 1));
            assert(sk[t as int] == sorted_keys@[t as int]@);
        }
        let mut seg = segment_exec(actions, &sorted_keys[t]);
        let ghost out_before = pair_views(out@);
        let ghost seg_view = pair_views(seg@);
        let mut u: usize = 0;
        while u < seg.len()
            invariant
                u <= seg@.len(),
                seg_view == pair_views(seg@),
                seg@.len() == seg_view.len(),
                pair_views(out@) == out_before + seg_view.take(u as int),
            decreases seg.len() - u,
        {
            let entry_action = seg[u].0.clone();
            let entry_name = seg[u].1.clone();
            let ghost prev = out@;
            out.push((entry_action, entry_name));
            proof {
                assert(pair_views(seg@)[u as int] == (seg@[u as int].0@, seg@[u as int].1@));
                assert(seg_view.take(u as int + 1) =~= seg_view.take(u as int).push(
                    seg_view[u as int],
                ));
                assert forall|m: int|
                    0 <= m < pair_views(out@).len() implies pair_views(out@)[m] == (out_before
                    + seg_view.take(u as int + 1))[m] by {
                    assert(pair_views(out@)[m] == (out@[m].0@, out@[m].1@));
                    if m < prev.len() {
                        assert(out@[m] == prev[m]);
                        assert(pair_views(prev)[m] == (prev[m].0@, prev[m].1@));
                    } else {
                        assert(out@[m] == (entry_action, entry_name));
                    }
                }
                assert(pair_views(out@) =~= out_before + seg_view.take(u as int + 1));
            }
            u = u + 1;
        }
        proof {
            assert(seg_view.take(seg@.len() as int) =~= seg_view);
            assert(pair_views(out@) =~= out_before + segment_of(acts, sk[t as int]));
            assert(out_before + segment_of(acts, sk[t as int]) + segments(acts, sk.skip(t as int + 1))
                =~= out_before + (segment_of(acts, sk[t as int]) + segments(
                acts,
                sk.skip(t as int + 1),
            )));
        }
        t = t + 1;
    }
    proof {
        assert(sk.skip(sorted_keys@.len() as int) =~= Seq::<Seq<char>>::empty());
        assert(pair_views(out@) + Seq::<(ActionView, Seq<char>)>::empty() =~= pair_views(out@));
    }
    out
}


/// A recipe as the registry sees it: its unique name and its help text.
/// What a recipe does — inspecting a document and emitting actions — is the
/// work of its implementation outside this registry; the fan-out collects
/// those results through `RecipeManager::create_actions`.
#[derive(Debug)]
pub struct Recipe {
    pub name: String,
    pub help: String,
}

/// Specification-level recipe.
pub struct RecipeView {
    pub name: Seq<char>,
    pub help: Seq<char>,
}

impl View for Recipe {
    type V = RecipeView;

    open spec fn view(&self) -> RecipeView {
        RecipeView { name: self.name@, help: self.help@ }
    }
}

impl Clone for Recipe {
    /// A copy with an equal view.
    fn clone(&self) -> (r: Recipe)
        ensures
            r@ == self@,
    {
        Recipe { name: self.name.clone(), help: self.help.clone() }
    }
}

/// The views of a recipe list, in order.
pub open spec fn recipe_views(s: Seq<Recipe>) -> Seq<RecipeView> {
    s.map_values(|r: Recipe| r@)
}

/// Replace the first recipe registered under the name, or append one.
pub open spec fn reg_put(s: Seq<RecipeView>, r: RecipeView) -> Seq<RecipeView>
    decreases s.len(),
{
    if s.len() == 0 {
        seq![r]
    } else if s[0].name == r.name {
        seq![r] + s.drop_first()
    } else {
        seq![s[0]] + reg_put(s.drop_first(), r)
    }
}

/// The first recipe registered under the name, if any.
pub open spec fn reg_get(s: Seq<RecipeView>, name: Seq<char>) -> Option<RecipeView>
    decreases s.len(),
{
    if s.len() == 0 {
        None
    } else if s[0].name == name {
        Some(s[0])
    } else {
        reg_get(s.drop_first(), name)
    }
}

/// Where `j` is the first position holding the name, `reg_put` replaces it.
proof fn lemma_reg_put_at(s: Seq<RecipeView>, r: RecipeView, j: int)
    requires
        0 <= j < s.len(),
        s[j].name == r.name,
        forall|m: int| 0 <= m < j ==> (#[trigger] s[m]).name != r.name,
    ensures
        reg_put(s, r) =~= s.update(j, r),
    decreases j,
{
    if j > 0 {
        lemma_reg_put_at(s.drop_first(), r, j - 1);
        assert(reg_put(s, r) =~= seq![s[0]] + s.drop_first().update(j - 1, r));
    }
}

/// Where no position holds the name, `reg_put` appends.
proof fn lemma_reg_put_absent(s: Seq<RecipeView>, r: RecipeView)
    requires
        forall|m: int| 0 <= m < s.len() ==> (#[trigger] s[m]).name != r.name,
    ensures
        reg_put(s, r) =~= s.push(r),
    decreases s.len(),
{
    if s.len() > 0 {
        lemma_reg_put_absent(s.drop_first(), r);
        assert(reg_put(s, r) =~= seq![s[0]] + s.drop_first().push(r));
    }
}

/// Where `j` is the first position holding the name, `reg_get` returns it.
proof fn lemma_reg_get_at(s: Seq<RecipeView>, name: Seq<char>, j: int)
    requires
        0 <= j < s.len(),
        s[j].name == name,
        forall|m: int| 0 <= m < j ==> (#[trigger] s[m]).name != name,
    ensures
        reg_get(s, name) == Some(s[j]),
    decreases j,
{
    if j > 0 {
        lemma_reg_get_at(s.drop_first(), name, j - 1);
    }
}

/// Where no position holds the name, `reg_get` returns nothing.
proof fn lemma_reg_get_none(s: Seq<RecipeView>, name: Seq<char>)
    requires
        forall|m: int| 0 <= m < s.len() ==> (#[trigger] s[m]).name != name,
    ensures
        reg_get(s, name) is None,
    decreases s.len(),
{
    if s.len() > 0 {
        lemma_reg_get_none(s.drop_first(), name);
    }
}

/// The name-keyed recipe registry. Entries are kept in registration order
/// with unique names; registering an already-known name overwrites silently.
#[derive(Debug)]
pub struct RecipeManager {
    pub known_recipes: Vec<Recipe>,
}

/// No two registered recipes share a name.
pub open spec fn registry_wf(s: Seq<RecipeView>) -> bool {
    forall|i: int, j: int| 0 <= i < j < s.len() ==> (#[trigger] s[i]).name != (#[trigger] s[j]).name
}

impl RecipeManager {
    /// An empty registry.
    pub fn new() -> (r: RecipeManager)
        ensures
            r.known_recipes@.len() == 0,
            registry_wf(recipe_views(r.known_recipes@)),
    {
        RecipeManager { known_recipes: Vec::new() }
    }

    /// Register a recipe under its name, silently overwriting a recipe
    /// already registered under the same name.
    #[verifier::loop_isolation(false)]
    pub fn register_recipe(&mut self, recipe: Recipe)
        ensures
            recipe_views(final(self).known_recipes@) == reg_put(
                recipe_views(old(self).known_recipes@),
                recipe@,
            ),
            registry_wf(recipe_views(old(self).known_recipes@)) ==> registry_wf(
                recipe_views(final(self).known_recipes@),
            ),
    {
        let ghost s = recipe_views(self.known_recipes@);
        let mut j: usize = 0;
        while j < self.known_recipes.len()
            invariant
                self.known_recipes@ == old(self).known_recipes@,
                j <= self.known_recipes.len(),
                forall|m: int| 0 <= m < j ==> (#[trigger] self.known_recipes@[m])@.name != recipe@.name,
            decreases self.known_recipes.len() - j,
        {
            if str_eq(self.known_recipes[j].name.as_str(), recipe.name.as_str()) {
                proof {
                    assert forall|m: int| 0 <= m < j implies (#[trigger] s[m]).name
                        != recipe@.name by {
                        assert(s[m] == self.known_recipes@[m]@);
                    }
                    assert(s[j as int] == self.known_recipes@[j as int]@);
                    lemma_reg_put_at(s, recipe@, j as int);
                }
                let ghost before = self.known_recipes@;
                self.known_recipes[j] = recipe;
                proof {
                    assert forall|m: int|
                        0 <= m < recipe_views(self.known_recipes@).len() implies recipe_views(
                        self.known_recipes@,
                    )[m] == s.update(j as int, recipe@)[m] by {
                        assert(recipe_views(self.known_recipes@)[m] == self.known_recipes@[m]@);
                        if m != j {
                            assert(self.known_recipes@[m] == before[m]);
                            assert(s[m] == before[m]@);
                        }
                    }
                    assert(recipe_views(self.known_recipes@) =~= s.update(j as int, recipe@));
                }
                return ;
            }
            j = j + 1;
        }
        proof {
            assert forall|m: int| 0 <= m < s.len() implies (#[trigger] s[m]).name
                != recipe@.name by {
                assert(s[m] == self.known_recipes@[m]@);
            }
            lemma_reg_put_absent(s, recipe@);
        }
        let ghost before = self.known_recipes@;
        self.known_recipes.push(recipe);
        proof {
            assert forall|m: int|
                0 <= m < recipe_views(self.known_recipes@).len() implies recipe_views(
                self.known_recipes@,
            )[m] == s.push(recipe@)[m] by {
                assert(recipe_views(self.known_recipes@)[m] == self.known_recipes@[m]@);
                if m < before.len() {
                    assert(self.known_recipes@[m] == before[m]);
                    assert(s[m] == before[m]@);
                }
            }
            assert(recipe_views(self.known_recipes@) =~= s.push(recipe@));
        }
    }

    /// The recipe registered under the name, if any.
    #[verifier::loop_isolation(false)]
    pub fn get_recipe(&self, name: &str) -> (r: Option<Recipe>)
        ensures
            match r {
                Some(rec) => reg_get(recipe_views(self.known_recipes@), name@) == Some(rec@),
                None => reg_get(recipe_views(self.known_recipes@), name@) is None,
            },
    {
        let ghost s = recipe_views(self.known_recipes@);
        let mut j: usize = 0;
        while j < self.known_recipes.len()
            invariant
                j <= self.known_recipes.len(),
                forall|m: int| 0 <= m < j ==> (#[trigger] self.known_recipes@[m])@.name != name@,
            decreases self.known_recipes.len() - j,
        {
            if str_eq(self.known_recipes[j].name.as_str(), name) {
                proof {
                    assert forall|m: int| 0 <= m < j implies (#[trigger] s[m]).name != name@ by {
                        assert(s[m] == self.known_recipes@[m]@);
                    }
                    assert(s[j as int] == self.known_recipes@[j as int]@);
                    lemma_reg_get_at(s, name@, j as int);
                }
                return Some(self.known_recipes[j].clone());
            }
            j = j + 1;
        }
        proof {
            assert forall|m: int| 0 <= m < s.len() implies (#[trigger] s[m]).name != name@ by {
                assert(s[m] == self.known_recipes@[m]@);
            }
            lemma_reg_get_none(s, name@);
        }
        None
    }

    /// The registered recipes, in registration order.
    pub fn recipes(&self) -> (r: &Vec<Recipe>)
        ensures
            r@ == self.known_recipes@,
    {
        &self.known_recipes
    }

    /// Combine what every recipe contributed for one document: each entry of
    /// `results` is one recipe's outcome. Under the accumulate-never-
    /// short-circuit discipline, every outcome is examined; if any recipe
    /// failed, the merged report of all failures is returned and every
    /// contributed action is discarded; otherwise the actions are returned,
    /// concatenated in the order given.
    #[verifier::loop_isolation(false)]
    pub fn create_actions(results: Vec<GobiResult<Vec<Action>>>) -> (r: GobiResult<Vec<Action>>)
        ensures
            ({
                let folded = collect_actions_spec(
                    results@,
                    Seq::empty(),
                    (0int, Seq::<char>::empty()),
                );
                match r {
                    Ok(vs) => folded.1.0 == 0 && vs@ == folded.0,
                    Err(e) => folded.1.0 != 0 && e.code as int == folded.1.0 && e.msg@
                        == folded.1.1,
                }
            }),
    {
        let ghost orig = results@;
        let mut rest = results;
        let mut actions: Vec<Action> = Vec::new();
        let mut err = GobiError { code: 0, msg: String::new() };
        let ghost mut i: int = 0;
        proof {
            assert(orig.skip(0) =~= orig);
            assert(actions@ =~= Seq::<Action>::empty());
        }
        while rest.len() > 0
            invariant
                0 <= i <= orig.len(),
                rest@ == orig.skip(i),
                collect_actions_spec(orig.skip(i), actions@, (err.code as int, err.msg@))
                    == collect_actions_spec(orig, Seq::empty(), (0int, Seq::<char>::empty())),
            decreases rest@.len(),
        {
            proof {
                assert(orig.skip(i)[0] == orig[i]);
                assert(orig.skip(i).drop_first() =~= orig.skip(i + 1));
            }
            let item = rest.remove(0);
            proof {
                assert(rest@ =~= orig.skip(i + 1));
            }
            match item {
                Ok(mut vs) => {
                    actions.append(&mut vs);
                },
                Err(e) => {
                    err = err.merge(e);
                },
            }
            proof {
                i = i + 1;
            }
        }
        proof {
            assert(orig.skip(i) =~= Seq::<GobiResult<Vec<Action>>>::empty());
        }
        if err.code != 0 {
            Err(err)
        } else {
            Ok(actions)
        }
    }
}

/// Left fold of recipe outcomes: contributed actions are concatenated in
/// order, failures are merged into one aggregate report.
pub open spec fn collect_actions_spec(
    results: Seq<GobiResult<Vec<Action>>>,
    acc: Seq<Action>,
    err: (int, Seq<char>),
) -> (Seq<Action>, (int, Seq<char>))
    decreases results.len(),
{
    if results.len() == 0 {
        (acc, err)
    } else {
        match results[0] {
            Ok(vs) => collect_actions_spec(results.drop_first(), acc + vs@, err),
            Err(e) => collect_actions_spec(
                results.drop_first(),
                acc,
                crate::merge_spec(err, (e.code as int, e.msg@)),
            ),
        }
    }
}


/// A subname match at two positions means the subname count is at least two.
proof fn lemma_cnt_sub_two(s: Seq<ActionView>, q: Seq<char>, i: int, j: int)
    requires
        0 <= i < j < s.len(),
        s[i].subname == q,
        s[j].subname == q,
    ensures
        cnt_sub(s, q) >= 2,
    decreases s.len(),
{
    if i == 0 {
        lemma_cnt_sub_one(s.drop_first(), q, j - 1);
    } else {
        lemma_cnt_sub_two(s.drop_first(), q, i - 1, j - 1);
    }
}

/// A subname match at one position means the subname count is at least one.
proof fn lemma_cnt_sub_one(s: Seq<ActionView>, q: Seq<char>, i: int)
    requires
        0 <= i < s.len(),
        s[i].subname == q,
    ensures
        cnt_sub(s, q) >= 1,
    decreases s.len(),
{
    if i > 0 {
        lemma_cnt_sub_one(s.drop_first(), q, i - 1);
    }
}

/// A priority subname match at two positions means that count is at least two.
proof fn lemma_cnt_sub_pri_two(s: Seq<ActionView>, q: Seq<char>, i: int, j: int)
    requires
        0 <= i < j < s.len(),
        s[i].subname == q && s[i].priority,
        s[j].subname == q && s[j].priority,
    ensures
        cnt_sub_pri(s, q) >= 2,
    decreases s.len(),
{
    if i == 0 {
        lemma_cnt_sub_pri_one(s.drop_first(), q, j - 1);
    } else {
        lemma_cnt_sub_pri_two(s.drop_first(), q, i - 1, j - 1);
    }
}

proof fn lemma_cnt_sub_pri_one(s: Seq<ActionView>, q: Seq<char>, i: int)
    requires
        0 <= i < s.len(),
        s[i].subname == q && s[i].priority,
    ensures
        cnt_sub_pri(s, q) >= 1,
    decreases s.len(),
{
    if i > 0 {
        lemma_cnt_sub_pri_one(s.drop_first(), q, i - 1);
    }
}

/// A qualified-name match at two positions means that count is at least two.
proof fn lemma_cnt_name_two(s: Seq<ActionView>, q: Seq<char>, i: int, j: int)
    requires
        0 <= i < j < s.len(),
        s[i].name == q,
        s[j].name == q,
    ensures
        cnt_name(s, q) >= 2,
    decreases s.len(),
{
    if i == 0 {
        lemma_cnt_name_one(s.drop_first(), q, j - 1);
    } else {
        lemma_cnt_name_two(s.drop_first(), q, i - 1, j - 1);
    }
}

proof fn lemma_cnt_name_one(s: Seq<ActionView>, q: Seq<char>, i: int)
    requires
        0 <= i < s.len(),
        s[i].name == q,
    ensures
        cnt_name(s, q) >= 1,
    decreases s.len(),
{
    if i > 0 {
        lemma_cnt_name_one(s.drop_first(), q, i - 1);
    }
}

/// Resolution selects one action: any two positions that satisfy it hold
/// the same action.
pub proof fn lemma_resolution_unique(acts: Seq<ActionView>, q: Seq<char>, i: int, j: int)
    requires
        resolution_ok(acts, q, i),
        resolution_ok(acts, q, j),
    ensures
        acts[i] == acts[j],
{
    if i != j {
        let (lo, hi) = if i < j {
            (i, j)
        } else {
            (j, i)
        };
        if cnt_sub(acts, q) == 1 {
            lemma_cnt_sub_two(acts, q, lo, hi);
        } else if cnt_sub_pri(acts, q) == 1 {
            lemma_cnt_sub_pri_two(acts, q, lo, hi);
        } else {
            lemma_cnt_name_two(acts, q, lo, hi);
        }
        assert(false);
    }
}

/// The action a query resolves to, where resolution succeeds.
pub open spec fn chosen_action(acts: Seq<ActionView>, q: Seq<char>) -> ActionView {
    acts[choose|i: int| resolution_ok(acts, q, i)]
}


/// Actions in qualified-name order.
pub open spec fn sorted_by_qualified(s: Seq<ActionView>) -> bool {
    forall|i: int, j: int|
        0 <= i < j < s.len() ==> lex_leq((#[trigger] s[i]).name, (#[trigger] s[j]).name)
}

/// Every element of an insertion's result is the inserted action or one of
/// the sequence's own.
proof fn lemma_insert_by_name_elems(a: ActionView, s: Seq<ActionView>)
    ensures
        insert_by_name(a, s).len() == s.len() + 1,
        forall|k: int|
            0 <= k < insert_by_name(a, s).len() ==> insert_by_name(a, s)[k] == a || s.contains(
                #[trigger] insert_by_name(a, s)[k],
            ),
    decreases s.len(),
{
    if s.len() == 0 {
    } else if lex_leq(a.name, s[0].name) {
        assert forall|k: int|
            0 <= k < insert_by_name(a, s).len() implies insert_by_name(a, s)[k] == a || s.contains(
            insert_by_name(a, s)[k],
        ) by {
            if k > 0 {
                assert(insert_by_name(a, s)[k] == s[k - 1]);
            }
        }
    } else {
        lemma_insert_by_name_elems(a, s.drop_first());
        let t = insert_by_name(a, s.drop_first());
        assert forall|k: int|
            0 <= k < insert_by_name(a, s).len() implies insert_by_name(a, s)[k] == a || s.contains(
            insert_by_name(a, s)[k],
        ) by {
            if k == 0 {
                assert(insert_by_name(a, s)[0] == s[0]);
            } else {
                assert(insert_by_name(a, s)[k] == t[k - 1]);
                if t[k - 1] != a {
                    let m = choose|m: int|
                        0 <= m < s.drop_first().len() && s.drop_first()[m] == t[k - 1];
                    assert(s[m + 1] == t[k - 1]);
                }
            }
        }
    }
}

/// Insertion keeps the qualified-name order.
proof fn lemma_insert_by_name_sorted(a: ActionView, s: Seq<ActionView>)
    requires
        sorted_by_qualified(s),
    ensures
        sorted_by_qualified(insert_by_name(a, s)),
    decreases s.len(),
{
    if s.len() == 0 {
    } else if lex_leq(a.name, s[0].name) {
        let out = insert_by_name(a, s);
        assert forall|i: int, j: int|
            0 <= i < j < out.len() implies lex_leq(out[i].name, out[j].name) by {
            if i == 0 {
                assert(out[j] == s[j - 1]);
                if j > 1 {
                    crate::strutil::lemma_lex_leq_trans(a.name, s[0].name, s[j - 1].name);
                }
            } else {
                assert(out[i] == s[i - 1] && out[j] == s[j - 1]);
            }
        }
    } else {
        assert forall|i: int, j: int|
            0 <= i < j < s.drop_first().len() implies lex_leq(
            (#[trigger] s.drop_first()[i]).name,
            (#[trigger] s.drop_first()[j]).name,
        ) by {
            assert(s.drop_first()[i] == s[i + 1] && s.drop_first()[j] == s[j + 1]);
        }
        lemma_insert_by_name_sorted(a, s.drop_first());
        lemma_insert_by_name_elems(a, s.drop_first());
        crate::strutil::lemma_lex_leq_total(a.name, s[0].name);
        let t = insert_by_name(a, s.drop_first());
        let out = insert_by_name(a, s);
        assert forall|i: int, j: int|
            0 <= i < j < out.len() implies lex_leq(out[i].name, out[j].name) by {
            if i == 0 {
                assert(out[j] == t[j - 1]);
                if t[j - 1] != a {
                    let m = choose|m: int|
                        0 <= m < s.drop_first().len() && s.drop_first()[m] == t[j - 1];
                    assert(s.drop_first()[m] == s[m + 1]);
                    assert(lex_leq(s[0].name, s[m + 1].name));
                }
            } else {
                assert(out[i] == t[i - 1] && out[j] == t[j - 1]);
            }
        }
    }
}

/// Sorting by qualified name yields a sequence in qualified-name order:
/// the order contested groups of the minimal-name listing are shown in.
pub proof fn lemma_sort_by_name_sorted(s: Seq<ActionView>)
    ensures
        sorted_by_qualified(sort_by_name(s)),
    decreases s.len(),
{
    if s.len() > 0 {
        lemma_sort_by_name_sorted(s.drop_first());
        lemma_insert_by_name_sorted(s[0], sort_by_name(s.drop_first()));
    }
}

/// Subnames in lexicographic order.
pub open spec fn sorted_keys_order(s: Seq<Seq<char>>) -> bool {
    forall|i: int, j: int| 0 <= i < j < s.len() ==> lex_leq(#[trigger] s[i], #[trigger] s[j])
}

/// Every element of a key insertion's result is the inserted key or one of
/// the sequence's own.
proof fn lemma_insert_key_elems(k: Seq<char>, s: Seq<Seq<char>>)
    ensures
        insert_key(k, s).len() == s.len() + 1,
        forall|m: int|
            0 <= m < insert_key(k, s).len() ==> insert_key(k, s)[m] == k || s.contains(
                #[trigger] insert_key(k, s)[m],
            ),
    decreases s.len(),
{
    if s.len() == 0 {
    } else if lex_leq(k, s[0]) {
        assert forall|m: int|
            0 <= m < insert_key(k, s).len() implies insert_key(k, s)[m] == k || s.contains(
            insert_key(k, s)[m],
        ) by {
            if m > 0 {
                assert(insert_key(k, s)[m] == s[m - 1]);
            }
        }
    } else {
        lemma_insert_key_elems(k, s.drop_first());
        let t = insert_key(k, s.drop_first());
        assert forall|m: int|
            0 <= m < insert_key(k, s).len() implies insert_key(k, s)[m] == k || s.contains(
            insert_key(k, s)[m],
        ) by {
            if m == 0 {
                assert(insert_key(k, s)[0] == s[0]);
            } else {
                assert(insert_key(k, s)[m] == t[m - 1]);
                if t[m - 1] != k {
                    let w = choose|w: int|
                        0 <= w < s.drop_first().len() && s.drop_first()[w] == t[m - 1];
                    assert(s[w + 1] == t[m - 1]);
                }
            }
        }
    }
}

/// Key insertion keeps the lexicographic order.
proof fn lemma_insert_key_sorted(k: Seq<char>, s: Seq<Seq<char>>)
    requires
        sorted_keys_order(s),
    ensures
        sorted_keys_order(insert_key(k, s)),
    decreases s.len(),
{
    if s.len() == 0 {
    } else if lex_leq(k, s[0]) {
        let out = insert_key(k, s);
        assert forall|i: int, j: int| 0 <= i < j < out.len() implies lex_leq(out[i], out[j]) by {
            if i == 0 {
                assert(out[j] == s[j - 1]);
                if j > 1 {
                    crate::strutil::lemma_lex_leq_trans(k, s[0], s[j - 1]);
                }
            } else {
                assert(out[i] == s[i - 1] && out[j] == s[j - 1]);
            }
        }
    } else {
        assert forall|i: int, j: int|
            0 <= i < j < s.drop_first().len() implies lex_leq(
            #[trigger] s.drop_first()[i],
            #[trigger] s.drop_first()[j],
        ) by {
            assert(s.drop_first()[i] == s[i + 1] && s.drop_first()[j] == s[j + 1]);
        }
        lemma_insert_key_sorted(k, s.drop_first());
        lemma_insert_key_elems(k, s.drop_first());
        crate::strutil::lemma_lex_leq_total(k, s[0]);
        let t = insert_key(k, s.drop_first());
        let out = insert_key(k, s);
        assert forall|i: int, j: int| 0 <= i < j < out.len() implies lex_leq(out[i], out[j]) by {
            if i == 0 {
                assert(out[j] == t[j - 1]);
                if t[j - 1] != k {
                    let w = choose|w: int|
                        0 <= w < s.drop_first().len() && s.drop_first()[w] == t[j - 1];
                    assert(s.drop_first()[w] == s[w + 1]);
                    assert(lex_leq(s[0], s[w + 1]));
                }
            } else {
                assert(out[i] == t[i - 1] && out[j] == t[j - 1]);
            }
        }
    }
}

/// Sorting subnames yields keys in lexicographic order: the order the
/// minimal-name listing's groups appear in.
pub proof fn lemma_sort_keys_sorted(s: Seq<Seq<char>>)
    ensures
        sorted_keys_order(sort_keys(s)),
    decreases s.len(),
{
    if s.len() > 0 {
        lemma_sort_keys_sorted(s.drop_first());
        lemma_insert_key_sorted(s[0], sort_keys(s.drop_first()));
    }
}

} // verus!
