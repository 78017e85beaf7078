//! Path-completion helper: the pure computation behind listing a
//! directory's entries under a partially typed path. The caller supplies
//! what only the file system knows — whether the typed path is a directory,
//! and what the completed directory contains.
use vstd::prelude::*;

verus! {

/// The typed text up to and including its last separator; empty where it
/// has none.
pub open spec fn through_last_slash(p: Seq<char>) -> Seq<char>
    decreases p.len(),
{
    if p.len() == 0 {
        p
    } else if p.last() == '/' {
        p
    } else {
        through_last_slash(p.take(p.len() - 1))
    }
}

/// The prefix each completion carries. A typed path that is itself a
/// directory is kept whole, gaining a trailing separator if it lacks one;
/// otherwise everything after the last separator is the fragment being
/// completed and is cut off.
pub open spec fn completion_prefix(partial_is_dir: bool, p: Seq<char>) -> Seq<char> {
    if partial_is_dir {
        if p.len() == 0 || p.last() == '/' {
            p
        } else {
            p + seq!['/']
        }
    } else {
        through_last_slash(p)
    }
}

/// The directory entries offered as completions of a partially typed path:
/// each entry name behind the prefix the typed text fixes. `partial_is_dir`
/// says whether the typed path names a directory; `entries` are the names
/// found in the directory being completed.
#[verifier::loop_isolation(false)]
pub fn file_path_completion(partial_is_dir: bool, partial_name: &str, entries: &Vec<String>) -> (r:
    Vec<String>)
    ensures
        r@.len() == entries@.len(),
        forall|i: int|
            0 <= i < entries@.len() ==> (#[trigger] r@[i])@ == completion_prefix(
                partial_is_dir,
                partial_name@,
            ) + entries@[i]@,
{
    let len = partial_name.unicode_len();
    let prefix: String = if partial_is_dir {
        if len == 0 {
            partial_name.to_owned()
        } else {
            let last = partial_name.get_char(len - 1);
            if last == '/' {
                partial_name.to_owned()
            } else {
                let mut p = partial_name.to_owned();
                p.append("/");
                proof {
                    reveal_strlit("/");
                    assert(p@ =~= partial_name@ + seq!['/']);
                }
                p
            }
        }
    } else {
        let mut j: usize = len;
        let mut cut: usize = 0;
        let mut found = false;
        proof {
            assert(partial_name@.take(len as int) =~= partial_name@);
        }
        while j > 0
            invariant
                j <= len,
                len == partial_name@.len(),
                through_last_slash(partial_name@) == through_last_slash(
                    partial_name@.take(j as int),
                ),
                !found ==> cut == 0,
                found ==> cut == j && j > 0 && partial_name@[j as int - 1] == '/',
            decreases j,
        {
            let c = partial_name.get_char(j - 1);
            proof {
                assert(partial_name@.take(j as int).last() == partial_name@[j as int - 1]);
                assert(partial_name@.take(j as int).take(j as int - 1) =~= partial_name@.take(
                    j as int - 1,
                ));
            }
            if c == '/' {
                cut = j;
                found = true;
                break ;
            }
            j = j - 1;
        }
        proof {
            if found {
                assert(through_last_slash(partial_name@) == partial_name@.take(cut as int));
            } else {
                assert(partial_name@.take(0) =~= Seq::<char>::empty());
                assert(through_last_slash(partial_name@) == Seq::<char>::empty());
            }
        }
        partial_name.substring_char(0, cut).to_owned()
    };
    let mut out: Vec<String> = Vec::new();
    let mut i: usize = 0;
    while i < entries.len()
        invariant
            i <= entries.len(),
            out@.len() == i,
            prefix@ == completion_prefix(partial_is_dir, partial_name@),
            forall|m: int|
                0 <= m < i ==> (#[trigger] out@[m])@ == prefix@ + entries@[m]@,
        decreases entries.len() - i,
    {
        let mut one = prefix.clone();
        one.append(entries[i].as_str());
        out.push(one);
        i = i + 1;
    }
    out
}

} // verus!
