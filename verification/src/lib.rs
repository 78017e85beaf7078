//! Configuration-driven task runner core: an aggregable error model, a
//! structured-document abstraction with path-replay mutation, and an
//! ambiguity-aware action-name resolution engine.
use vstd::prelude::*;

pub mod file;
pub mod recipes;
pub mod render;
pub mod strutil;

verus! {

/// The uniform failure type: a numeric code and a message.
/// A code of 0 together with an empty message means "no failure".
#[derive(Debug, Clone)]
pub struct GobiError {
    pub code: i32,
    pub msg: String,
}

/// The no-failure report: code 0 and an empty message.
pub open spec fn is_no_failure(a: (int, Seq<char>)) -> bool {
    a.0 == 0 && a.1.len() == 0
}

/// What `GobiError::merge` produces, at the specification level: the
/// no-failure report is a two-sided identity; between two other reports the
/// code survives only when both agree, else collapses to 1, and the messages
/// are joined with a newline.
pub open spec fn merge_spec(a: (int, Seq<char>), b: (int, Seq<char>)) -> (int, Seq<char>) {
    if is_no_failure(b) {
        a
    } else if is_no_failure(a) {
        b
    } else {
        (
            if a.0 == b.0 {
                a.0
            } else {
                1int
            },
            a.1 + seq!['\n'] + b.1,
        )
    }
}

impl GobiError {
    /// Combine two failure reports. The no-failure report is a two-sided
    /// identity; between two other reports the code survives only when both
    /// agree, else collapses to 1, and the messages are joined with a
    /// newline.
    pub fn merge(self, other: GobiError) -> (r: GobiError)
        ensures
            (r.code as int, r.msg@) == merge_spec(
                (self.code as int, self.msg@),
                (other.code as int, other.msg@),
            ),
    {
        if other.code == 0 && other.msg.as_str().is_empty() {
            return self;
        }
        if self.code == 0 && self.msg.as_str().is_empty() {
            return other;
        }
        let code: i32 = if self.code == other.code {
            self.code
        } else {
            1
        };
        let mut msg = self.msg;
        msg.append("\n");
        proof {
            reveal_strlit("\n");
            assert(msg@ =~= self.msg@ + seq!['\n']);
        }
        msg.append(other.msg.as_str());
        GobiError { code, msg }
    }
}

impl Default for GobiError {
    /// The no-failure report: code 0 and an empty message.
    fn default() -> (r: GobiError)
        ensures
            r.code == 0,
            r.msg@ == Seq::<char>::empty(),
    {
        GobiError { code: 0, msg: String::new() }
    }
}

pub type GobiResult<T> = Result<T, GobiError>;

/// Merging failure reports is associative, on codes and on messages.
pub proof fn lemma_merge_assoc(a: (int, Seq<char>), b: (int, Seq<char>), c: (int, Seq<char>))
    ensures
        merge_spec(merge_spec(a, b), c) == merge_spec(a, merge_spec(b, c)),
{
    if !is_no_failure(a) && !is_no_failure(b) && !is_no_failure(c) {
        assert(!is_no_failure(merge_spec(a, b)));
        assert(!is_no_failure(merge_spec(b, c)));
        assert(merge_spec(merge_spec(a, b), c).1 =~= merge_spec(a, merge_spec(b, c)).1);
    }
}

/// The no-failure report is a two-sided identity of `merge`.
pub proof fn lemma_merge_identity(a: (int, Seq<char>))
    ensures
        merge_spec(a, (0int, Seq::<char>::empty())) == a,
        merge_spec((0int, Seq::<char>::empty()), a) == a,
{
}

/// Merging two reports with differing non-zero codes collapses the code to
/// the fixed value 1, never 0.
pub proof fn lemma_merge_collapses(a: (int, Seq<char>), b: (int, Seq<char>))
    requires
        a.0 != b.0,
        a.0 != 0,
        b.0 != 0,
    ensures
        merge_spec(a, b).0 == 1,
{
}


/// Left fold of a batch of results: successes collected in order, failures
/// merged into one aggregate report.
pub open spec fn collect_spec<T>(
    results: Seq<GobiResult<T>>,
    oks: Seq<T>,
    err: (int, Seq<char>),
) -> (Seq<T>, (int, Seq<char>))
    decreases results.len(),
{
    if results.len() == 0 {
        (oks, err)
    } else {
        match results[0] {
            Ok(v) => collect_spec(results.drop_first(), oks.push(v), err),
            Err(e) => collect_spec(results.drop_first(), oks, merge_spec(err, (e.code as int, e.msg@))),
        }
    }
}

/// Collect a batch of results under the accumulate-never-short-circuit
/// discipline: every item is examined; if any failed, the merged report of
/// all failures is returned and the successes are discarded; otherwise all
/// successes are returned in order.
#[verifier::loop_isolation(false)]
pub fn try_collect<T>(results: Vec<GobiResult<T>>) -> (r: GobiResult<Vec<T>>)
    ensures
        ({
            let folded = collect_spec(results@, Seq::empty(), (0int, Seq::<char>::empty()));
            match r {
                Ok(vs) => folded.1.0 == 0 && vs@ == folded.0,
                Err(e) => folded.1.0 != 0 && e.code as int == folded.1.0 && e.msg@ == folded.1.1,
            }
        }),
{
    let ghost orig = results@;
    let mut rest = results;
    let mut oks: Vec<T> = Vec::new();
    let mut err = GobiError { code: 0, msg: String::new() };
    let ghost mut i: int = 0;
    proof {
        assert(orig.skip(0) =~= orig);
        assert(oks@ =~= Seq::<T>::empty());
    }
    while rest.len() > 0
        invariant
            0 <= i <= orig.len(),
            rest@ == orig.skip(i),
            collect_spec(orig.skip(i), oks@, (err.code as int, err.msg@)) == collect_spec(
                orig,
                Seq::empty(),
                (0int, Seq::<char>::empty()),
            ),
        decreases rest@.len(),
    {
        proof {
            assert(orig.skip(i)[0] == orig[i]);
            assert(orig.skip(i).drop_first() =~= orig.skip(i + 1));
        }
        let item = rest.remove(0);
        proof {
            assert(rest@ =~= orig.skip(i + 1));
        }
        match item {
            Ok(v) => {
                oks.push(v);
            },
            Err(e) => {
                err = err.merge(e);
            },
        }
        proof {
            i = i + 1;
        }
    }
    proof {
        assert(orig.skip(i) =~= Seq::<GobiResult<T>>::empty());
    }
    if err.code != 0 {
        Err(err)
    } else {
        Ok(oks)
    }
}

} // verus!
