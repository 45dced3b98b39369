//! Collecting the per-frame results of a streaming push.

use vstd::prelude::*;

verus! {

/// The outcome of a push: every frame's value in order, or the error of
/// the first frame that failed.
pub open spec fn collected<T, E>(s: Seq<Result<T, E>>) -> Result<Seq<T>, E>
    decreases s.len(),
{
    if s.len() == 0 {
        Ok(Seq::empty())
    } else {
        match collected(s.drop_last()) {
            Err(e) => Err(e),
            Ok(prefix) => match s.last() {
                Ok(t) => Ok(prefix.push(t)),
                Err(e) => Err(e),
            },
        }
    }
}

/// An error in a prefix is the error of the whole sequence.
proof fn lemma_collected_prefix_err<T, E>(s: Seq<Result<T, E>>, k: int, e: E)
    requires
        0 <= k <= s.len(),
        collected(s.take(k)) == Err::<Seq<T>, E>(e),
    ensures
        collected(s) == Err::<Seq<T>, E>(e),
    decreases s.len() - k,
{
    if k < s.len() {
        assert(s.take(k + 1).drop_last() =~= s.take(k));
        lemma_collected_prefix_err(s, k + 1, e);
    } else {
        assert(s.take(k) =~= s);
    }
}

/// When every frame succeeded, the outcome holds every value in order.
proof fn lemma_collected_all_ok<T, E>(s: Seq<Result<T, E>>)
    requires
        forall|i: int| 0 <= i < s.len() ==> #[trigger] s[i] is Ok,
    ensures
        collected(s) is Ok,
        collected(s) matches Ok(v) && v.len() == s.len()
            && forall|i: int| 0 <= i < s.len() ==> #[trigger] s[i] == Ok::<T, E>(v[i]),
    decreases s.len(),
{
    if s.len() > 0 {
        let t = s.drop_last();
        assert forall|i: int| 0 <= i < t.len() implies #[trigger] t[i] is Ok by {
            assert(t[i] == s[i]);
        }
        lemma_collected_all_ok(t);
        assert(s[s.len() - 1] is Ok);
        if let Ok(v) = collected(s) {
            let prefix = collected(t)->Ok_0;
            assert forall|i: int| 0 <= i < s.len() implies #[trigger] s[i] == Ok::<T, E>(v[i]) by {
                if i < s.len() - 1 {
                    assert(t[i] == s[i]);
                    assert(t[i] == Ok::<T, E>(prefix[i]));
                }
            }
        }
    }
}

/// When frame `i` is the first that failed, the outcome is its error.
proof fn lemma_collected_first_err<T, E>(s: Seq<Result<T, E>>, i: int)
    requires
        0 <= i < s.len(),
        s[i] is Err,
        forall|j: int| 0 <= j < i ==> #[trigger] s[j] is Ok,
    ensures
        collected(s) == Err::<Seq<T>, E>(s[i]->Err_0),
    decreases s.len(),
{
    let t = s.drop_last();
    if i == s.len() - 1 {
        assert forall|j: int| 0 <= j < t.len() implies #[trigger] t[j] is Ok by {
            assert(t[j] == s[j]);
        }
        lemma_collected_all_ok(t);
    } else {
        assert(t[i] == s[i]);
        assert forall|j: int| 0 <= j < i implies #[trigger] t[j] is Ok by {
            assert(t[j] == s[j]);
        }
        lemma_collected_first_err(t, i);
    }
}

/// Law: a push succeeds exactly when every frame succeeded, and then
/// yields each frame's value at that frame's position; when some frame
/// failed, the push fails with the error of the first failing frame,
/// wherever it stands (the first frame included).
pub proof fn lemma_collected_meaning<T, E>(s: Seq<Result<T, E>>)
    ensures
        (forall|i: int| 0 <= i < s.len() ==> #[trigger] s[i] is Ok) ==> (collected(s) matches Ok(v)
            && v.len() == s.len() && forall|i: int| 0 <= i < s.len() ==> #[trigger] s[i] == Ok::<T, E>(v[i])),
        forall|i: int|
            0 <= i < s.len() && #[trigger] s[i] is Err && (forall|j: int| 0 <= j < i ==> s[j] is Ok)
                ==> collected(s) == Err::<Seq<T>, E>(s[i]->Err_0),
{
    if forall|i: int| 0 <= i < s.len() ==> #[trigger] s[i] is Ok {
        lemma_collected_all_ok(s);
    }
    assert forall|i: int|
        0 <= i < s.len() && #[trigger] s[i] is Err && (forall|j: int| 0 <= j < i ==> s[j] is Ok)
        implies collected(s) == Err::<Seq<T>, E>(s[i]->Err_0) by {
        lemma_collected_first_err(s, i);
    }
}

/// Collect the per-frame results of a streaming push: all frame values in
/// order, or the first frame's error.
pub fn collect_frames<T, E>(results: Vec<Result<T, E>>) -> (res: Result<Vec<T>, E>)
    ensures
        res matches Ok(v) ==> collected(results@) == Ok::<Seq<T>, E>(v@),
        res matches Err(e) ==> collected(results@) == Err::<Seq<T>, E>(e),
{
    let ghost all = results@;
    let n = results.len();
    let mut rest = results;
    let mut out: Vec<T> = Vec::new();
    let mut i: usize = 0;
    while rest.len() > 0
        invariant
            i + rest@.len() == all.len(),
            all.len() == n,
            all == results@,
            rest@ == all.skip(i as int),
            collected(all.take(i as int)) == Ok::<Seq<T>, E>(out@),
        decreases rest@.len(),
    {
        let r = rest.remove(0);
        proof {
            assert(r == all[i as int]);
            assert(all.take(i + 1).drop_last() =~= all.take(i as int));
            assert(all.take(i + 1).last() == all[i as int]);
        }
        match r {
            Ok(t) => {
                out.push(t);
            },
            Err(e) => {
                proof {
                    lemma_collected_prefix_err(all, i + 1, e);
                    assert(collected(all) == Err::<Seq<T>, E>(e));
                }
                return Err(e);
            },
        }
        proof {
            assert(rest@ =~= all.skip(i + 1));
        }
        i = i + 1;
    }
    proof {
        assert(all.take(i as int) =~= all);
        assert(collected(all) == Ok::<Seq<T>, E>(out@));
    }
    Ok(out)
}

} // verus!
