//! The activity window: a trailing duration ending at `now`. A timestamp is
//! inside the window when it is at most the window's length in the past.
//! Timestamps are Unix times in seconds (UTC); durations are in seconds.

use vstd::prelude::*;

use crate::records::Repo;
use crate::rfc3339::{parse_rfc3339_unix_secs, rfc3339_unix_secs};

verus! {

/// A timestamp `ts` lies within the trailing window of length `window`
/// ending at `now` exactly when `now - ts <= window`.
pub open spec fn in_window_spec(ts: int, now: int, window: int) -> bool {
    now - ts <= window
}

/// Executable window test. Widening to `i128` makes the subtraction exact.
pub fn in_window(ts: i64, now: i64, window: i64) -> (r: bool)
    ensures
        r == in_window_spec(ts as int, now as int, window as int),
{
    (now as i128) - (ts as i128) <= (window as i128)
}

/// Law: the window test is monotonic in the window length. Enlarging the
/// window keeps every timestamp that the smaller window admitted.
pub proof fn lemma_in_window_monotonic(ts: int, now: int, w1: int, w2: int)
    requires
        w1 <= w2,
        in_window_spec(ts, now, w1),
    ensures
        in_window_spec(ts, now, w2),
{
}

/// Law (monotonicity at the repository filter): enlarging the window
/// keeps every repository the smaller window kept — it can only add,
/// never remove; and a listing the smaller window filtered without a
/// parse error, the larger filters without one too.
pub proof fn lemma_filter_repos_monotonic(repos: Seq<Repo>, now: int, w1: int, w2: int)
    requires
        w1 <= w2,
        filter_repos_spec(repos, now, w1) is Ok,
    ensures
        filter_repos_spec(repos, now, w2) is Ok,
        forall|r: Repo|
            filter_repos_spec(repos, now, w1)->Ok_0.contains(r) ==> filter_repos_spec(
                repos,
                now,
                w2,
            )->Ok_0.contains(r),
    decreases repos.len(),
{
    if repos.len() > 0 {
        lemma_filter_repos_monotonic(repos.drop_first(), now, w1, w2);
        let k1 = filter_repos_spec(repos, now, w1)->Ok_0;
        let k2 = filter_repos_spec(repos, now, w2)->Ok_0;
        let r1 = filter_repos_spec(repos.drop_first(), now, w1)->Ok_0;
        let r2 = filter_repos_spec(repos.drop_first(), now, w2)->Ok_0;
        let ts = rfc3339_unix_secs(repos[0].pushed_at@)->0;
        assert forall|r: Repo| k1.contains(r) implies k2.contains(r) by {
            let i = choose|i: int| 0 <= i < k1.len() && k1[i] == r;
            if in_window_spec(ts as int, now, w1) {
                lemma_in_window_monotonic(ts as int, now, w1, w2);
                if i == 0 {
                    assert(k2[0] == r);
                } else {
                    assert(r1[i - 1] == r);
                    assert(r1.contains(r));
                    let j = choose|j: int| 0 <= j < r2.len() && r2[j] == r;
                    assert(k2[j + 1] == r);
                }
            } else {
                assert(r1[i] == r);
                assert(r1.contains(r));
                let j = choose|j: int| 0 <= j < r2.len() && r2[j] == r;
                if in_window_spec(ts as int, now, w2) {
                    assert(k2[j + 1] == r);
                } else {
                    assert(k2[j] == r);
                }
            }
        }
    }
}

/// The repositories whose last push lies within the window, in listing
/// order, or the first `pushed_at` string that fails to parse. A parse
/// failure here is fatal to the whole run, so it preempts the filtering.
pub open spec fn filter_repos_spec(repos: Seq<Repo>, now: int, window: int) -> Result<
    Seq<Repo>,
    Seq<char>,
>
    decreases repos.len(),
{
    if repos.len() == 0 {
        Ok(Seq::empty())
    } else {
        let first = repos[0];
        match rfc3339_unix_secs(first.pushed_at@) {
            Option::None => Err(first.pushed_at@),
            Option::Some(ts) => match filter_repos_spec(repos.drop_first(), now, window) {
                Err(e) => Err(e),
                Ok(rest) => Ok(
                    if in_window_spec(ts as int, now, window) {
                        seq![first] + rest
                    } else {
                        rest
                    },
                ),
            },
        }
    }
}

/// Pre-filter of the organization's repositories by recent activity:
/// keeps exactly those pushed within the window, in order; the first
/// malformed `pushed_at` aborts with that string as the error.
pub fn filter_repos(repos: &Vec<Repo>, now: i64, window: i64) -> (r: Result<Vec<Repo>, String>)
    ensures
        match filter_repos_spec(repos@, now as int, window as int) {
            Ok(kept) => r matches Ok(v) && v@ == kept,
            Err(bad) => r matches Err(s) && s@ == bad,
        },
{
    let ghost all = repos@;
    let ghost n = now as int;
    let ghost w = window as int;
    let mut kept: Vec<Repo> = Vec::new();
    let mut i: usize = 0;
    proof {
        assert(all.skip(0) =~= all);
        match filter_repos_spec(all, n, w) {
            Ok(rest) => {
                assert(Seq::<Repo>::empty() + rest =~= rest);
            },
            Err(_) => {},
        }
    }
    while i < repos.len()
        invariant
            i <= repos.len(),
            all == repos@,
            n == now as int,
            w == window as int,
            filter_repos_spec(all, n, w) == (match filter_repos_spec(all.skip(i as int), n, w) {
                Ok(rest) => Ok::<Seq<Repo>, Seq<char>>(kept@ + rest),
                Err(e) => Err::<Seq<Repo>, Seq<char>>(e),
            }),
        decreases repos.len() - i,
    {
        let repo = &repos[i];
        proof {
            assert(all.skip(i as int).len() > 0);
            assert(all.skip(i as int)[0] == all[i as int]);
            assert(all.skip(i as int).drop_first() =~= all.skip(i as int + 1));
        }
        match parse_rfc3339_unix_secs(repo.pushed_at.as_str()) {
            Option::None => {
                return Err(repo.pushed_at.clone());
            },
            Option::Some(ts) => {
                let ghost kept_before = kept@;
                if in_window(ts, now, window) {
                    kept.push(repo.duplicate());
                    proof {
                        match filter_repos_spec(all.skip(i as int + 1), n, w) {
                            Ok(rest) => {
                                assert(kept_before + (seq![all[i as int]] + rest) =~= kept@ + rest);
                            },
                            Err(_) => {},
                        }
                    }
                }
            },
        }
        i += 1;
    }
    proof {
        assert(all.skip(repos@.len() as int) =~= Seq::<Repo>::empty());
        assert(kept@ + Seq::<Repo>::empty() =~= kept@);
    }
    Ok(kept)
}

} // verus!
