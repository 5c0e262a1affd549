//! The repository walker: pages through one repository's commit history,
//! newest first, retaining the commits that lie within the activity window
//! and terminating early once a commit's author and committer timestamps
//! are both outside it. Fetching is the unverified shell's business: the
//! shell fetches a page, hands the outcome in as a `FetchEvent`, and
//! `walk_step` decides what happens next. `walk_pages` drives the same
//! step function over an already-given sequence of pages.

use vstd::prelude::*;

use crate::records::{CommitDates, CommitRecord, WalkError};
use crate::rfc3339::{parse_rfc3339_unix_secs, rfc3339_unix_secs};
use crate::window::{in_window, in_window_spec, lemma_in_window_monotonic};

verus! {

/// The HTTP status with which a commit-page fetch signals that the
/// repository has no commits at all.
pub const EMPTY_REPO_STATUS: u16 = 409;

/// Both dates of a commit parse as RFC 3339.
pub open spec fn dates_parse(d: CommitDates) -> bool {
    &&& rfc3339_unix_secs(d.author_date@) is Some
    &&& rfc3339_unix_secs(d.committer_date@) is Some
}

/// Both the author and the committer timestamp lie outside the window:
/// the condition that fires early termination.
pub open spec fn dates_outside(d: CommitDates, now: int, window: int) -> bool
    recommends
        dates_parse(d),
{
    &&& !in_window_spec(rfc3339_unix_secs(d.author_date@)->0 as int, now, window)
    &&& !in_window_spec(rfc3339_unix_secs(d.committer_date@)->0 as int, now, window)
}

/// What scanning one page decides, at the specification level.
pub enum PageScanView {
    /// A timestamp failed to parse; carries that string. The walk fails.
    Failed(Seq<char>),
    /// Early termination fired: the retained prefix of this page, and no
    /// further page is fetched.
    Stop(Seq<CommitRecord>),
    /// The whole page was scanned without termination: the retained
    /// records, and the walk goes on to the next page.
    More(Seq<CommitRecord>),
}

/// Scan a page in order. A commit without structured metadata is skipped
/// (never retained, never an error). For one with metadata, the committer
/// date is parsed first, then the author date, a malformed one failing the
/// scan; if both instants are outside the window the scan stops and
/// retains neither this commit nor any later one of the page; otherwise
/// the commit is retained.
pub open spec fn scan_page_spec(page: Seq<CommitRecord>, now: int, window: int) -> PageScanView
    decreases page.len(),
{
    if page.len() == 0 {
        PageScanView::More(Seq::empty())
    } else {
        let r = page[0];
        match r.dates {
            Option::Some(d) => {
                if rfc3339_unix_secs(d.committer_date@) is None {
                    PageScanView::Failed(d.committer_date@)
                } else if rfc3339_unix_secs(d.author_date@) is None {
                    PageScanView::Failed(d.author_date@)
                } else if dates_outside(d, now, window) {
                    PageScanView::Stop(Seq::empty())
                } else {
                    match scan_page_spec(page.drop_first(), now, window) {
                        PageScanView::Failed(e) => PageScanView::Failed(e),
                        PageScanView::Stop(s) => PageScanView::Stop(seq![r] + s),
                        PageScanView::More(s) => PageScanView::More(seq![r] + s),
                    }
                }
            },
            Option::None => scan_page_spec(page.drop_first(), now, window),
        }
    }
}

/// What scanning one page produced, executably.
pub enum PageScan {
    /// A timestamp failed to parse: the walk fails with this error.
    Failed(WalkError),
    /// Early termination fired: the page's retained prefix ends the walk.
    Stop(Vec<CommitRecord>),
    /// No termination on this page: its retained records; fetch the next.
    Stay(Vec<CommitRecord>),
}

/// Scans one page against the window, as `scan_page_spec` says.
pub fn scan_page(page: &Vec<CommitRecord>, now: i64, window: i64) -> (r: PageScan)
    ensures
        match scan_page_spec(page@, now as int, window as int) {
            PageScanView::Failed(bad) => r matches PageScan::Failed(e) && e matches
                WalkError::BadTimestamp(b) && b@ == bad,
            PageScanView::Stop(s) => r matches PageScan::Stop(v) && v@ == s,
            PageScanView::More(s) => r matches PageScan::Stay(v) && v@ == s,
        },
{
    let ghost all = page@;
    let ghost n = now as int;
    let ghost w = window as int;
    let mut out: Vec<CommitRecord> = Vec::new();
    let mut i: usize = 0;
    proof {
        assert(all.skip(0) =~= all);
        match scan_page_spec(all, n, w) {
            PageScanView::Failed(_) => {},
            PageScanView::Stop(s) => {
                assert(Seq::<CommitRecord>::empty() + s =~= s);
            },
            PageScanView::More(s) => {
                assert(Seq::<CommitRecord>::empty() + s =~= s);
            },
        }
    }
    while i < page.len()
        invariant
            i <= page.len(),
            all == page@,
            n == now as int,
            w == window as int,
            scan_page_spec(all, n, w) == (match scan_page_spec(all.skip(i as int), n, w) {
                PageScanView::Failed(e) => PageScanView::Failed(e),
                PageScanView::Stop(s) => PageScanView::Stop(out@ + s),
                PageScanView::More(s) => PageScanView::More(out@ + s),
            }),
        decreases page.len() - i,
    {
        let record = &page[i];
        proof {
            assert(all.skip(i as int).len() > 0);
            assert(all.skip(i as int)[0] == all[i as int]);
            assert(all.skip(i as int).drop_first() =~= all.skip(i as int + 1));
        }
        match &record.dates {
            Option::Some(d) => {
                let committer_ts = match parse_rfc3339_unix_secs(d.committer_date.as_str()) {
                    Option::Some(ts) => ts,
                    Option::None => {
                        return PageScan::Failed(WalkError::BadTimestamp(d.committer_date.clone()));
                    },
                };
                let author_ts = match parse_rfc3339_unix_secs(d.author_date.as_str()) {
                    Option::Some(ts) => ts,
                    Option::None => {
                        return PageScan::Failed(WalkError::BadTimestamp(d.author_date.clone()));
                    },
                };
                if !in_window(author_ts, now, window) && !in_window(committer_ts, now, window) {
                    proof {
                        assert(out@ + Seq::<CommitRecord>::empty() =~= out@);
                    }
                    return PageScan::Stop(out);
                }
                let ghost out_before = out@;
                out.push(record.duplicate());
                proof {
                    match scan_page_spec(all.skip(i as int + 1), n, w) {
                        PageScanView::Failed(_) => {},
                        PageScanView::Stop(s) => {
                            assert(out_before + (seq![all[i as int]] + s) =~= out@ + s);
                        },
                        PageScanView::More(s) => {
                            assert(out_before + (seq![all[i as int]] + s) =~= out@ + s);
                        },
                    }
                }
            },
            Option::None => {},
        }
        i += 1;
    }
    proof {
        assert(all.skip(page@.len() as int) =~= Seq::<CommitRecord>::empty());
        assert(out@ + Seq::<CommitRecord>::empty() =~= out@);
    }
    PageScan::Stay(out)
}

/// One page-fetch outcome, as the unverified fetching shell reports it.
pub enum FetchEvent {
    /// The fetch succeeded: the page's records, newest first.
    PageBody(Vec<CommitRecord>),
    /// The empty-repository signal: the repository has no commits.
    EmptyRepo,
    /// Transport or HTTP failure; carries the shell's description.
    FetchFailed(String),
}

/// The walk of one repository between two fetches: the number of the page
/// to fetch next (pages are numbered from 1) and the records retained so
/// far.
pub struct WalkState {
    pub next_page: u64,
    pub acc: Vec<CommitRecord>,
}

/// What the walk does after one fetch outcome.
pub enum WalkStep {
    /// Fetch the page the state names next.
    Next(WalkState),
    /// Terminal: the walk succeeded with these records.
    Done(Vec<CommitRecord>),
    /// Terminal: the walk failed; the failure stays with this repository.
    Failed(WalkError),
}

/// The step decision at the specification level.
pub enum WalkStepView {
    /// Go on: next page number and the records retained so far.
    Next(int, Seq<CommitRecord>),
    /// Success with these records.
    Done(Seq<CommitRecord>),
    /// A timestamp failed to parse; carries that string.
    FailedParse(Seq<char>),
    /// The fetch itself failed; carries the description.
    FailedTransport(Seq<char>),
}

/// What one walk step decides. The empty-repository signal and the empty
/// page both end the walk successfully with what was accumulated; a fetch
/// failure ends it with a transport error; a page body is scanned against
/// the window.
pub open spec fn walk_step_spec(
    next_page: int,
    acc: Seq<CommitRecord>,
    ev: FetchEvent,
    now: int,
    window: int,
) -> WalkStepView {
    match ev {
        FetchEvent::EmptyRepo => WalkStepView::Done(acc),
        FetchEvent::FetchFailed(msg) => WalkStepView::FailedTransport(msg@),
        FetchEvent::PageBody(page) => {
            if page@.len() == 0 {
                WalkStepView::Done(acc)
            } else {
                match scan_page_spec(page@, now, window) {
                    PageScanView::Failed(bad) => WalkStepView::FailedParse(bad),
                    PageScanView::Stop(s) => WalkStepView::Done(acc + s),
                    PageScanView::More(s) => WalkStepView::Next(next_page + 1, acc + s),
                }
            }
        },
    }
}

/// Advances the walk of one repository by one fetch outcome. No terminal
/// decision is ever re-entered: the caller stops on `Done` and `Failed`.
pub fn walk_step(st: WalkState, ev: FetchEvent, now: i64, window: i64) -> (r: WalkStep)
    requires
        st.next_page < u64::MAX,
    ensures
        match walk_step_spec(st.next_page as int, st.acc@, ev, now as int, window as int) {
            WalkStepView::Next(p, s) => r matches WalkStep::Next(st2) && st2.next_page as int == p
                && st2.acc@ == s,
            WalkStepView::Done(s) => r matches WalkStep::Done(v) && v@ == s,
            WalkStepView::FailedParse(bad) => r matches WalkStep::Failed(e) && e matches
                WalkError::BadTimestamp(b) && b@ == bad,
            WalkStepView::FailedTransport(m) => r matches WalkStep::Failed(e) && e matches
                WalkError::Transport(t) && t@ == m,
        },
{
    match ev {
        FetchEvent::EmptyRepo => WalkStep::Done(st.acc),
        FetchEvent::FetchFailed(msg) => WalkStep::Failed(WalkError::Transport(msg)),
        FetchEvent::PageBody(page) => {
            if page.len() == 0 {
                return WalkStep::Done(st.acc);
            }
            match scan_page(&page, now, window) {
                PageScan::Failed(e) => WalkStep::Failed(e),
                PageScan::Stop(mut v) => {
                    let mut acc = st.acc;
                    acc.append(&mut v);
                    WalkStep::Done(acc)
                },
                PageScan::Stay(mut v) => {
                    let mut acc = st.acc;
                    acc.append(&mut v);
                    WalkStep::Next(WalkState { next_page: st.next_page + 1, acc })
                },
            }
        },
    }
}

/// What a whole walk over a given sequence of pages comes to: the records
/// retained, or the timestamp string it failed on; in either case the
/// number of fetches made. Beyond the given pages every fetch answers with
/// the empty page, so a walk that exhausts them makes one fetch more.
pub enum WalkView {
    Success(Seq<CommitRecord>, int),
    Failure(Seq<char>, int),
}

/// The walk over a sequence of pages, fed in order from page 1.
pub open spec fn walk_pages_spec(pages: Seq<Seq<CommitRecord>>, now: int, window: int) -> WalkView
    decreases pages.len(),
{
    if pages.len() == 0 {
        WalkView::Success(Seq::empty(), 1)
    } else {
        let p = pages[0];
        if p.len() == 0 {
            WalkView::Success(Seq::empty(), 1)
        } else {
            match scan_page_spec(p, now, window) {
                PageScanView::Failed(bad) => WalkView::Failure(bad, 1),
                PageScanView::Stop(s) => WalkView::Success(s, 1),
                PageScanView::More(s) => match walk_pages_spec(pages.drop_first(), now, window) {
                    WalkView::Success(s2, k) => WalkView::Success(s + s2, 1 + k),
                    WalkView::Failure(bad, k) => WalkView::Failure(bad, 1 + k),
                },
            }
        }
    }
}

/// The pages as a sequence of sequences.
pub open spec fn pages_view(pages: Seq<Vec<CommitRecord>>) -> Seq<Seq<CommitRecord>> {
    pages.map_values(|p: Vec<CommitRecord>| p@)
}

/// An equal copy of a page of commit records.
fn duplicate_page(page: &Vec<CommitRecord>) -> (r: Vec<CommitRecord>)
    ensures
        r@ == page@,
{
    let mut out: Vec<CommitRecord> = Vec::new();
    let mut i: usize = 0;
    while i < page.len()
        invariant
            i <= page.len(),
            out@ =~= page@.take(i as int),
        decreases page.len() - i,
    {
        out.push(page[i].duplicate());
        proof {
            assert(page@.take(i as int).push(page@[i as int]) =~= page@.take(i as int + 1));
        }
        i += 1;
    }
    proof {
        assert(page@.take(page@.len() as int) =~= page@);
    }
    out
}

/// Walks one repository whose commit pages are given outright, driving
/// `walk_step` over them in order; a fetch past the last given page
/// answers with the empty page. Returns the walk's result and how many
/// fetches it made: exactly the pages a live walk of the same history
/// would have requested.
pub fn walk_pages(pages: &Vec<Vec<CommitRecord>>, now: i64, window: i64) -> (r: (
    Result<Vec<CommitRecord>, WalkError>,
    usize,
))
    requires
        pages@.len() + 2 <= usize::MAX,
        pages@.len() + 2 <= u64::MAX,
    ensures
        match walk_pages_spec(pages_view(pages@), now as int, window as int) {
            WalkView::Success(s, k) => r.0 matches Ok(v) && v@ == s && r.1 == k,
            WalkView::Failure(bad, k) => r.0 matches Err(e) && e matches WalkError::BadTimestamp(b)
                && b@ == bad && r.1 == k,
        },
{
    let ghost pv = pages_view(pages@);
    let ghost n = now as int;
    let ghost w = window as int;
    let mut st = WalkState { next_page: 1, acc: Vec::new() };
    let mut fetched: usize = 0;
    proof {
        assert(pv.skip(0) =~= pv);
        match walk_pages_spec(pv, n, w) {
            WalkView::Success(s, _) => {
                assert(Seq::<CommitRecord>::empty() + s =~= s);
            },
            WalkView::Failure(_, _) => {},
        }
    }
    loop
        invariant
            fetched <= pages@.len(),
            pv == pages_view(pages@),
            n == now as int,
            w == window as int,
            pages@.len() + 2 <= usize::MAX,
            pages@.len() + 2 <= u64::MAX,
            st.next_page as int == fetched + 1,
            match walk_pages_spec(pv.skip(fetched as int), n, w) {
                WalkView::Success(s, k) => walk_pages_spec(pv, n, w) == WalkView::Success(
                    st.acc@ + s,
                    fetched + k,
                ),
                WalkView::Failure(bad, k) => walk_pages_spec(pv, n, w) == WalkView::Failure(
                    bad,
                    fetched + k,
                ),
            },
        decreases pages@.len() - fetched,
    {
        let ev = if fetched < pages.len() {
            FetchEvent::PageBody(duplicate_page(&pages[fetched]))
        } else {
            FetchEvent::PageBody(Vec::new())
        };
        proof {
            if fetched < pages@.len() {
                assert(pv.skip(fetched as int).len() > 0);
                assert(pv.skip(fetched as int)[0] == pv[fetched as int]);
                assert(pv.skip(fetched as int).drop_first() =~= pv.skip(fetched as int + 1));
                assert(pv[fetched as int] == pages@[fetched as int]@);
            } else {
                assert(pv.skip(fetched as int) =~= Seq::<Seq<CommitRecord>>::empty());
            }
        }
        let ghost acc_before = st.acc@;
        let step = walk_step(st, ev, now, window);
        match step {
            WalkStep::Next(st2) => {
                st = st2;
                fetched += 1;
                proof {
                    match scan_page_spec(pv[fetched as int - 1], n, w) {
                        PageScanView::More(s) => {
                            match walk_pages_spec(pv.skip(fetched as int), n, w) {
                                WalkView::Success(s2, _) => {
                                    assert(acc_before + (s + s2) =~= (acc_before + s) + s2);
                                },
                                WalkView::Failure(_, _) => {},
                            }
                        },
                        _ => {},
                    }
                }
            },
            WalkStep::Done(v) => {
                proof {
                    match walk_pages_spec(pv.skip(fetched as int), n, w) {
                        WalkView::Success(s, _) => {
                            assert(acc_before + s =~= v@) by {
                                if fetched < pages@.len() {
                                    match scan_page_spec(pv[fetched as int], n, w) {
                                        PageScanView::Stop(sp) => {},
                                        _ => {
                                            assert(s =~= Seq::<CommitRecord>::empty());
                                        },
                                    }
                                } else {
                                    assert(s =~= Seq::<CommitRecord>::empty());
                                }
                            }
                        },
                        WalkView::Failure(_, _) => {},
                    }
                }
                return (Ok(v), fetched + 1);
            },
            WalkStep::Failed(e) => {
                return (Err(e), fetched + 1);
            },
        }
    }
}

/// The record carries metadata whose two dates both parse.
pub open spec fn record_dated(r: CommitRecord) -> bool {
    r.dates is Some && dates_parse(r.dates->0)
}

/// The record's two timestamps are both outside the window: the record
/// fires early termination when the scan reaches it.
pub open spec fn record_outside(r: CommitRecord, now: int, window: int) -> bool {
    record_dated(r) && dates_outside(r.dates->0, now, window)
}

/// Scanning a page of dated records stops exactly at its first record
/// outside the window, retaining exactly the records before it.
proof fn lemma_scan_stops(page: Seq<CommitRecord>, now: int, window: int, ri: int)
    requires
        forall|k: int| 0 <= k <= ri ==> record_dated(#[trigger] page[k]),
        0 <= ri < page.len(),
        record_outside(page[ri], now, window),
        forall|k: int| 0 <= k < ri ==> !record_outside(#[trigger] page[k], now, window),
    ensures
        scan_page_spec(page, now, window) == PageScanView::Stop(page.take(ri)),
    decreases page.len(),
{
    if ri == 0 {
        assert(page.take(0) =~= Seq::<CommitRecord>::empty());
    } else {
        let rest = page.drop_first();
        assert forall|k: int| 0 <= k <= ri - 1 implies record_dated(#[trigger] rest[k]) by {
            assert(rest[k] == page[k + 1]);
        }
        assert forall|k: int| 0 <= k < ri - 1 implies !record_outside(
            #[trigger] rest[k],
            now,
            window,
        ) by {
            assert(rest[k] == page[k + 1]);
        }
        assert(rest[ri - 1] == page[ri]);
        lemma_scan_stops(rest, now, window, ri - 1);
        assert(seq![page[0]] + rest.take(ri - 1) =~= page.take(ri));
    }
}

/// Scanning a page of dated records none of which is outside the window
/// retains the whole page and goes on.
proof fn lemma_scan_keeps_all(page: Seq<CommitRecord>, now: int, window: int)
    requires
        forall|k: int| 0 <= k < page.len() ==> record_dated(#[trigger] page[k]),
        forall|k: int|
            0 <= k < page.len() ==> !record_outside(#[trigger] page[k], now, window),
    ensures
        scan_page_spec(page, now, window) == PageScanView::More(page),
    decreases page.len(),
{
    if page.len() > 0 {
        let rest = page.drop_first();
        assert forall|k: int| 0 <= k < rest.len() implies record_dated(#[trigger] rest[k])
            && !record_outside(rest[k], now, window) by {
            assert(rest[k] == page[k + 1]);
        }
        lemma_scan_keeps_all(rest, now, window);
        assert(seq![page[0]] + rest =~= page);
    } else {
        assert(page =~= Seq::<CommitRecord>::empty());
    }
}

/// What a scan retained, whatever else it decided.
pub open spec fn retained_records(v: PageScanView) -> Seq<CommitRecord> {
    match v {
        PageScanView::Failed(_) => Seq::empty(),
        PageScanView::Stop(s) => s,
        PageScanView::More(s) => s,
    }
}

/// Law (monotonicity at the commit scan): over a page of dated records,
/// enlarging the window keeps every commit the smaller window retained —
/// it can only add commits, never remove.
pub proof fn lemma_scan_monotonic(page: Seq<CommitRecord>, now: int, w1: int, w2: int)
    requires
        w1 <= w2,
        forall|k: int| 0 <= k < page.len() ==> record_dated(#[trigger] page[k]),
    ensures
        forall|r: CommitRecord|
            retained_records(scan_page_spec(page, now, w1)).contains(r)
                ==> retained_records(scan_page_spec(page, now, w2)).contains(r),
    decreases page.len(),
{
    if page.len() == 0 {
        return ;
    }
    let r0 = page[0];
    let d = r0.dates->0;
    let rest = page.drop_first();
    assert forall|k: int| 0 <= k < rest.len() implies record_dated(#[trigger] rest[k]) by {
        assert(rest[k] == page[k + 1]);
    }
    lemma_scan_monotonic(rest, now, w1, w2);
    let s1 = retained_records(scan_page_spec(page, now, w1));
    let s2 = retained_records(scan_page_spec(page, now, w2));
    let t1 = retained_records(scan_page_spec(rest, now, w1));
    let t2 = retained_records(scan_page_spec(rest, now, w2));
    if dates_outside(d, now, w1) {
        // the smaller window retained nothing of this page
        assert(s1 =~= Seq::<CommitRecord>::empty());
        assert forall|r: CommitRecord| s1.contains(r) implies s2.contains(r) by {}
    } else {
        // inside the smaller window, so inside the larger too
        if in_window_spec(rfc3339_unix_secs(d.author_date@)->0 as int, now, w1) {
            lemma_in_window_monotonic(rfc3339_unix_secs(d.author_date@)->0 as int, now, w1, w2);
        } else {
            lemma_in_window_monotonic(rfc3339_unix_secs(d.committer_date@)->0 as int, now, w1, w2);
        }
        assert(!dates_outside(d, now, w2));
        assert forall|r: CommitRecord| s1.contains(r) implies s2.contains(r) by {
            match scan_page_spec(rest, now, w1) {
                PageScanView::Failed(_) => {
                    assert(s1 =~= Seq::<CommitRecord>::empty());
                },
                _ => {
                    assert(s1 == seq![r0] + t1);
                    let i = choose|i: int| 0 <= i < s1.len() && s1[i] == r;
                    match scan_page_spec(rest, now, w2) {
                        PageScanView::Failed(_) => {
                            // dated records leave nothing to fail on
                            lemma_scan_dated_no_failure(rest, now, w2);
                        },
                        _ => {
                            assert(s2 == seq![r0] + t2);
                            if i == 0 {
                                assert(s2[0] == r);
                            } else {
                                assert(t1[i - 1] == r);
                                assert(t1.contains(r));
                                let j = choose|j: int| 0 <= j < t2.len() && t2[j] == r;
                                assert(s2[j + 1] == r);
                            }
                        },
                    }
                },
            }
        }
    }
}

/// A page of dated records never fails the scan.
proof fn lemma_scan_dated_no_failure(page: Seq<CommitRecord>, now: int, window: int)
    requires
        forall|k: int| 0 <= k < page.len() ==> record_dated(#[trigger] page[k]),
    ensures
        !(scan_page_spec(page, now, window) is Failed),
    decreases page.len(),
{
    if page.len() > 0 {
        let rest = page.drop_first();
        assert forall|k: int| 0 <= k < rest.len() implies record_dated(#[trigger] rest[k]) by {
            assert(rest[k] == page[k + 1]);
        }
        lemma_scan_dated_no_failure(rest, now, window);
    }
}

/// Law (early termination): over pages of dated records, newest first,
/// whose first record outside the window stands on page `pi` (counted
/// from 0) at index `ri` — every earlier record, on that page or an
/// earlier one, still inside — the walk makes exactly `pi + 1` fetches,
/// stopping at that very page, and retains exactly the records that
/// precede the terminating one: the earlier pages whole, and the
/// terminating page's prefix before `ri`. Nothing from the terminating
/// record on, and no later page, is touched.
pub proof fn lemma_early_termination(
    pages: Seq<Seq<CommitRecord>>,
    now: int,
    window: int,
    pi: int,
    ri: int,
)
    requires
        0 <= pi < pages.len(),
        0 <= ri < pages[pi].len(),
        forall|p: int| 0 <= p <= pi ==> #[trigger] pages[p].len() > 0,
        forall|p: int, k: int|
            0 <= p <= pi && 0 <= k < pages[p].len() ==> record_dated(#[trigger] pages[p][k]),
        record_outside(pages[pi][ri], now, window),
        forall|p: int, k: int|
            0 <= p <= pi && 0 <= k < pages[p].len() && (p < pi || k < ri) ==> !record_outside(
                #[trigger] pages[p][k],
                now,
                window,
            ),
    ensures
        walk_pages_spec(pages, now, window) == WalkView::Success(
            pages.take(pi).flatten() + pages[pi].take(ri),
            pi + 1,
        ),
    decreases pi,
{
    if pi == 0 {
        lemma_scan_stops(pages[0], now, window, ri);
        assert(pages.take(0) =~= Seq::<Seq<CommitRecord>>::empty());
        assert(Seq::<Seq<CommitRecord>>::empty().flatten() + pages[0].take(ri) =~= pages[0].take(
            ri,
        ));
    } else {
        lemma_scan_keeps_all(pages[0], now, window);
        let rest = pages.drop_first();
        assert forall|p: int| 0 <= p <= pi - 1 implies #[trigger] rest[p].len() > 0 by {
            assert(rest[p] == pages[p + 1]);
        }
        assert forall|p: int, k: int|
            0 <= p <= pi - 1 && 0 <= k < rest[p].len() implies record_dated(
            #[trigger] rest[p][k],
        ) by {
            assert(rest[p] == pages[p + 1]);
        }
        assert(rest[pi - 1] == pages[pi]);
        assert forall|p: int, k: int|
            0 <= p <= pi - 1 && 0 <= k < rest[p].len() && (p < pi - 1 || k < ri)
            implies !record_outside(#[trigger] rest[p][k], now, window) by {
            assert(rest[p] == pages[p + 1]);
        }
        lemma_early_termination(rest, now, window, pi - 1, ri);
        assert(pages.take(pi).drop_first() =~= rest.take(pi - 1));
        assert(pages.take(pi).flatten() == pages[0] + rest.take(pi - 1).flatten());
        assert((pages[0] + rest.take(pi - 1).flatten()) + rest[pi - 1].take(ri) =~= pages[0] + (
        rest.take(pi - 1).flatten() + rest[pi - 1].take(ri)));
    }
}

/// Law (empty repository): the empty-repository signal ends the walk
/// successfully with whatever was already accumulated — possibly nothing
/// — never as an error.
pub proof fn lemma_empty_repo_success(
    next_page: int,
    acc: Seq<CommitRecord>,
    now: int,
    window: int,
)
    ensures
        walk_step_spec(next_page, acc, FetchEvent::EmptyRepo, now, window) == WalkStepView::Done(
            acc,
        ),
{
}

/// Classifies a failed commit-page fetch: the conflict status is the
/// empty-repository signal, a successful empty walk; any other failure is
/// a transport error for this repository alone.
pub fn classify_fetch_failure(status: Option<u16>, detail: String) -> (r: FetchEvent)
    ensures
        r == (if status matches Some(s) && s == EMPTY_REPO_STATUS {
            FetchEvent::EmptyRepo
        } else {
            FetchEvent::FetchFailed(detail)
        }),
{
    match status {
        Option::Some(s) if s == EMPTY_REPO_STATUS => FetchEvent::EmptyRepo,
        _ => FetchEvent::FetchFailed(detail),
    }
}

} // verus!
