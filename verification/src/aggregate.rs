//! The identity aggregator: folds every retained commit's author and
//! committer accounts into one deduplicated mapping from login to profile
//! URL, last write winning on a repeated login. The mapping is held as an
//! association list with pairwise-distinct logins and viewed as a `Map`
//! from login characters to URL characters.

use vstd::prelude::*;

use crate::records::{Account, CommitRecord};

verus! {

/// The map an association list denotes, later entries winning.
pub open spec fn assoc_map(pairs: Seq<(String, String)>) -> Map<Seq<char>, Seq<char>>
    decreases pairs.len(),
{
    if pairs.len() == 0 {
        Map::empty()
    } else {
        assoc_map(pairs.drop_last()).insert(pairs.last().0@, pairs.last().1@)
    }
}

/// The logins of an association list are pairwise distinct.
pub open spec fn distinct_logins(pairs: Seq<(String, String)>) -> bool {
    forall|i: int, j: int|
        0 <= i < j < pairs.len() ==> #[trigger] pairs[i].0@ != #[trigger] pairs[j].0@
}

/// Every login of the list is in the denoted map's domain, and with
/// distinct logins each login maps to its own entry's URL.
proof fn lemma_assoc_map_entries(pairs: Seq<(String, String)>, j: int)
    requires
        distinct_logins(pairs),
        0 <= j < pairs.len(),
    ensures
        assoc_map(pairs).dom().contains(pairs[j].0@),
        assoc_map(pairs)[pairs[j].0@] == pairs[j].1@,
    decreases pairs.len(),
{
    if j < pairs.len() - 1 {
        lemma_assoc_map_entries(pairs.drop_last(), j);
    }
}

/// A login in the denoted map's domain is the login of some entry.
proof fn lemma_assoc_map_dom(pairs: Seq<(String, String)>, l: Seq<char>)
    requires
        assoc_map(pairs).dom().contains(l),
    ensures
        exists|i: int| 0 <= i < pairs.len() && #[trigger] pairs[i].0@ == l,
    decreases pairs.len(),
{
    if pairs.len() > 0 {
        if pairs.last().0@ == l {
            assert(pairs[pairs.len() - 1].0@ == l);
        } else {
            lemma_assoc_map_dom(pairs.drop_last(), l);
        }
    }
}

/// Updating the entry that already carries a login denotes the same map
/// as inserting that login afresh.
proof fn lemma_assoc_map_update(pairs: Seq<(String, String)>, j: int, p: (String, String))
    requires
        distinct_logins(pairs),
        0 <= j < pairs.len(),
        pairs[j].0@ == p.0@,
    ensures
        assoc_map(pairs.update(j, p)) == assoc_map(pairs).insert(p.0@, p.1@),
    decreases pairs.len(),
{
    let upd = pairs.update(j, p);
    if j == pairs.len() - 1 {
        assert(upd.drop_last() =~= pairs.drop_last());
        assert(upd.last() == p);
        assert(assoc_map(pairs.drop_last()).insert(p.0@, p.1@) =~= assoc_map(
            pairs.drop_last(),
        ).insert(pairs.last().0@, pairs.last().1@).insert(p.0@, p.1@));
    } else {
        assert(upd.drop_last() =~= pairs.drop_last().update(j, p));
        assert(upd.last() == pairs.last());
        lemma_assoc_map_update(pairs.drop_last(), j, p);
        // the final inserts commute: the updated login differs from the last one
        assert(pairs[pairs.len() - 1].0@ != p.0@);
        assert(assoc_map(pairs.drop_last()).insert(p.0@, p.1@).insert(
            pairs.last().0@,
            pairs.last().1@,
        ) =~= assoc_map(pairs.drop_last()).insert(pairs.last().0@, pairs.last().1@).insert(
            p.0@,
            p.1@,
        ));
    }
}

/// What one optional account does to the mapping: an account carrying
/// both a login and a profile URL is written in; anything less is skipped.
pub open spec fn account_insert(m: Map<Seq<char>, Seq<char>>, a: Option<Account>) -> Map<
    Seq<char>,
    Seq<char>,
> {
    match a {
        Option::Some(acc) => {
            if acc.login is Some && acc.html_url is Some {
                m.insert(acc.login->0@, acc.html_url->0@)
            } else {
                m
            }
        },
        Option::None => m,
    }
}

/// What one commit record does to the mapping: its author account first,
/// then its committer account, each considered independently.
pub open spec fn record_inserts(m: Map<Seq<char>, Seq<char>>, r: CommitRecord) -> Map<
    Seq<char>,
    Seq<char>,
> {
    account_insert(account_insert(m, r.author), r.committer)
}

/// The fold of a sequence of commit records onto a mapping, in order.
pub open spec fn aggregate_spec(records: Seq<CommitRecord>, m: Map<Seq<char>, Seq<char>>) -> Map<
    Seq<char>,
    Seq<char>,
>
    decreases records.len(),
{
    if records.len() == 0 {
        m
    } else {
        aggregate_spec(records.drop_first(), record_inserts(m, records[0]))
    }
}

/// The eligible `(login, URL)` pairs one optional account offers: one
/// pair when both fields are present, none otherwise.
pub open spec fn account_pairs(a: Option<Account>) -> Set<(Seq<char>, Seq<char>)> {
    match a {
        Option::Some(acc) => {
            if acc.login is Some && acc.html_url is Some {
                set![(acc.login->0@, acc.html_url->0@)]
            } else {
                Set::empty()
            }
        },
        Option::None => Set::empty(),
    }
}

/// The pairs one commit record contributes: its author's and its
/// committer's.
pub open spec fn record_pairs(r: CommitRecord) -> Set<(Seq<char>, Seq<char>)> {
    account_pairs(r.author).union(account_pairs(r.committer))
}

/// Every pair a sequence of records contributes.
pub open spec fn contributed_pairs(records: Seq<CommitRecord>) -> Set<(Seq<char>, Seq<char>)>
    decreases records.len(),
{
    if records.len() == 0 {
        Set::empty()
    } else {
        record_pairs(records[0]).union(contributed_pairs(records.drop_first()))
    }
}

/// Among these pairs a login determines its URL: the premise under which
/// the fold's outcome cannot depend on order.
pub open spec fn consistent_pairs(ps: Set<(Seq<char>, Seq<char>)>) -> bool {
    forall|p1: (Seq<char>, Seq<char>), p2: (Seq<char>, Seq<char>)|
        #[trigger] ps.contains(p1) && #[trigger] ps.contains(p2) && p1.0 == p2.0 ==> p1.1 == p2.1
}

/// What the fold denotes, pinned down without any mention of order: a
/// login is in the folded map exactly when it was there before or some
/// record contributed it; a contributed login maps to its one URL; an
/// uncontributed login keeps its prior URL.
pub proof fn lemma_aggregate_characterized(
    records: Seq<CommitRecord>,
    m: Map<Seq<char>, Seq<char>>,
)
    requires
        consistent_pairs(contributed_pairs(records)),
    ensures
        forall|l: Seq<char>|
            #[trigger] aggregate_spec(records, m).dom().contains(l) <==> (m.dom().contains(l)
                || exists|u: Seq<char>| #[trigger] contributed_pairs(records).contains((l, u))),
        forall|l: Seq<char>, u: Seq<char>| #[trigger]
            contributed_pairs(records).contains((l, u)) ==> aggregate_spec(
                records,
                m,
            ).dom().contains(l) && aggregate_spec(records, m)[l] == u,
        forall|l: Seq<char>|
            m.dom().contains(l) && !(exists|u: Seq<char>| #[trigger] contributed_pairs(
                records,
            ).contains((l, u))) ==> #[trigger] aggregate_spec(records, m)[l] == m[l],
    decreases records.len(),
{
    if records.len() == 0 {
    } else {
        let r0 = records[0];
        let rest = records.drop_first();
        let m1 = record_inserts(m, r0);
        let whole = contributed_pairs(records);
        assert(whole == record_pairs(r0).union(contributed_pairs(rest)));
        assert(consistent_pairs(contributed_pairs(rest))) by {
            assert forall|p1: (Seq<char>, Seq<char>), p2: (Seq<char>, Seq<char>)| #[trigger]
                contributed_pairs(rest).contains(p1) && #[trigger] contributed_pairs(
                rest,
            ).contains(p2) && p1.0 == p2.0 implies p1.1 == p2.1 by {
                assert(whole.contains(p1) && whole.contains(p2));
            }
        }
        lemma_aggregate_characterized(rest, m1);
        assert(aggregate_spec(records, m) == aggregate_spec(rest, m1));

        // what the first record's own inserts do to the map
        assert forall|l: Seq<char>, u: Seq<char>| #[trigger] record_pairs(r0).contains((l, u))
            implies m1.dom().contains(l) && m1[l] == u by {
            assert(whole.contains((l, u)));
            if account_pairs(r0.committer).contains((l, u)) {
            } else {
                assert(account_pairs(r0.author).contains((l, u)));
                match r0.committer {
                    Option::Some(acc) => {
                        if acc.login is Some && acc.html_url is Some && acc.login->0@ == l {
                            assert(whole.contains((l, acc.html_url->0@)));
                        }
                    },
                    Option::None => {},
                }
            }
        }
        assert forall|l: Seq<char>|
            !(exists|u: Seq<char>| #[trigger] record_pairs(r0).contains((l, u)))
            implies (m1.dom().contains(l) <==> m.dom().contains(l)) && (m.dom().contains(l)
            ==> m1[l] == m[l]) by {
            match r0.author {
                Option::Some(acc) => {
                    if acc.login is Some && acc.html_url is Some {
                        assert(record_pairs(r0).contains((acc.login->0@, acc.html_url->0@)));
                    }
                },
                Option::None => {},
            }
            match r0.committer {
                Option::Some(acc) => {
                    if acc.login is Some && acc.html_url is Some {
                        assert(record_pairs(r0).contains((acc.login->0@, acc.html_url->0@)));
                    }
                },
                Option::None => {},
            }
        }
        assert forall|l: Seq<char>| #[trigger] m1.dom().contains(l) implies (m.dom().contains(l)
            || exists|u: Seq<char>| #[trigger] record_pairs(r0).contains((l, u))) by {
            if !m.dom().contains(l) {
                match r0.committer {
                    Option::Some(acc) => {
                        if acc.login is Some && acc.html_url is Some && acc.login->0@ == l {
                            assert(record_pairs(r0).contains((l, acc.html_url->0@)));
                        } else {
                            assert(account_insert(m, r0.author).dom().contains(l));
                        }
                    },
                    Option::None => {
                        assert(account_insert(m, r0.author).dom().contains(l));
                    },
                }
                if !(exists|u: Seq<char>|
                    account_pairs(r0.committer).contains((l, u)))  {
                    assert(account_insert(m, r0.author).dom().contains(l));
                    match r0.author {
                        Option::Some(acc) => {
                            if acc.login is Some && acc.html_url is Some && acc.login->0@ == l {
                                assert(record_pairs(r0).contains((l, acc.html_url->0@)));
                            }
                        },
                        Option::None => {},
                    }
                }
            }
        }

        // goal 2: every contributed pair is in the folded map
        assert forall|l: Seq<char>, u: Seq<char>| #[trigger] whole.contains((l, u))
            implies aggregate_spec(records, m).dom().contains(l) && aggregate_spec(records, m)[l]
            == u by {
            if contributed_pairs(rest).contains((l, u)) {
            } else {
                assert(record_pairs(r0).contains((l, u)));
                assert(m1.dom().contains(l) && m1[l] == u);
                if exists|u2: Seq<char>| #[trigger] contributed_pairs(rest).contains((l, u2)) {
                    let u2 = choose|u2: Seq<char>| #[trigger] contributed_pairs(rest).contains(
                        (l, u2),
                    );
                    assert(whole.contains((l, u2)));
                    assert(u2 == u);
                } else {
                }
            }
        }

        // goal 1: the folded domain
        assert forall|l: Seq<char>| #[trigger] aggregate_spec(records, m).dom().contains(l)
            implies (m.dom().contains(l) || exists|u: Seq<char>| #[trigger] whole.contains(
            (l, u),
        )) by {
            if !m.dom().contains(l) {
                if exists|u: Seq<char>| #[trigger] contributed_pairs(rest).contains((l, u)) {
                    let u = choose|u: Seq<char>| #[trigger] contributed_pairs(rest).contains(
                        (l, u),
                    );
                    assert(whole.contains((l, u)));
                } else {
                    assert(m1.dom().contains(l));
                    let u = choose|u: Seq<char>| #[trigger] record_pairs(r0).contains((l, u));
                    assert(whole.contains((l, u)));
                }
            }
        }
        assert forall|l: Seq<char>|
            m.dom().contains(l) || exists|u: Seq<char>| #[trigger] whole.contains((l, u))
            implies #[trigger] aggregate_spec(records, m).dom().contains(l) by {
            if exists|u: Seq<char>| #[trigger] whole.contains((l, u)) {
                let u = choose|u: Seq<char>| #[trigger] whole.contains((l, u));
            } else {
                assert(m1.dom().contains(l));
                assert(aggregate_spec(rest, m1).dom().contains(l));
            }
        }

        // goal 3: untouched logins keep their URL
        assert forall|l: Seq<char>|
            m.dom().contains(l) && !(exists|u: Seq<char>| #[trigger] whole.contains((l, u)))
            implies #[trigger] aggregate_spec(records, m)[l] == m[l] by {
            if exists|u: Seq<char>| #[trigger] record_pairs(r0).contains((l, u)) {
                let u = choose|u: Seq<char>| #[trigger] record_pairs(r0).contains((l, u));
                assert(whole.contains((l, u)));
            }
            assert(m1.dom().contains(l) && m1[l] == m[l]);
            if exists|u: Seq<char>| #[trigger] contributed_pairs(rest).contains((l, u)) {
                let u = choose|u: Seq<char>| #[trigger] contributed_pairs(rest).contains((l, u));
                assert(whole.contains((l, u)));
            }
        }
    }
}

/// Law (order insensitivity): two folds fed the same contributed pairs —
/// a login determining its URL — denote the same mapping, whatever order
/// the records arrived in and however they were split into records.
pub proof fn lemma_aggregate_order_insensitive(
    r1: Seq<CommitRecord>,
    r2: Seq<CommitRecord>,
    m: Map<Seq<char>, Seq<char>>,
)
    requires
        contributed_pairs(r1) == contributed_pairs(r2),
        consistent_pairs(contributed_pairs(r1)),
    ensures
        aggregate_spec(r1, m) == aggregate_spec(r2, m),
{
    lemma_aggregate_characterized(r1, m);
    lemma_aggregate_characterized(r2, m);
    let a1 = aggregate_spec(r1, m);
    let a2 = aggregate_spec(r2, m);
    assert forall|l: Seq<char>| #[trigger] a1.dom().contains(l) implies a2.dom().contains(l)
        && a1[l] == a2[l] by {
        if exists|u: Seq<char>| #[trigger] contributed_pairs(r1).contains((l, u)) {
            let u = choose|u: Seq<char>| #[trigger] contributed_pairs(r1).contains((l, u));
        } else {
            assert(m.dom().contains(l));
        }
    }
    assert forall|l: Seq<char>| #[trigger] a2.dom().contains(l) implies a1.dom().contains(l) by {
        if exists|u: Seq<char>| #[trigger] contributed_pairs(r2).contains((l, u)) {
            let u = choose|u: Seq<char>| #[trigger] contributed_pairs(r2).contains((l, u));
        } else {
            assert(m.dom().contains(l));
        }
    }
    assert(a1 =~= a2);
}

/// Law (deduplication): two records — from wherever, in either order —
/// that contribute the same single identity put exactly one entry in,
/// the same entry a single contribution puts in.
pub proof fn lemma_dedup_two_records(
    r1: CommitRecord,
    r2: CommitRecord,
    login: Seq<char>,
    url: Seq<char>,
    m: Map<Seq<char>, Seq<char>>,
)
    requires
        record_pairs(r1) == set![(login, url)],
        record_pairs(r2) == set![(login, url)],
    ensures
        aggregate_spec(seq![r1, r2], m) == m.insert(login, url),
        aggregate_spec(seq![r1, r2], m) == aggregate_spec(seq![r1], m),
{
    lemma_record_inserts_single(r1, login, url, m);
    let m1 = record_inserts(m, r1);
    lemma_record_inserts_single(r2, login, url, m1);
    let s = seq![r1, r2];
    assert(s[0] == r1);
    assert(aggregate_spec(s, m) == aggregate_spec(s.drop_first(), m1));
    assert(s.drop_first() =~= seq![r2]);
    assert(seq![r2][0] == r2);
    assert(aggregate_spec(seq![r2], m1) == aggregate_spec(
        seq![r2].drop_first(),
        record_inserts(m1, r2),
    ));
    assert(seq![r2].drop_first() =~= Seq::<CommitRecord>::empty());
    assert(aggregate_spec(Seq::<CommitRecord>::empty(), record_inserts(m1, r2)) == record_inserts(
        m1,
        r2,
    ));
    assert(seq![r1][0] == r1);
    assert(aggregate_spec(seq![r1], m) == aggregate_spec(seq![r1].drop_first(), m1));
    assert(seq![r1].drop_first() =~= Seq::<CommitRecord>::empty());
    assert(m.insert(login, url).insert(login, url) =~= m.insert(login, url));
}

/// A record whose only contributed pair is `(login, url)` does to the
/// map exactly what inserting that pair does.
proof fn lemma_record_inserts_single(
    r: CommitRecord,
    login: Seq<char>,
    url: Seq<char>,
    m: Map<Seq<char>, Seq<char>>,
)
    requires
        record_pairs(r) == set![(login, url)],
    ensures
        record_inserts(m, r) == m.insert(login, url),
{
    match r.author {
        Option::Some(acc) => {
            if acc.login is Some && acc.html_url is Some {
                assert(record_pairs(r).contains((acc.login->0@, acc.html_url->0@)));
                assert((acc.login->0@, acc.html_url->0@) == (login, url));
            }
        },
        Option::None => {},
    }
    match r.committer {
        Option::Some(acc) => {
            if acc.login is Some && acc.html_url is Some {
                assert(record_pairs(r).contains((acc.login->0@, acc.html_url->0@)));
                assert((acc.login->0@, acc.html_url->0@) == (login, url));
            }
        },
        Option::None => {},
    }
    assert(set![(login, url)].contains((login, url)));
    assert(record_pairs(r).contains((login, url)));
    assert(m.insert(login, url).insert(login, url) =~= m.insert(login, url));
    assert(record_inserts(m, r) =~= m.insert(login, url));
}

/// The deduplicated identities: each login present once, with the profile
/// URL last written for it.
#[derive(Debug)]
pub struct AggregatedIdentities {
    pairs: Vec<(String, String)>,
}

impl View for AggregatedIdentities {
    type V = Map<Seq<char>, Seq<char>>;

    closed spec fn view(&self) -> Map<Seq<char>, Seq<char>> {
        assoc_map(self.pairs@)
    }
}

impl AggregatedIdentities {
    /// The association list is well formed: logins pairwise distinct.
    pub closed spec fn wf(&self) -> bool {
        distinct_logins(self.pairs@)
    }

    /// The entries as the list holds them, for iteration.
    pub closed spec fn entries(&self) -> Seq<(String, String)> {
        self.pairs@
    }

    /// An empty aggregate.
    pub fn new() -> (r: Self)
        ensures
            r.wf(),
            r@ == Map::<Seq<char>, Seq<char>>::empty(),
            r.entries().len() == 0,
    {
        AggregatedIdentities { pairs: Vec::new() }
    }

    /// How many identities are held.
    pub fn len(&self) -> (n: usize)
        ensures
            n == self.entries().len(),
    {
        self.pairs.len()
    }

    /// The entries, one `(login, profile URL)` pair per login, for the
    /// caller to render; the order is the insertion order of the logins.
    pub fn as_pairs(&self) -> (r: &Vec<(String, String)>)
        ensures
            r@ == self.entries(),
    {
        &self.pairs
    }

    /// Every entry is an entry of the map, and with `wf` the map holds
    /// nothing else.
    pub proof fn lemma_entries_view(&self)
        requires
            self.wf(),
        ensures
            forall|j: int|
                0 <= j < self.entries().len() ==> self@.dom().contains(
                    #[trigger] self.entries()[j].0@,
                ) && self@[self.entries()[j].0@] == self.entries()[j].1@,
            forall|l: Seq<char>| #[trigger]
                self@.dom().contains(l) ==> exists|j: int|
                    0 <= j < self.entries().len() && #[trigger] self.entries()[j].0@ == l,
    {
        assert forall|j: int| 0 <= j < self.entries().len() implies self@.dom().contains(
            #[trigger] self.entries()[j].0@,
        ) && self@[self.entries()[j].0@] == self.entries()[j].1@ by {
            lemma_assoc_map_entries(self.pairs@, j);
        }
        assert forall|l: Seq<char>| #[trigger] self@.dom().contains(l) implies exists|j: int|
            0 <= j < self.entries().len() && #[trigger] self.entries()[j].0@ == l by {
            lemma_assoc_map_dom(self.pairs@, l);
            let i = choose|i: int| 0 <= i < self.pairs@.len() && #[trigger] self.pairs@[i].0@ == l;
            assert(0 <= i < self.entries().len() && self.entries()[i].0@ == l);
        }
    }

    /// Inserts or overwrites one identity: last write wins on a login
    /// already present.
    pub fn insert(&mut self, login: String, url: String)
        requires
            old(self).wf(),
        ensures
            final(self).wf(),
            final(self)@ == old(self)@.insert(login@, url@),
    {
        let ghost pairs0 = self.pairs@;
        let mut i: usize = 0;
        while i < self.pairs.len()
            invariant
                i <= self.pairs@.len(),
                self.pairs@ == pairs0,
                pairs0 == old(self).pairs@,
                distinct_logins(pairs0),
                forall|k: int| 0 <= k < i ==> #[trigger] pairs0[k].0@ != login@,
            decreases self.pairs@.len() - i,
        {
            if self.pairs[i].0 == login {
                proof {
                    lemma_assoc_map_update(pairs0, i as int, (login, url));
                    let upd = pairs0.update(i as int, (login, url));
                    assert forall|k: int| 0 <= k < upd.len() implies #[trigger] upd[k].0@
                        == pairs0[k].0@ by {}
                    assert(distinct_logins(upd));
                }
                self.pairs.set(i, (login, url));
                return ;
            }
            i += 1;
        }
        self.pairs.push((login, url));
        proof {
            assert(self.pairs@.drop_last() =~= pairs0);
        }
    }

    /// Writes one optional account in, as `account_insert` says.
    fn add_account(&mut self, a: &Option<Account>)
        requires
            old(self).wf(),
        ensures
            final(self).wf(),
            final(self)@ == account_insert(old(self)@, *a),
    {
        match a {
            Option::Some(acc) => match (&acc.login, &acc.html_url) {
                (Option::Some(login), Option::Some(url)) => {
                    self.insert(login.clone(), url.clone());
                },
                _ => {},
            },
            Option::None => {},
        }
    }

    /// Folds every record of a walk in: for each record, in order, the
    /// author account and then the committer account.
    pub fn add_records(&mut self, records: &Vec<CommitRecord>)
        requires
            old(self).wf(),
        ensures
            final(self).wf(),
            final(self)@ == aggregate_spec(records@, old(self)@),
    {
        let ghost all = records@;
        let mut i: usize = 0;
        proof {
            assert(all.skip(0) =~= all);
        }
        while i < records.len()
            invariant
                i <= records@.len(),
                all == records@,
                self.wf(),
                aggregate_spec(all, old(self)@) == aggregate_spec(all.skip(i as int), self@),
            decreases records@.len() - i,
        {
            proof {
                assert(all.skip(i as int).len() > 0);
                assert(all.skip(i as int)[0] == all[i as int]);
                assert(all.skip(i as int).drop_first() =~= all.skip(i as int + 1));
            }
            let record = &records[i];
            self.add_account(&record.author);
            self.add_account(&record.committer);
            i += 1;
        }
        proof {
            assert(all.skip(records@.len() as int) =~= Seq::<CommitRecord>::empty());
        }
    }

    /// Looks a login up: its profile URL when the login is held, nothing
    /// otherwise.
    pub fn get(&self, login: &String) -> (r: Option<&String>)
        requires
            self.wf(),
        ensures
            match r {
                Option::Some(u) => self@.dom().contains(login@) && self@[login@] == u@,
                Option::None => !self@.dom().contains(login@),
            },
    {
        let mut i: usize = 0;
        while i < self.pairs.len()
            invariant
                i <= self.pairs@.len(),
                self.wf(),
                forall|k: int| 0 <= k < i ==> #[trigger] self.pairs@[k].0@ != login@,
            decreases self.pairs@.len() - i,
        {
            if self.pairs[i].0 == *login {
                proof {
                    lemma_assoc_map_entries(self.pairs@, i as int);
                }
                return Option::Some(&self.pairs[i].1);
            }
            i += 1;
        }
        proof {
            if self@.dom().contains(login@) {
                lemma_assoc_map_dom(self.pairs@, login@);
            }
        }
        Option::None
    }
}

} // verus!
