//! The membership filter: the optional last stage that prunes the
//! aggregated identities down to the organization's formal members. The
//! unverified shell issues one membership check per aggregated login,
//! under the same concurrency cap as the walks, and hands the classified
//! outcomes in; a check that is neither a clear yes nor a clear "not
//! found" leaves membership unknowable and is fatal to the whole run.

use vstd::prelude::*;

use crate::aggregate::AggregatedIdentities;

verus! {

/// The HTTP status with which a membership check answers that the login
/// is not a member of the organization.
pub const NOT_MEMBER_STATUS: u16 = 404;

/// What one membership check came to.
pub enum MembershipClass {
    /// The check succeeded: the login is a member.
    Member,
    /// The service answered "not found": the login is not a member.
    NotMember,
    /// Anything else: membership cannot be decided either way.
    Indeterminate,
}

/// How a check's raw outcome is read: success means member, the
/// not-found status means non-member, and any other failure leaves
/// membership indeterminate.
pub open spec fn classify_membership_spec(succeeded: bool, status: Option<u16>) -> MembershipClass {
    if succeeded {
        MembershipClass::Member
    } else if status matches Some(s) && s == NOT_MEMBER_STATUS {
        MembershipClass::NotMember
    } else {
        MembershipClass::Indeterminate
    }
}

/// Classifies one membership check from whether the call succeeded and
/// the HTTP status it failed with, if any.
pub fn classify_membership(succeeded: bool, status: Option<u16>) -> (r: MembershipClass)
    ensures
        r == classify_membership_spec(succeeded, status),
{
    if succeeded {
        MembershipClass::Member
    } else {
        match status {
            Option::Some(s) if s == NOT_MEMBER_STATUS => MembershipClass::NotMember,
            _ => MembershipClass::Indeterminate,
        }
    }
}

/// What the classified checks make of the aggregated mapping: walking the
/// checks in order, the first indeterminate one fails the run with its
/// login; otherwise the result maps exactly the logins checked as members
/// that the aggregate holds, each to its aggregated profile URL.
pub open spec fn member_map_spec(
    agg: Map<Seq<char>, Seq<char>>,
    checks: Seq<(String, MembershipClass)>,
) -> Result<Map<Seq<char>, Seq<char>>, Seq<char>>
    decreases checks.len(),
{
    if checks.len() == 0 {
        Ok(Map::empty())
    } else {
        let c = checks[0];
        if c.1 is Indeterminate {
            Err(c.0@)
        } else {
            match member_map_spec(agg, checks.drop_first()) {
                Err(e) => Err(e),
                Ok(rest) => Ok(
                    if c.1 is Member && agg.dom().contains(c.0@) {
                        rest.insert(c.0@, agg[c.0@])
                    } else {
                        rest
                    },
                ),
            }
        }
    }
}

/// Law (membership filtering): when every check is decisive, the result
/// holds exactly the aggregated logins checked as members — each such
/// login under its aggregated URL, a login of the result always one of
/// them, nothing else let through.
pub proof fn lemma_member_map_characterized(
    agg: Map<Seq<char>, Seq<char>>,
    checks: Seq<(String, MembershipClass)>,
)
    requires
        member_map_spec(agg, checks) is Ok,
    ensures
        forall|l: Seq<char>| #[trigger]
            member_map_spec(agg, checks)->Ok_0.dom().contains(l) ==> agg.dom().contains(l)
                && member_map_spec(agg, checks)->Ok_0[l] == agg[l] && exists|i: int|
                0 <= i < checks.len() && #[trigger] checks[i].0@ == l && checks[i].1 is Member,
        forall|i: int|
            0 <= i < checks.len() && (#[trigger] checks[i].1) is Member && agg.dom().contains(
                checks[i].0@,
            ) ==> member_map_spec(agg, checks)->Ok_0.dom().contains(checks[i].0@),
    decreases checks.len(),
{
    if checks.len() > 0 {
        let rest = checks.drop_first();
        lemma_member_map_characterized(agg, rest);
        let m = member_map_spec(agg, checks)->Ok_0;
        let mr = member_map_spec(agg, rest)->Ok_0;
        let c = checks[0];
        assert forall|l: Seq<char>| #[trigger] m.dom().contains(l) implies agg.dom().contains(l)
            && m[l] == agg[l] && exists|i: int|
            0 <= i < checks.len() && #[trigger] checks[i].0@ == l && checks[i].1 is Member by {
            if c.1 is Member && agg.dom().contains(c.0@) && l == c.0@ {
                assert(checks[0].0@ == l && checks[0].1 is Member);
            } else {
                assert(mr.dom().contains(l));
                let i = choose|i: int|
                    0 <= i < rest.len() && #[trigger] rest[i].0@ == l && rest[i].1 is Member;
                assert(checks[i + 1].0@ == l && checks[i + 1].1 is Member);
            }
        }
        assert forall|i: int|
            0 <= i < checks.len() && (#[trigger] checks[i].1) is Member && agg.dom().contains(
                checks[i].0@,
            ) implies m.dom().contains(checks[i].0@) by {
            if i > 0 {
                assert(rest[i - 1] == checks[i]);
                assert(mr.dom().contains(checks[i].0@));
            }
        }
    }
}

/// Applies the classified membership checks to the aggregate: keeps
/// exactly the member logins with their aggregated URLs, or fails with
/// the first login whose check was indeterminate.
pub fn apply_membership(agg: &AggregatedIdentities, checks: &Vec<(String, MembershipClass)>) -> (r:
    Result<AggregatedIdentities, String>)
    requires
        agg.wf(),
    ensures
        match member_map_spec(agg@, checks@) {
            Ok(m) => r matches Ok(out) && out.wf() && out@ == m,
            Err(l) => r matches Err(s) && s@ == l,
        },
{
    let ghost all = checks@;
    let mut kept = AggregatedIdentities::new();
    let mut cur: Result<AggregatedIdentities, String> = Ok(kept);
    let mut i: usize = checks.len();
    proof {
        assert(all.skip(checks@.len() as int) =~= Seq::<(String, MembershipClass)>::empty());
    }
    while i > 0
        invariant
            i <= checks@.len(),
            all == checks@,
            agg.wf(),
            match member_map_spec(agg@, all.skip(i as int)) {
                Ok(m) => cur matches Ok(out) && out.wf() && out@ == m,
                Err(l) => cur matches Err(s) && s@ == l,
            },
        decreases i,
    {
        i -= 1;
        proof {
            assert(all.skip(i as int).len() > 0);
            assert(all.skip(i as int)[0] == all[i as int]);
            assert(all.skip(i as int).drop_first() =~= all.skip(i as int + 1));
        }
        let check = &checks[i];
        match &check.1 {
            MembershipClass::Indeterminate => {
                cur = Err(check.0.clone());
            },
            MembershipClass::Member => {
                cur = match cur {
                    Ok(mut out) => {
                        match agg.get(&check.0) {
                            Option::Some(url) => {
                                let url_copy = url.clone();
                                out.insert(check.0.clone(), url_copy);
                            },
                            Option::None => {},
                        }
                        Ok(out)
                    },
                    Err(e) => Err(e),
                };
            },
            MembershipClass::NotMember => {},
        }
    }
    proof {
        assert(all.skip(0) =~= all);
    }
    cur
}

/// The whole optional stage: with the member restriction off, the
/// aggregated identities pass through unchanged; with it on, the checks
/// decide as `apply_membership` says.
pub fn restrict_to_members(
    agg: AggregatedIdentities,
    restrict: bool,
    checks: &Vec<(String, MembershipClass)>,
) -> (r: Result<AggregatedIdentities, String>)
    requires
        agg.wf(),
    ensures
        !restrict ==> (r matches Ok(out) && out == agg),
        restrict ==> (match member_map_spec(agg@, checks@) {
            Ok(m) => r matches Ok(out) && out.wf() && out@ == m,
            Err(l) => r matches Err(s) && s@ == l,
        }),
{
    if restrict {
        apply_membership(&agg, checks)
    } else {
        Ok(agg)
    }
}

} // verus!
