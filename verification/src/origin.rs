//! The access rule engine: wildcard pattern matching over hosts and
//! origins, and the forward-auth decision built on it.

use vstd::prelude::*;

use crate::errors::ApiError;
use crate::models::{DomainRule, DomainRuleView, URLRule, URLRuleView};
use crate::roles::Role;
use crate::trusted::{origin_host, url_host};

verus! {

/// LIKE-style wildcard matching: `%` and `*` match any run of characters,
/// `_` matches exactly one, anything else matches itself.
pub open spec fn like_match(p: Seq<char>, t: Seq<char>) -> bool
    decreases p.len(), t.len(),
{
    if p.len() == 0 {
        t.len() == 0
    } else if p[0] == '%' || p[0] == '*' {
        like_match(p.skip(1), t) || (t.len() > 0 && like_match(p, t.skip(1)))
    } else if t.len() == 0 {
        false
    } else {
        (p[0] == '_' || p[0] == t[0]) && like_match(p.skip(1), t.skip(1))
    }
}

/// Matches pattern suffix `p[i..]` against text suffix `t[j..]`.
fn like_from(p: &str, t: &str, i: usize, j: usize) -> (b: bool)
    requires
        i <= p@.len(),
        j <= t@.len(),
    ensures
        b == like_match(p@.skip(i as int), t@.skip(j as int)),
    decreases p@.len() - i, t@.len() - j,
{
    let pn = p.unicode_len();
    let tn = t.unicode_len();
    proof {
        if i < pn {
            assert(p@.skip(i as int)[0] == p@[i as int]);
            assert(p@.skip(i as int).skip(1) =~= p@.skip(i as int + 1));
        }
        if j < tn {
            assert(t@.skip(j as int)[0] == t@[j as int]);
            assert(t@.skip(j as int).skip(1) =~= t@.skip(j as int + 1));
        }
    }
    if i == pn {
        return j == tn;
    }
    let c = p.get_char(i);
    if c == '%' || c == '*' {
        if like_from(p, t, i + 1, j) {
            return true;
        }
        if j < tn && like_from(p, t, i, j + 1) {
            return true;
        }
        return false;
    }
    if j == tn {
        return false;
    }
    let tc = t.get_char(j);
    if c == '_' || c == tc {
        like_from(p, t, i + 1, j + 1)
    } else {
        false
    }
}

/// Whether a wildcard pattern matches a whole text.
pub fn like_match_str(pattern: &str, text: &str) -> (b: bool)
    ensures
        b == like_match(pattern@, text@),
{
    proof {
        assert(pattern@.skip(0) =~= pattern@);
        assert(text@.skip(0) =~= text@);
    }
    like_from(pattern, text, 0, 0)
}

/// Whether the caller's group list holds the group a rule names.
pub open spec fn group_allowed(groups: Seq<i32>, gid: int) -> bool {
    exists|k: int| 0 <= k < groups.len() && groups[k] as int == gid
}

/// Whether some domain rule grants one of the caller's groups this host.
pub open spec fn domain_rule_matches(
    drs: Seq<DomainRuleView>,
    host: Seq<char>,
    groups: Seq<i32>,
) -> bool {
    exists|k: int|
        0 <= k < drs.len() && like_match((#[trigger] drs[k]).domain, host) && group_allowed(
            groups,
            drs[k].group_id,
        )
}

/// Whether some URL rule grants one of the caller's groups this origin.
pub open spec fn url_rule_matches(
    urs: Seq<URLRuleView>,
    origin: Seq<char>,
    groups: Seq<i32>,
) -> bool {
    exists|k: int|
        0 <= k < urs.len() && like_match((#[trigger] urs[k]).url, origin) && group_allowed(
            groups,
            urs[k].group_id,
        )
}

/// Whether `gid` is among the caller's groups.
fn holds_group(groups: &Vec<i32>, gid: i32) -> (b: bool)
    ensures
        b == group_allowed(groups@, gid as int),
{
    let n = groups.len();
    let mut k: usize = 0;
    while k < n
        invariant
            n == groups@.len(),
            k <= n,
            forall|j: int| 0 <= j < k ==> groups@[j] as int != gid as int,
        decreases n - k,
    {
        if groups[k] == gid {
            return true;
        }
        k += 1;
    }
    false
}

/// The disjunctive rule check: any one matching rule of either kind, for
/// any one group the caller holds, suffices; absence of a match is the
/// only deny signal.
pub fn user_allowed_to_origin(
    drules: &Vec<DomainRule>,
    urules: &Vec<URLRule>,
    origin: &str,
    host: &str,
    groups: &Vec<i32>,
) -> (r: Result<(), ApiError>)
    ensures
        r == (if domain_rule_matches(drules@.map_values(|x: DomainRule| x@), host@, groups@)
            || url_rule_matches(urules@.map_values(|x: URLRule| x@), origin@, groups@) {
            Ok::<(), ApiError>(())
        } else {
            Err::<(), ApiError>(ApiError::Group)
        }),
{
    let dn = drules.len();
    let mut k: usize = 0;
    while k < dn
        invariant
            dn == drules@.len(),
            k <= dn,
            forall|j: int| 0 <= j < k ==> !(like_match((#[trigger] drules@[j])@.domain, host@)
                && group_allowed(groups@, drules@[j]@.group_id)),
        decreases dn - k,
    {
        if like_match_str(drules[k].domain.as_str(), host) && holds_group(
            groups,
            drules[k].group_id,
        ) {
            proof {
                let vs = drules@.map_values(|x: DomainRule| x@);
                assert(vs[k as int] == drules@[k as int]@);
                assert(like_match(vs[k as int].domain, host@) && group_allowed(
                    groups@,
                    vs[k as int].group_id,
                ));
            }
            return Ok(());
        }
        k += 1;
    }
    proof {
        let vs = drules@.map_values(|x: DomainRule| x@);
        assert forall|j: int| 0 <= j < vs.len() implies !(like_match(
            (#[trigger] vs[j]).domain,
            host@,
        ) && group_allowed(groups@, vs[j].group_id)) by {
            assert(vs[j] == drules@[j]@);
        }
    }
    let un = urules.len();
    let mut m: usize = 0;
    while m < un
        invariant
            un == urules@.len(),
            m <= un,
            forall|j: int| 0 <= j < m ==> !(like_match((#[trigger] urules@[j])@.url, origin@)
                && group_allowed(groups@, urules@[j]@.group_id)),
            !domain_rule_matches(drules@.map_values(|x: DomainRule| x@), host@, groups@),
        decreases un - m,
    {
        if like_match_str(urules[m].url.as_str(), origin) && holds_group(
            groups,
            urules[m].group_id,
        ) {
            proof {
                let vs = urules@.map_values(|x: URLRule| x@);
                assert(vs[m as int] == urules@[m as int]@);
                assert(like_match(vs[m as int].url, origin@) && group_allowed(
                    groups@,
                    vs[m as int].group_id,
                ));
            }
            return Ok(());
        }
        m += 1;
    }
    proof {
        let vs = urules@.map_values(|x: URLRule| x@);
        assert forall|j: int| 0 <= j < vs.len() implies !(like_match(
            (#[trigger] vs[j]).url,
            origin@,
        ) && group_allowed(groups@, vs[j].group_id)) by {
            assert(vs[j] == urules@[j]@);
        }
    }
    Err(ApiError::Group)
}

/// What the access decision answers: a caller-input error when the origin
/// does not parse as a URL with a host; unconditional grant for root; and
/// otherwise grant exactly when a rule of either kind matches for one of
/// the caller's groups.
pub open spec fn spec_origin_decision(
    role: Role,
    groups: Seq<i32>,
    origin: Seq<char>,
    drs: Seq<DomainRuleView>,
    urs: Seq<URLRuleView>,
) -> Result<(), ApiError> {
    match url_host(origin) {
        None => Err(ApiError::User),
        Some(host) => if role == Role::Root {
            Ok(())
        } else if domain_rule_matches(drs, host, groups) || url_rule_matches(
            urs,
            origin,
            groups,
        ) {
            Ok(())
        } else {
            Err(ApiError::Group)
        },
    }
}

/// The forward-auth decision for one caller and one candidate origin.
pub fn decide_origin_access(
    role: Role,
    groups: &Vec<i32>,
    origin: &str,
    drules: &Vec<DomainRule>,
    urules: &Vec<URLRule>,
) -> (r: Result<(), ApiError>)
    ensures
        r == spec_origin_decision(
            role,
            groups@,
            origin@,
            drules@.map_values(|x: DomainRule| x@),
            urules@.map_values(|x: URLRule| x@),
        ),
{
    match origin_host(origin) {
        None => Err(ApiError::User),
        Some(host) => {
            if role == Role::Root {
                return Ok(());
            }
            user_allowed_to_origin(drules, urules, origin, host.as_str(), groups)
        },
    }
}

/// Denial is a pure function of the rule state: the decision denies with
/// the group error exactly when the origin parses, the caller is not
/// root, and no rule of either kind matches for any group the caller
/// holds — so re-evaluating it under unchanged rules denies again.
pub proof fn lemma_deny_means_no_match(
    role: Role,
    groups: Seq<i32>,
    origin: Seq<char>,
    drs: Seq<DomainRuleView>,
    urs: Seq<URLRuleView>,
)
    ensures
        (spec_origin_decision(role, groups, origin, drs, urs) == Err::<(), ApiError>(
            ApiError::Group,
        )) <==> (url_host(origin) is Some && role != Role::Root && !domain_rule_matches(
            drs,
            url_host(origin)->Some_0,
            groups,
        ) && !url_rule_matches(urs, origin, groups)),
{
}

/// Root bypass: a caller holding the root role is granted any origin that
/// parses, whatever the rule tables hold.
pub proof fn lemma_root_bypass(
    groups: Seq<i32>,
    origin: Seq<char>,
    drs: Seq<DomainRuleView>,
    urs: Seq<URLRuleView>,
)
    ensures
        url_host(origin) is Some ==> spec_origin_decision(Role::Root, groups, origin, drs, urs)
            == Ok::<(), ApiError>(()),
{
}

} // verus!
