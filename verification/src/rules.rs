//! CRUD over the two access-rule tables: host patterns and full-origin
//! patterns, each granted to one group.

use vstd::prelude::*;

use crate::errors::ApiError;
use crate::models::{DomainRule, Group, NewDomainRule, NewURLRule, URLRule, User};
use crate::stores::{lemma_filter_take_step, Store};
use crate::strutil::str_eq;

verus! {

/// The domain rules granted to one group, in table order.
pub open spec fn drules_with_gid(rules: Seq<DomainRule>, gid: int) -> Seq<DomainRule> {
    rules.filter(|r: DomainRule| r.group_id as int == gid)
}

/// The URL rules granted to one group, in table order.
pub open spec fn urules_with_gid(rules: Seq<URLRule>, gid: int) -> Seq<URLRule> {
    rules.filter(|r: URLRule| r.group_id as int == gid)
}

/// The domain rules granted to any of the groups, group-major.
pub open spec fn drules_for_ids(rules: Seq<DomainRule>, ids: Seq<int>) -> Seq<DomainRule>
    decreases ids.len(),
{
    if ids.len() == 0 {
        Seq::empty()
    } else {
        drules_with_gid(rules, ids.first()) + drules_for_ids(rules, ids.drop_first())
    }
}

/// The URL rules granted to any of the groups, group-major.
pub open spec fn urules_for_ids(rules: Seq<URLRule>, ids: Seq<int>) -> Seq<URLRule>
    decreases ids.len(),
{
    if ids.len() == 0 {
        Seq::empty()
    } else {
        urules_with_gid(rules, ids.first()) + urules_for_ids(rules, ids.drop_first())
    }
}

/// Appending one group id appends its rules.
proof fn lemma_drules_for_ids_snoc(rules: Seq<DomainRule>, ids: Seq<int>, x: int)
    ensures
        drules_for_ids(rules, ids.push(x)) == drules_for_ids(rules, ids) + drules_with_gid(
            rules,
            x,
        ),
    decreases ids.len(),
{
    if ids.len() == 0 {
        assert(ids.push(x).first() == x);
        assert(ids.push(x).drop_first() =~= ids);
        assert(drules_for_ids(rules, ids) == Seq::<DomainRule>::empty());
        assert(drules_for_ids(rules, ids.push(x)) == drules_with_gid(rules, x)
            + drules_for_ids(rules, ids));
        assert(drules_with_gid(rules, x) + drules_for_ids(rules, ids) =~= drules_for_ids(
            rules,
            ids,
        ) + drules_with_gid(rules, x));
    } else {
        assert(ids.push(x).first() == ids.first());
        assert(ids.push(x).drop_first() =~= ids.drop_first().push(x));
        lemma_drules_for_ids_snoc(rules, ids.drop_first(), x);
        assert(drules_for_ids(rules, ids.push(x)) == drules_with_gid(rules, ids.first())
            + (drules_for_ids(rules, ids.drop_first()) + drules_with_gid(rules, x)));
        assert(drules_with_gid(rules, ids.first()) + (drules_for_ids(rules, ids.drop_first())
            + drules_with_gid(rules, x)) =~= (drules_with_gid(rules, ids.first())
            + drules_for_ids(rules, ids.drop_first())) + drules_with_gid(rules, x));
    }
}

/// Appending one group id appends its rules.
proof fn lemma_urules_for_ids_snoc(rules: Seq<URLRule>, ids: Seq<int>, x: int)
    ensures
        urules_for_ids(rules, ids.push(x)) == urules_for_ids(rules, ids) + urules_with_gid(
            rules,
            x,
        ),
    decreases ids.len(),
{
    if ids.len() == 0 {
        assert(ids.push(x).first() == x);
        assert(ids.push(x).drop_first() =~= ids);
        assert(urules_for_ids(rules, ids) == Seq::<URLRule>::empty());
        assert(urules_for_ids(rules, ids.push(x)) == urules_with_gid(rules, x)
            + urules_for_ids(rules, ids));
        assert(urules_with_gid(rules, x) + urules_for_ids(rules, ids) =~= urules_for_ids(
            rules,
            ids,
        ) + urules_with_gid(rules, x));
    } else {
        assert(ids.push(x).first() == ids.first());
        assert(ids.push(x).drop_first() =~= ids.drop_first().push(x));
        lemma_urules_for_ids_snoc(rules, ids.drop_first(), x);
        assert(urules_for_ids(rules, ids.push(x)) == urules_with_gid(rules, ids.first())
            + (urules_for_ids(rules, ids.drop_first()) + urules_with_gid(rules, x)));
        assert(urules_with_gid(rules, ids.first()) + (urules_for_ids(rules, ids.drop_first())
            + urules_with_gid(rules, x)) =~= (urules_with_gid(rules, ids.first())
            + urules_for_ids(rules, ids.drop_first())) + urules_with_gid(rules, x));
    }
}

impl Store {
    /// Whether a domain rule with this id exists.
    pub open spec fn has_drule(self, id: int) -> bool {
        exists|i: int|
            0 <= i < self.domain_rules@.len() && self.domain_rules@[i].id as int == id
    }

    /// Index of the domain rule with this id.
    pub open spec fn drule_idx(self, id: int) -> int {
        choose|i: int|
            0 <= i < self.domain_rules@.len() && self.domain_rules@[i].id as int == id
    }

    /// Under `wf`, an index holding a domain-rule id is the one
    /// `drule_idx` denotes.
    pub proof fn lemma_drule_found(self, i: int, id: int)
        requires
            self.wf(),
            0 <= i < self.domain_rules@.len(),
            self.domain_rules@[i].id as int == id,
        ensures
            self.has_drule(id),
            self.drule_idx(id) == i,
    {
        assert(self.has_drule(id));
        let w = self.drule_idx(id);
        if w != i {
            if w < i {
                assert(self.domain_rules@[w].id != self.domain_rules@[i].id);
            } else {
                assert(self.domain_rules@[i].id != self.domain_rules@[w].id);
            }
        }
    }

    /// Whether a URL rule with this id exists.
    pub open spec fn has_urule(self, id: int) -> bool {
        exists|i: int| 0 <= i < self.url_rules@.len() && self.url_rules@[i].id as int == id
    }

    /// Index of the URL rule with this id.
    pub open spec fn urule_idx(self, id: int) -> int {
        choose|i: int| 0 <= i < self.url_rules@.len() && self.url_rules@[i].id as int == id
    }

    /// Under `wf`, an index holding a URL-rule id is the one `urule_idx`
    /// denotes.
    pub proof fn lemma_urule_found(self, i: int, id: int)
        requires
            self.wf(),
            0 <= i < self.url_rules@.len(),
            self.url_rules@[i].id as int == id,
        ensures
            self.has_urule(id),
            self.urule_idx(id) == i,
    {
        assert(self.has_urule(id));
        let w = self.urule_idx(id);
        if w != i {
            if w < i {
                assert(self.url_rules@[w].id != self.url_rules@[i].id);
            } else {
                assert(self.url_rules@[i].id != self.url_rules@[w].id);
            }
        }
    }

    /// Preserving the user, group, membership and role tables preserves
    /// the invariants that speak of them.
    proof fn lemma_wf_rules_only(self, pre: Store)
        requires
            pre.wf(),
            self.users == pre.users,
            self.groups == pre.groups,
            self.memberships == pre.memberships,
            self.role_assignments == pre.role_assignments,
            self.next_user_id == pre.next_user_id,
            self.next_group_id == pre.next_group_id,
            forall|i: int, j: int| 0 <= i < j < self.domain_rules@.len()
                ==> self.domain_rules@[i].id != self.domain_rules@[j].id,
            forall|i: int| 0 <= i < self.domain_rules@.len()
                ==> (#[trigger] self.domain_rules@[i]).id < self.next_domain_rule_id,
            forall|i: int, j: int| 0 <= i < j < self.url_rules@.len()
                ==> self.url_rules@[i].id != self.url_rules@[j].id,
            forall|i: int| 0 <= i < self.url_rules@.len()
                ==> (#[trigger] self.url_rules@[i]).id < self.next_url_rule_id,
        ensures
            self.wf(),
    {
        assert forall|k: int| 0 <= k < self.memberships@.len() implies
            self.has_user((#[trigger] self.memberships@[k]).user_id as int) && self.has_group(
                self.memberships@[k].group_id as int,
            ) by {
            assert(pre.has_user(pre.memberships@[k].user_id as int));
            let wu = pre.user_idx(pre.memberships@[k].user_id as int);
            assert(self.users@[wu].id as int == pre.memberships@[k].user_id as int);
            assert(pre.has_group(pre.memberships@[k].group_id as int));
            let wg = pre.group_idx(pre.memberships@[k].group_id as int);
            assert(self.groups@[wg].id as int == pre.memberships@[k].group_id as int);
        }
        assert forall|k: int| 0 <= k < self.role_assignments@.len() implies
            self.has_user((#[trigger] self.role_assignments@[k]).user_id as int) by {
            assert(pre.has_user(pre.role_assignments@[k].user_id as int));
            let wu = pre.user_idx(pre.role_assignments@[k].user_id as int);
            assert(self.users@[wu].id as int == pre.role_assignments@[k].user_id as int);
        }
    }
}

impl DomainRule {
    /// Creates a domain rule under a fresh id; this fails exactly when
    /// the key counter is exhausted.
    pub fn create(store: &mut Store, domain_rule: &NewDomainRule) -> (r: Result<
        DomainRule,
        ApiError,
    >)
        requires
            old(store).wf(),
        ensures
            final(store).wf(),
            (r is Err) <==> old(store).next_domain_rule_id == i32::MAX,
            match r {
                Ok(rule) => {
                    &&& rule.id == old(store).next_domain_rule_id
                    &&& rule.domain@ == domain_rule.domain@
                    &&& rule.group_id == domain_rule.group_id
                    &&& final(store).domain_rules@.len() == old(store).domain_rules@.len() + 1
                    &&& final(store).domain_rules@.subrange(
                        0,
                        old(store).domain_rules@.len() as int,
                    ) == old(store).domain_rules@
                    &&& final(store).domain_rules@.last()@ == rule@
                    &&& final(store).users == old(store).users
                    &&& final(store).groups == old(store).groups
                    &&& final(store).memberships == old(store).memberships
                    &&& final(store).role_assignments == old(store).role_assignments
                    &&& final(store).url_rules == old(store).url_rules
                },
                Err(e) => e == ApiError::Internal && *final(store) == *old(store),
            },
    {
        if store.next_domain_rule_id == i32::MAX {
            return Err(ApiError::Internal);
        }
        let ghost olds = *store;
        let rule = DomainRule {
            id: store.next_domain_rule_id,
            domain: domain_rule.domain.clone(),
            group_id: domain_rule.group_id,
        };
        store.domain_rules.push(rule.clone());
        store.next_domain_rule_id = store.next_domain_rule_id + 1;
        proof {
            let n = olds.domain_rules@.len() as int;
            assert(store.domain_rules@[n].id == rule.id);
            assert forall|i: int, j: int| 0 <= i < j < store.domain_rules@.len() implies
                store.domain_rules@[i].id != store.domain_rules@[j].id by {
                if j < n {
                    assert(olds.domain_rules@[i].id != olds.domain_rules@[j].id);
                } else {
                    assert(olds.domain_rules@[i].id < olds.next_domain_rule_id);
                }
            }
            store.lemma_wf_rules_only(olds);
            assert(store.domain_rules@.subrange(0, n) =~= olds.domain_rules@);
        }
        Ok(rule)
    }

    /// Every domain rule.
    pub fn get_all(store: &Store) -> (r: Result<Vec<DomainRule>, ApiError>)
        ensures
            match r {
                Ok(v) => v@.len() == store.domain_rules@.len() && forall|i: int|
                    0 <= i < v@.len() ==> (#[trigger] v@[i])@ == store.domain_rules@[i]@,
                Err(_) => false,
            },
    {
        let mut out: Vec<DomainRule> = Vec::new();
        let n = store.domain_rules.len();
        let mut i: usize = 0;
        while i < n
            invariant
                n == store.domain_rules@.len(),
                i <= n,
                out@.len() == i,
                forall|j: int| 0 <= j < i ==> (#[trigger] out@[j])@ == store.domain_rules@[j]@,
            decreases n - i,
        {
            out.push(store.domain_rules[i].clone());
            i += 1;
        }
        Ok(out)
    }

    /// The domain rule with this id; a missing id surfaced as an internal
    /// fault at this lookup.
    pub fn get(store: &Store, rule_id: i32) -> (r: Result<DomainRule, ApiError>)
        requires
            store.wf(),
        ensures
            match r {
                Ok(rule) => store.has_drule(rule_id as int) && rule@ == store.domain_rules@[
                    store.drule_idx(rule_id as int)]@,
                Err(e) => e == ApiError::Internal && !store.has_drule(rule_id as int),
            },
    {
        let n = store.domain_rules.len();
        let mut i: usize = 0;
        while i < n
            invariant
                n == store.domain_rules@.len(),
                i <= n,
                store.wf(),
                forall|k: int| 0 <= k < i ==> store.domain_rules@[k].id != rule_id,
            decreases n - i,
        {
            if store.domain_rules[i].id == rule_id {
                proof {
                    store.lemma_drule_found(i as int, rule_id as int);
                }
                return Ok(store.domain_rules[i].clone());
            }
            i += 1;
        }
        Err(ApiError::Internal)
    }

    /// Deletes the domain rule with this id; a missing id deletes
    /// nothing and succeeds, as a zero-row delete did.
    pub fn delete(store: &mut Store, domain_rule_id: i32) -> (r: Result<(), ApiError>)
        requires
            old(store).wf(),
        ensures
            final(store).wf(),
            r == Ok::<(), ApiError>(()),
            !final(store).has_drule(domain_rule_id as int),
            forall|x: int| x != domain_rule_id as int
                ==> final(store).has_drule(x) == old(store).has_drule(x),
            final(store).users == old(store).users,
            final(store).groups == old(store).groups,
            final(store).memberships == old(store).memberships,
            final(store).role_assignments == old(store).role_assignments,
            final(store).url_rules == old(store).url_rules,
    {
        let ghost olds = *store;
        let n = store.domain_rules.len();
        let mut i: usize = 0;
        while i < n
            invariant
                olds == *old(store),
                n == store.domain_rules@.len(),
                i <= n,
                *store == olds,
                olds.wf(),
                forall|k: int| 0 <= k < i ==> store.domain_rules@[k].id != domain_rule_id,
            decreases n - i,
        {
            if store.domain_rules[i].id == domain_rule_id {
                proof {
                    store.lemma_drule_found(i as int, domain_rule_id as int);
                }
                store.domain_rules.remove(i);
                proof {
                    let m = olds.domain_rules@.len() as int;
                    let ii = i as int;
                    assert(store.domain_rules@ =~= olds.domain_rules@.subrange(0, ii)
                        + olds.domain_rules@.subrange(ii + 1, m));
                    assert forall|a: int, b: int| 0 <= a < b < store.domain_rules@.len() implies
                        store.domain_rules@[a].id != store.domain_rules@[b].id by {
                        let oa = if a < ii { a } else { a + 1 };
                        let ob = if b < ii { b } else { b + 1 };
                        assert(store.domain_rules@[a] == olds.domain_rules@[oa]);
                        assert(store.domain_rules@[b] == olds.domain_rules@[ob]);
                        assert(olds.domain_rules@[oa].id != olds.domain_rules@[ob].id);
                    }
                    store.lemma_wf_rules_only(olds);
                    assert(!store.has_drule(domain_rule_id as int)) by {
                        if store.has_drule(domain_rule_id as int) {
                            let w = choose|k: int|
                                0 <= k < store.domain_rules@.len()
                                    && store.domain_rules@[k].id as int
                                    == domain_rule_id as int;
                            let ow = if w < ii { w } else { w + 1 };
                            assert(store.domain_rules@[w] == olds.domain_rules@[ow]);
                            olds.lemma_drule_found(ow, domain_rule_id as int);
                        }
                    }
                    assert forall|x: int| x != domain_rule_id as int implies
                        store.has_drule(x) == olds.has_drule(x) by {
                        if olds.has_drule(x) {
                            let w = olds.drule_idx(x);
                            olds.lemma_drule_found(w, x);
                            assert(w != ii);
                            let nw = if w < ii { w } else { w - 1 };
                            assert(store.domain_rules@[nw] == olds.domain_rules@[w]);
                        }
                        if store.has_drule(x) {
                            let w = choose|k: int|
                                0 <= k < store.domain_rules@.len()
                                    && store.domain_rules@[k].id as int == x;
                            let ow = if w < ii { w } else { w + 1 };
                            assert(store.domain_rules@[w] == olds.domain_rules@[ow]);
                            assert(olds.has_drule(x));
                        }
                    }
                }
                return Ok(());
            }
            i += 1;
        }
        proof {
            assert(!store.has_drule(domain_rule_id as int)) by {
                if store.has_drule(domain_rule_id as int) {
                    let w = choose|k: int|
                        0 <= k < store.domain_rules@.len() && store.domain_rules@[k].id as int
                            == domain_rule_id as int;
                    assert(store.domain_rules@[w].id != domain_rule_id);
                }
            }
        }
        Ok(())
    }

    /// The domain rules whose pattern is exactly this text.
    pub fn for_domain(store: &Store, domain: &str) -> (r: Result<Vec<DomainRule>, ApiError>)
        ensures
            match r {
                Ok(v) => {
                    &&& v@.len() == store.domain_rules@.filter(
                        |x: DomainRule| x.domain@ == domain@,
                    ).len()
                    &&& forall|k: int| 0 <= k < v@.len() ==> (#[trigger] v@[k])@
                        == store.domain_rules@.filter(|x: DomainRule| x.domain@ == domain@)[k]@
                },
                Err(_) => false,
            },
    {
        let ghost pred = |x: DomainRule| x.domain@ == domain@;
        let mut out: Vec<DomainRule> = Vec::new();
        let n = store.domain_rules.len();
        let mut i: usize = 0;
        while i < n
            invariant
                n == store.domain_rules@.len(),
                i <= n,
                out@.len() == store.domain_rules@.take(i as int).filter(pred).len(),
                forall|k: int| 0 <= k < out@.len() ==> (#[trigger] out@[k])@
                    == store.domain_rules@.take(i as int).filter(pred)[k]@,
                pred == (|x: DomainRule| x.domain@ == domain@),
            decreases n - i,
        {
            proof {
                lemma_filter_take_step(store.domain_rules@, pred, i as int);
            }
            if str_eq(store.domain_rules[i].domain.as_str(), domain) {
                out.push(store.domain_rules[i].clone());
            }
            i += 1;
        }
        proof {
            assert(store.domain_rules@.take(n as int) =~= store.domain_rules@);
        }
        Ok(out)
    }

    /// The domain rules granted to one group.
    pub fn for_group(store: &Store, group: &Group) -> (r: Result<
        Vec<DomainRule>,
        ApiError,
    >)
        ensures
            match r {
                Ok(v) => {
                    &&& v@.len() == drules_with_gid(store.domain_rules@, group.id as int).len()
                    &&& forall|k: int| 0 <= k < v@.len() ==> (#[trigger] v@[k])@
                        == drules_with_gid(store.domain_rules@, group.id as int)[k]@
                },
                Err(_) => false,
            },
    {
        let gid = group.id;
        let ghost gidi = gid as int;
        let ghost pred = |x: DomainRule| x.group_id as int == gidi;
        let mut out: Vec<DomainRule> = Vec::new();
        let n = store.domain_rules.len();
        let mut i: usize = 0;
        while i < n
            invariant
                n == store.domain_rules@.len(),
                i <= n,
                gid == group.id,
                gidi == gid as int,
                out@.len() == store.domain_rules@.take(i as int).filter(pred).len(),
                forall|k: int| 0 <= k < out@.len() ==> (#[trigger] out@[k])@
                    == store.domain_rules@.take(i as int).filter(pred)[k]@,
                pred == (|x: DomainRule| x.group_id as int == gidi),
            decreases n - i,
        {
            proof {
                lemma_filter_take_step(store.domain_rules@, pred, i as int);
            }
            if store.domain_rules[i].group_id == gid {
                out.push(store.domain_rules[i].clone());
            }
            i += 1;
        }
        proof {
            assert(store.domain_rules@.take(n as int) =~= store.domain_rules@);
        }
        Ok(out)
    }

    /// The domain rules reachable through any of the user's groups,
    /// group-major in membership order.
    pub fn for_user(store: &Store, user: &User) -> (r: Result<
        Vec<DomainRule>,
        ApiError,
    >)
        ensures
            match r {
                Ok(v) => {
                    &&& v@.len() == drules_for_ids(
                        store.domain_rules@,
                        store.member_groups(user.id as int).map_values(
                            |g: Group| g.id as int,
                        ),
                    ).len()
                    &&& forall|k: int| 0 <= k < v@.len() ==> (#[trigger] v@[k])@
                        == drules_for_ids(
                        store.domain_rules@,
                        store.member_groups(user.id as int).map_values(
                            |g: Group| g.id as int,
                        ),
                    )[k]@
                },
                Err(_) => false,
            },
    {
        let gs = match User::get_groups(store, user) {
            Ok(gs) => gs,
            Err(e) => {
                return Err(e);
            },
        };
        let ghost ids = store.member_groups(user.id as int).map_values(
            |g: Group| g.id as int,
        );
        proof {
            assert forall|k: int| 0 <= k < gs@.len() implies (#[trigger] gs@[k]).id as int
                == ids[k] by {
                assert(gs@[k]@ == store.member_groups(user.id as int)[k]@);
                assert(ids[k] == store.member_groups(user.id as int)[k].id as int);
            }
        }
        let mut out: Vec<DomainRule> = Vec::new();
        let gn = gs.len();
        let mut j: usize = 0;
        while j < gn
            invariant
                gn == gs@.len(),
                gn == ids.len(),
                forall|k: int| 0 <= k < gn ==> (#[trigger] gs@[k]).id as int == ids[k],
                j <= gn,
                out@.len() == drules_for_ids(store.domain_rules@, ids.take(j as int)).len(),
                forall|k: int| 0 <= k < out@.len() ==> (#[trigger] out@[k])@
                    == drules_for_ids(store.domain_rules@, ids.take(j as int))[k]@,
            decreases gn - j,
        {
            let ghost base = out@;
            let mut part = match Self::for_group(store, &gs[j]) {
                Ok(p) => p,
                Err(e) => {
                    return Err(e);
                },
            };
            let ghost partg = part@;
            out.append(&mut part);
            proof {
                lemma_drules_for_ids_snoc(store.domain_rules@, ids.take(j as int), ids[j as int]);
                assert(ids.take(j as int + 1) =~= ids.take(j as int).push(ids[j as int]));
                let whole = drules_for_ids(store.domain_rules@, ids.take(j as int + 1));
                let left = drules_for_ids(store.domain_rules@, ids.take(j as int));
                let right = drules_with_gid(store.domain_rules@, ids[j as int]);
                assert(whole == left + right);
                assert(out@ == base + partg);
                assert forall|k: int| 0 <= k < out@.len() implies (#[trigger] out@[k])@
                    == whole[k]@ by {
                    if k < base.len() {
                        assert(out@[k] == base[k]);
                        assert(whole[k] == left[k]);
                    } else {
                        assert(out@[k] == partg[k - base.len()]);
                        assert(whole[k] == right[k - base.len()]);
                    }
                }
            }
            j += 1;
        }
        proof {
            assert(ids.take(gn as int) =~= ids);
        }
        Ok(out)
    }
}

impl URLRule {
    /// Creates a URL rule under a fresh id; this fails exactly when the
    /// key counter is exhausted.
    pub fn create(store: &mut Store, url_rule: &NewURLRule) -> (r: Result<URLRule, ApiError>)
        requires
            old(store).wf(),
        ensures
            final(store).wf(),
            (r is Err) <==> old(store).next_url_rule_id == i32::MAX,
            match r {
                Ok(rule) => {
                    &&& rule.id == old(store).next_url_rule_id
                    &&& rule.url@ == url_rule.url@
                    &&& rule.group_id == url_rule.group_id
                    &&& final(store).url_rules@.len() == old(store).url_rules@.len() + 1
                    &&& final(store).url_rules@.subrange(0, old(store).url_rules@.len() as int)
                        == old(store).url_rules@
                    &&& final(store).url_rules@.last()@ == rule@
                    &&& final(store).users == old(store).users
                    &&& final(store).groups == old(store).groups
                    &&& final(store).memberships == old(store).memberships
                    &&& final(store).role_assignments == old(store).role_assignments
                    &&& final(store).domain_rules == old(store).domain_rules
                },
                Err(e) => e == ApiError::Internal && *final(store) == *old(store),
            },
    {
        if store.next_url_rule_id == i32::MAX {
            return Err(ApiError::Internal);
        }
        let ghost olds = *store;
        let rule = URLRule {
            id: store.next_url_rule_id,
            url: url_rule.url.clone(),
            group_id: url_rule.group_id,
        };
        store.url_rules.push(rule.clone());
        store.next_url_rule_id = store.next_url_rule_id + 1;
        proof {
            let n = olds.url_rules@.len() as int;
            assert(store.url_rules@[n].id == rule.id);
            assert forall|i: int, j: int| 0 <= i < j < store.url_rules@.len() implies
                store.url_rules@[i].id != store.url_rules@[j].id by {
                if j < n {
                    assert(olds.url_rules@[i].id != olds.url_rules@[j].id);
                } else {
                    assert(olds.url_rules@[i].id < olds.next_url_rule_id);
                }
            }
            store.lemma_wf_rules_only(olds);
            assert(store.url_rules@.subrange(0, n) =~= olds.url_rules@);
        }
        Ok(rule)
    }

    /// Every URL rule.
    pub fn get_all(store: &Store) -> (r: Result<Vec<URLRule>, ApiError>)
        ensures
            match r {
                Ok(v) => v@.len() == store.url_rules@.len() && forall|i: int|
                    0 <= i < v@.len() ==> (#[trigger] v@[i])@ == store.url_rules@[i]@,
                Err(_) => false,
            },
    {
        let mut out: Vec<URLRule> = Vec::new();
        let n = store.url_rules.len();
        let mut i: usize = 0;
        while i < n
            invariant
                n == store.url_rules@.len(),
                i <= n,
                out@.len() == i,
                forall|j: int| 0 <= j < i ==> (#[trigger] out@[j])@ == store.url_rules@[j]@,
            decreases n - i,
        {
            out.push(store.url_rules[i].clone());
            i += 1;
        }
        Ok(out)
    }

    /// The URL rule with this id; a missing id surfaced as an internal
    /// fault at this lookup.
    pub fn get(store: &Store, rule_id: i32) -> (r: Result<URLRule, ApiError>)
        requires
            store.wf(),
        ensures
            match r {
                Ok(rule) => store.has_urule(rule_id as int) && rule@ == store.url_rules@[
                    store.urule_idx(rule_id as int)]@,
                Err(e) => e == ApiError::Internal && !store.has_urule(rule_id as int),
            },
    {
        let n = store.url_rules.len();
        let mut i: usize = 0;
        while i < n
            invariant
                n == store.url_rules@.len(),
                i <= n,
                store.wf(),
                forall|k: int| 0 <= k < i ==> store.url_rules@[k].id != rule_id,
            decreases n - i,
        {
            if store.url_rules[i].id == rule_id {
                proof {
                    store.lemma_urule_found(i as int, rule_id as int);
                }
                return Ok(store.url_rules[i].clone());
            }
            i += 1;
        }
        Err(ApiError::Internal)
    }

    /// Deletes the URL rule with this id; a missing id deletes nothing
    /// and succeeds.
    pub fn delete(store: &mut Store, url_rule_id: i32) -> (r: Result<(), ApiError>)
        requires
            old(store).wf(),
        ensures
            final(store).wf(),
            r == Ok::<(), ApiError>(()),
            !final(store).has_urule(url_rule_id as int),
            forall|x: int| x != url_rule_id as int
                ==> final(store).has_urule(x) == old(store).has_urule(x),
            final(store).users == old(store).users,
            final(store).groups == old(store).groups,
            final(store).memberships == old(store).memberships,
            final(store).role_assignments == old(store).role_assignments,
            final(store).domain_rules == old(store).domain_rules,
    {
        let ghost olds = *store;
        let n = store.url_rules.len();
        let mut i: usize = 0;
        while i < n
            invariant
                olds == *old(store),
                n == store.url_rules@.len(),
                i <= n,
                *store == olds,
                olds.wf(),
                forall|k: int| 0 <= k < i ==> store.url_rules@[k].id != url_rule_id,
            decreases n - i,
        {
            if store.url_rules[i].id == url_rule_id {
                proof {
                    store.lemma_urule_found(i as int, url_rule_id as int);
                }
                store.url_rules.remove(i);
                proof {
                    let m = olds.url_rules@.len() as int;
                    let ii = i as int;
                    assert(store.url_rules@ =~= olds.url_rules@.subrange(0, ii)
                        + olds.url_rules@.subrange(ii + 1, m));
                    assert forall|a: int, b: int| 0 <= a < b < store.url_rules@.len() implies
                        store.url_rules@[a].id != store.url_rules@[b].id by {
                        let oa = if a < ii { a } else { a + 1 };
                        let ob = if b < ii { b } else { b + 1 };
                        assert(store.url_rules@[a] == olds.url_rules@[oa]);
                        assert(store.url_rules@[b] == olds.url_rules@[ob]);
                        assert(olds.url_rules@[oa].id != olds.url_rules@[ob].id);
                    }
                    store.lemma_wf_rules_only(olds);
                    assert(!store.has_urule(url_rule_id as int)) by {
                        if store.has_urule(url_rule_id as int) {
                            let w = choose|k: int|
                                0 <= k < store.url_rules@.len() && store.url_rules@[k].id as int
                                    == url_rule_id as int;
                            let ow = if w < ii { w } else { w + 1 };
                            assert(store.url_rules@[w] == olds.url_rules@[ow]);
                            olds.lemma_urule_found(ow, url_rule_id as int);
                        }
                    }
                    assert forall|x: int| x != url_rule_id as int implies
                        store.has_urule(x) == olds.has_urule(x) by {
                        if olds.has_urule(x) {
                            let w = olds.urule_idx(x);
                            olds.lemma_urule_found(w, x);
                            assert(w != ii);
                            let nw = if w < ii { w } else { w - 1 };
                            assert(store.url_rules@[nw] == olds.url_rules@[w]);
                        }
                        if store.has_urule(x) {
                            let w = choose|k: int|
                                0 <= k < store.url_rules@.len()
                                    && store.url_rules@[k].id as int == x;
                            let ow = if w < ii { w } else { w + 1 };
                            assert(store.url_rules@[w] == olds.url_rules@[ow]);
                            assert(olds.has_urule(x));
                        }
                    }
                }
                return Ok(());
            }
            i += 1;
        }
        proof {
            assert(!store.has_urule(url_rule_id as int)) by {
                if store.has_urule(url_rule_id as int) {
                    let w = choose|k: int|
                        0 <= k < store.url_rules@.len() && store.url_rules@[k].id as int
                            == url_rule_id as int;
                    assert(store.url_rules@[w].id != url_rule_id);
                }
            }
        }
        Ok(())
    }

    /// The URL rules whose pattern is exactly this text.
    pub fn for_url(store: &Store, url: &str) -> (r: Result<Vec<URLRule>, ApiError>)
        ensures
            match r {
                Ok(v) => {
                    &&& v@.len() == store.url_rules@.filter(|x: URLRule| x.url@ == url@).len()
                    &&& forall|k: int| 0 <= k < v@.len() ==> (#[trigger] v@[k])@
                        == store.url_rules@.filter(|x: URLRule| x.url@ == url@)[k]@
                },
                Err(_) => false,
            },
    {
        let ghost pred = |x: URLRule| x.url@ == url@;
        let mut out: Vec<URLRule> = Vec::new();
        let n = store.url_rules.len();
        let mut i: usize = 0;
        while i < n
            invariant
                n == store.url_rules@.len(),
                i <= n,
                out@.len() == store.url_rules@.take(i as int).filter(pred).len(),
                forall|k: int| 0 <= k < out@.len() ==> (#[trigger] out@[k])@
                    == store.url_rules@.take(i as int).filter(pred)[k]@,
                pred == (|x: URLRule| x.url@ == url@),
            decreases n - i,
        {
            proof {
                lemma_filter_take_step(store.url_rules@, pred, i as int);
            }
            if str_eq(store.url_rules[i].url.as_str(), url) {
                out.push(store.url_rules[i].clone());
            }
            i += 1;
        }
        proof {
            assert(store.url_rules@.take(n as int) =~= store.url_rules@);
        }
        Ok(out)
    }

    /// The URL rules granted to one group.
    pub fn for_group(store: &Store, group: &Group) -> (r: Result<
        Vec<URLRule>,
        ApiError,
    >)
        ensures
            match r {
                Ok(v) => {
                    &&& v@.len() == urules_with_gid(store.url_rules@, group.id as int).len()
                    &&& forall|k: int| 0 <= k < v@.len() ==> (#[trigger] v@[k])@
                        == urules_with_gid(store.url_rules@, group.id as int)[k]@
                },
                Err(_) => false,
            },
    {
        let gid = group.id;
        let ghost gidi = gid as int;
        let ghost pred = |x: URLRule| x.group_id as int == gidi;
        let mut out: Vec<URLRule> = Vec::new();
        let n = store.url_rules.len();
        let mut i: usize = 0;
        while i < n
            invariant
                n == store.url_rules@.len(),
                i <= n,
                gid == group.id,
                gidi == gid as int,
                out@.len() == store.url_rules@.take(i as int).filter(pred).len(),
                forall|k: int| 0 <= k < out@.len() ==> (#[trigger] out@[k])@
                    == store.url_rules@.take(i as int).filter(pred)[k]@,
                pred == (|x: URLRule| x.group_id as int == gidi),
            decreases n - i,
        {
            proof {
                lemma_filter_take_step(store.url_rules@, pred, i as int);
            }
            if store.url_rules[i].group_id == gid {
                out.push(store.url_rules[i].clone());
            }
            i += 1;
        }
        proof {
            assert(store.url_rules@.take(n as int) =~= store.url_rules@);
        }
        Ok(out)
    }

    /// The URL rules reachable through any of the user's groups,
    /// group-major in membership order.
    pub fn for_user(store: &Store, user: &User) -> (r: Result<
        Vec<URLRule>,
        ApiError,
    >)
        ensures
            match r {
                Ok(v) => {
                    &&& v@.len() == urules_for_ids(
                        store.url_rules@,
                        store.member_groups(user.id as int).map_values(
                            |g: Group| g.id as int,
                        ),
                    ).len()
                    &&& forall|k: int| 0 <= k < v@.len() ==> (#[trigger] v@[k])@
                        == urules_for_ids(
                        store.url_rules@,
                        store.member_groups(user.id as int).map_values(
                            |g: Group| g.id as int,
                        ),
                    )[k]@
                },
                Err(_) => false,
            },
    {
        let gs = match User::get_groups(store, user) {
            Ok(gs) => gs,
            Err(e) => {
                return Err(e);
            },
        };
        let ghost ids = store.member_groups(user.id as int).map_values(
            |g: Group| g.id as int,
        );
        proof {
            assert forall|k: int| 0 <= k < gs@.len() implies (#[trigger] gs@[k]).id as int
                == ids[k] by {
                assert(gs@[k]@ == store.member_groups(user.id as int)[k]@);
                assert(ids[k] == store.member_groups(user.id as int)[k].id as int);
            }
        }
        let mut out: Vec<URLRule> = Vec::new();
        let gn = gs.len();
        let mut j: usize = 0;
        while j < gn
            invariant
                gn == gs@.len(),
                gn == ids.len(),
                forall|k: int| 0 <= k < gn ==> (#[trigger] gs@[k]).id as int == ids[k],
                j <= gn,
                out@.len() == urules_for_ids(store.url_rules@, ids.take(j as int)).len(),
                forall|k: int| 0 <= k < out@.len() ==> (#[trigger] out@[k])@
                    == urules_for_ids(store.url_rules@, ids.take(j as int))[k]@,
            decreases gn - j,
        {
            let ghost base = out@;
            let mut part = match Self::for_group(store, &gs[j]) {
                Ok(p) => p,
                Err(e) => {
                    return Err(e);
                },
            };
            let ghost partg = part@;
            out.append(&mut part);
            proof {
                lemma_urules_for_ids_snoc(store.url_rules@, ids.take(j as int), ids[j as int]);
                assert(ids.take(j as int + 1) =~= ids.take(j as int).push(ids[j as int]));
                let whole = urules_for_ids(store.url_rules@, ids.take(j as int + 1));
                let left = urules_for_ids(store.url_rules@, ids.take(j as int));
                let right = urules_with_gid(store.url_rules@, ids[j as int]);
                assert(whole == left + right);
                assert(out@ == base + partg);
                assert forall|k: int| 0 <= k < out@.len() implies (#[trigger] out@[k])@
                    == whole[k]@ by {
                    if k < base.len() {
                        assert(out@[k] == base[k]);
                        assert(whole[k] == left[k]);
                    } else {
                        assert(out@[k] == partg[k - base.len()]);
                        assert(whole[k] == right[k - base.len()]);
                    }
                }
            }
            j += 1;
        }
        proof {
            assert(ids.take(gn as int) =~= ids);
        }
        Ok(out)
    }
}

} // verus!
