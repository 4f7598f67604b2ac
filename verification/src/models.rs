//! The data the service works over, each type beside its ghost view.

use vstd::prelude::*;

use crate::roles::Role;

verus! {

/// An account row: numeric identity, login and password hash.
#[derive(Debug, PartialEq)]
pub struct User {
    pub id: i32,
    pub login: String,
    pub hash: String,
}

/// The ghost image of a `User`.
pub struct UserView {
    pub id: int,
    pub login: Seq<char>,
    pub hash: Seq<char>,
}

impl View for User {
    type V = UserView;

    open spec fn view(&self) -> UserView {
        UserView { id: self.id as int, login: self.login@, hash: self.hash@ }
    }
}

impl Clone for User {
    fn clone(&self) -> (res: Self)
        ensures
            res@ == self@,
    {
        User { id: self.id, login: self.login.clone(), hash: self.hash.clone() }
    }
}

/// A user as shown to callers: the password hash stays inside.
#[derive(Clone, Debug, PartialEq)]
pub struct SafeUser {
    pub id: i32,
    pub login: String,
}

impl From<User> for SafeUser {
    fn from(unsafe_user: User) -> (s: Self) {
        Self { id: unsafe_user.id, login: unsafe_user.login }
    }
}

impl vstd::std_specs::convert::FromSpecImpl<User> for SafeUser {
    open spec fn obeys_from_spec() -> bool {
        true
    }

    open spec fn from_spec(u: User) -> Self {
        SafeUser { id: u.id, login: u.login }
    }
}

/// An access-control grouping.
#[derive(Debug, PartialEq)]
pub struct Group {
    pub id: i32,
    pub name: String,
}

/// The ghost image of a `Group`.
pub struct GroupView {
    pub id: int,
    pub name: Seq<char>,
}

impl View for Group {
    type V = GroupView;

    open spec fn view(&self) -> GroupView {
        GroupView { id: self.id as int, name: self.name@ }
    }
}

impl Clone for Group {
    fn clone(&self) -> (res: Self)
        ensures
            res@ == self@,
    {
        Group { id: self.id, name: self.name.clone() }
    }
}

/// A User-to-Group membership row.
#[derive(Clone, Debug, PartialEq)]
pub struct GroupUser {
    pub group_id: i32,
    pub user_id: i32,
}

/// A role membership row: ties a user to one role of the closed set.
#[derive(Clone, Debug, PartialEq)]
pub struct RoleUser {
    pub role: Role,
    pub user_id: i32,
}

/// A host-pattern rule: any caller in `group_id` may reach a host the
/// pattern matches.
#[derive(Debug, PartialEq)]
pub struct DomainRule {
    pub id: i32,
    pub domain: String,
    pub group_id: i32,
}

/// The ghost image of a `DomainRule`.
pub struct DomainRuleView {
    pub id: int,
    pub domain: Seq<char>,
    pub group_id: int,
}

impl View for DomainRule {
    type V = DomainRuleView;

    open spec fn view(&self) -> DomainRuleView {
        DomainRuleView { id: self.id as int, domain: self.domain@, group_id: self.group_id as int }
    }
}

impl Clone for DomainRule {
    fn clone(&self) -> (res: Self)
        ensures
            res@ == self@,
    {
        DomainRule { id: self.id, domain: self.domain.clone(), group_id: self.group_id }
    }
}

/// A full-origin rule: same semantics as `DomainRule` but matched against
/// the whole origin string.
#[derive(Debug, PartialEq)]
pub struct URLRule {
    pub id: i32,
    pub url: String,
    pub group_id: i32,
}

/// The ghost image of a `URLRule`.
pub struct URLRuleView {
    pub id: int,
    pub url: Seq<char>,
    pub group_id: int,
}

impl View for URLRule {
    type V = URLRuleView;

    open spec fn view(&self) -> URLRuleView {
        URLRuleView { id: self.id as int, url: self.url@, group_id: self.group_id as int }
    }
}

impl Clone for URLRule {
    fn clone(&self) -> (res: Self)
        ensures
            res@ == self@,
    {
        URLRule { id: self.id, url: self.url.clone(), group_id: self.group_id }
    }
}

/// Signup payload: login and password material for a new account.
#[derive(Clone, Debug, PartialEq)]
pub struct NewUser {
    pub login: String,
    pub hash: String,
}

/// Payload for creating a group.
#[derive(Clone, Debug, PartialEq)]
pub struct NewGroup {
    pub name: String,
}

/// Payload for adding a user to a group.
#[derive(Clone, Debug, PartialEq)]
pub struct NewGroupUser {
    pub group_id: i32,
    pub user_id: i32,
}

/// Payload for assigning a role to a user.
#[derive(Clone, Debug, PartialEq)]
pub struct NewRoleUser {
    pub role: String,
    pub user_id: i32,
}

/// Payload for creating a domain rule.
#[derive(Clone, Debug, PartialEq)]
pub struct NewDomainRule {
    pub domain: String,
    pub group_id: i32,
}

/// Payload for creating a URL rule.
#[derive(Clone, Debug, PartialEq)]
pub struct NewURLRule {
    pub url: String,
    pub group_id: i32,
}

/// Query payload: domain rules for one host pattern.
#[derive(Clone, Debug, PartialEq)]
pub struct PayloadDomainRulesForDomain {
    pub domain: String,
}

/// Query payload: domain rules granted to one group.
#[derive(Clone, Debug, PartialEq)]
pub struct PayloadDomainRulesForGroup {
    pub group_id: i32,
}

/// Query payload: domain rules reachable by one user.
#[derive(Clone, Debug, PartialEq)]
pub struct PayloadDomainRulesForUser {
    pub user_id: i32,
}

/// Query payload: URL rules for one origin pattern.
#[derive(Clone, Debug, PartialEq)]
pub struct PayloadURLRulesForURL {
    pub url: String,
}

/// Query payload: URL rules granted to one group.
#[derive(Clone, Debug, PartialEq)]
pub struct PayloadURLRulesForGroup {
    pub group_id: i32,
}

/// Query payload: URL rules reachable by one user.
#[derive(Clone, Debug, PartialEq)]
pub struct PayloadURLRulesForUser {
    pub user_id: i32,
}

/// The signed payload of a session token: issuer tag, absolute expiry,
/// unique token id, the subject user and its resolved role and groups at
/// issue time. Immutable once signed; a changed permission set takes a new
/// Claims value.
#[derive(Debug, PartialEq)]
pub struct Claims {
    pub company: String,
    pub exp: i64,
    pub jti: String,
    pub user: User,
    pub role: Role,
    pub groups: Vec<Group>,
}

/// The ghost image of a `Claims`.
pub struct ClaimsView {
    pub company: Seq<char>,
    pub exp: int,
    pub jti: Seq<char>,
    pub user: UserView,
    pub role: Role,
    pub groups: Seq<GroupView>,
}

impl View for Claims {
    type V = ClaimsView;

    open spec fn view(&self) -> ClaimsView {
        ClaimsView {
            company: self.company@,
            exp: self.exp as int,
            jti: self.jti@,
            user: self.user@,
            role: self.role,
            groups: self.groups@.map_values(|g: Group| g@),
        }
    }
}

/// Copies a group list, keeping every view.
#[verifier::loop_isolation(false)]
pub fn clone_groups(gs: &Vec<Group>) -> (res: Vec<Group>)
    ensures
        res@.map_values(|g: Group| g@) == gs@.map_values(|g: Group| g@),
        res@.len() == gs@.len(),
{
    let mut out: Vec<Group> = Vec::new();
    let n = gs.len();
    let mut i: usize = 0;
    while i < n
        invariant
            i <= n,
            out@.len() == i,
            forall|j: int| 0 <= j < i ==> (#[trigger] out@[j])@ == gs@[j]@,
        decreases n - i,
    {
        out.push(gs[i].clone());
        i += 1;
    }
    proof {
        assert(out@.map_values(|g: Group| g@) =~= gs@.map_values(|g: Group| g@));
    }
    out
}

impl Clone for Claims {
    fn clone(&self) -> (res: Self)
        ensures
            res@ == self@,
    {
        let res = Claims {
            company: self.company.clone(),
            exp: self.exp,
            jti: self.jti.clone(),
            user: self.user.clone(),
            role: self.role,
            groups: clone_groups(&self.groups),
        };
        proof {
            assert(res@ == self@);
        }
        res
    }
}

/// What a caller is told about itself: identity without the hash, plus the
/// resolved role and groups.
#[derive(Clone, Debug, PartialEq)]
pub struct UserDataResponsePayload {
    pub user: SafeUser,
    pub role: Role,
    pub groups: Vec<Group>,
}

} // verus!
