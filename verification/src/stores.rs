//! The tables the service consults: users, groups, memberships, role
//! assignments and access rules, under uniqueness and reference
//! invariants.

use vstd::prelude::*;

use crate::errors::ApiError;
use crate::models::{Group, GroupUser, GroupView, NewGroup, NewUser, RoleUser, User, UserView};
use crate::registry::TokenRegistry;
use crate::roles::Role;
use crate::strutil::str_eq;
use crate::trusted::{bcrypt_hash_wf, bcrypt_matches, password_hash, password_verify};

verus! {

/// The bcrypt work factor used for stored password hashes.
pub const HASH_COST: u32 = 12;

/// Every table the service reads or writes, with counters handing out keys.
#[derive(Debug)]
pub struct Store {
    pub users: Vec<User>,
    pub groups: Vec<Group>,
    pub memberships: Vec<GroupUser>,
    pub role_assignments: Vec<RoleUser>,
    pub domain_rules: Vec<crate::models::DomainRule>,
    pub url_rules: Vec<crate::models::URLRule>,
    pub next_user_id: i32,
    pub next_group_id: i32,
    pub next_domain_rule_id: i32,
    pub next_url_rule_id: i32,
}

impl Store {
    /// Table invariants: unique keys below the counters, one role per
    /// user, memberships and role rows referencing existing users and
    /// groups.
    pub open spec fn wf(self) -> bool {
        &&& forall|i: int, j: int| 0 <= i < j < self.users@.len()
            ==> self.users@[i].id != self.users@[j].id
        &&& forall|i: int| 0 <= i < self.users@.len()
            ==> (#[trigger] self.users@[i]).id < self.next_user_id
        &&& forall|i: int, j: int| 0 <= i < j < self.groups@.len()
            ==> self.groups@[i].id != self.groups@[j].id
        &&& forall|i: int| 0 <= i < self.groups@.len()
            ==> (#[trigger] self.groups@[i]).id < self.next_group_id
        &&& forall|i: int, j: int| 0 <= i < j < self.memberships@.len()
            ==> !(self.memberships@[i].user_id == self.memberships@[j].user_id
                && self.memberships@[i].group_id == self.memberships@[j].group_id)
        &&& forall|i: int| 0 <= i < self.memberships@.len()
            ==> self.has_user((#[trigger] self.memberships@[i]).user_id as int)
                && self.has_group(self.memberships@[i].group_id as int)
        &&& forall|i: int, j: int| 0 <= i < j < self.role_assignments@.len()
            ==> self.role_assignments@[i].user_id != self.role_assignments@[j].user_id
        &&& forall|i: int| 0 <= i < self.role_assignments@.len()
            ==> self.has_user((#[trigger] self.role_assignments@[i]).user_id as int)
        &&& forall|i: int, j: int| 0 <= i < j < self.domain_rules@.len()
            ==> self.domain_rules@[i].id != self.domain_rules@[j].id
        &&& forall|i: int| 0 <= i < self.domain_rules@.len()
            ==> (#[trigger] self.domain_rules@[i]).id < self.next_domain_rule_id
        &&& forall|i: int, j: int| 0 <= i < j < self.url_rules@.len()
            ==> self.url_rules@[i].id != self.url_rules@[j].id
        &&& forall|i: int| 0 <= i < self.url_rules@.len()
            ==> (#[trigger] self.url_rules@[i]).id < self.next_url_rule_id
    }

    /// Whether a user with this id exists.
    pub open spec fn has_user(self, id: int) -> bool {
        exists|i: int| 0 <= i < self.users@.len() && self.users@[i].id as int == id
    }

    /// Index of the user with this id.
    pub open spec fn user_idx(self, id: int) -> int {
        choose|i: int| 0 <= i < self.users@.len() && self.users@[i].id as int == id
    }

    /// The user with this id, as a view.
    pub open spec fn user_view(self, id: int) -> UserView
        recommends
            self.has_user(id),
    {
        self.users@[self.user_idx(id)]@
    }

    /// Under `wf`, an index holding a user id is the one `user_idx`
    /// denotes.
    pub proof fn lemma_user_found(self, i: int, id: int)
        requires
            self.wf(),
            0 <= i < self.users@.len(),
            self.users@[i].id as int == id,
        ensures
            self.has_user(id),
            self.user_idx(id) == i,
    {
        assert(self.has_user(id));
        let w = self.user_idx(id);
        if w != i {
            if w < i {
                assert(self.users@[w].id != self.users@[i].id);
            } else {
                assert(self.users@[i].id != self.users@[w].id);
            }
        }
    }

    /// Whether a group with this id exists.
    pub open spec fn has_group(self, id: int) -> bool {
        exists|i: int| 0 <= i < self.groups@.len() && self.groups@[i].id as int == id
    }

    /// Index of the group with this id.
    pub open spec fn group_idx(self, id: int) -> int {
        choose|i: int| 0 <= i < self.groups@.len() && self.groups@[i].id as int == id
    }

    /// The group with this id, as a view.
    pub open spec fn group_view(self, id: int) -> GroupView
        recommends
            self.has_group(id),
    {
        self.groups@[self.group_idx(id)]@
    }

    /// Under `wf`, an index holding a group id is the one `group_idx`
    /// denotes.
    pub proof fn lemma_group_found(self, i: int, id: int)
        requires
            self.wf(),
            0 <= i < self.groups@.len(),
            self.groups@[i].id as int == id,
        ensures
            self.has_group(id),
            self.group_idx(id) == i,
    {
        assert(self.has_group(id));
        let w = self.group_idx(id);
        if w != i {
            if w < i {
                assert(self.groups@[w].id != self.groups@[i].id);
            } else {
                assert(self.groups@[i].id != self.groups@[w].id);
            }
        }
    }

    /// Whether this user belongs to this group.
    pub open spec fn has_member(self, user_id: int, group_id: int) -> bool {
        exists|i: int|
            0 <= i < self.memberships@.len() && (#[trigger] self.memberships@[i]).user_id as int
                == user_id && self.memberships@[i].group_id as int == group_id
    }

    /// Whether this user holds a role.
    pub open spec fn has_role(self, user_id: int) -> bool {
        exists|i: int|
            0 <= i < self.role_assignments@.len()
                && (#[trigger] self.role_assignments@[i]).user_id as int == user_id
    }

    /// Index of the user's role row.
    pub open spec fn role_idx(self, user_id: int) -> int {
        choose|i: int|
            0 <= i < self.role_assignments@.len()
                && (#[trigger] self.role_assignments@[i]).user_id as int == user_id
    }

    /// The one role this user holds.
    pub open spec fn role_of(self, user_id: int) -> Role
        recommends
            self.has_role(user_id),
    {
        self.role_assignments@[self.role_idx(user_id)].role
    }

    /// Under `wf`, an index holding a user's role row is the one
    /// `role_idx` denotes.
    pub proof fn lemma_role_found(self, i: int, user_id: int)
        requires
            self.wf(),
            0 <= i < self.role_assignments@.len(),
            self.role_assignments@[i].user_id as int == user_id,
        ensures
            self.has_role(user_id),
            self.role_idx(user_id) == i,
    {
        assert(self.has_role(user_id));
        let w = self.role_idx(user_id);
        if w != i {
            if w < i {
                assert(self.role_assignments@[w].user_id != self.role_assignments@[i].user_id);
            } else {
                assert(self.role_assignments@[i].user_id != self.role_assignments@[w].user_id);
            }
        }
    }

    /// An empty store; counters start where autoincrement keys do.
    pub fn new() -> (s: Store)
        ensures
            s.wf(),
            s.users@.len() == 0,
            s.groups@.len() == 0,
            s.memberships@.len() == 0,
            s.role_assignments@.len() == 0,
            s.domain_rules@.len() == 0,
            s.url_rules@.len() == 0,
    {
        Store {
            users: Vec::new(),
            groups: Vec::new(),
            memberships: Vec::new(),
            role_assignments: Vec::new(),
            domain_rules: Vec::new(),
            url_rules: Vec::new(),
            next_user_id: 1,
            next_group_id: 1,
            next_domain_rule_id: 1,
            next_url_rule_id: 1,
        }
    }

    /// Index of the user row with this id, if any.
    fn find_user(&self, id: i32) -> (r: Option<usize>)
        ensures
            match r {
                Some(i) => i < self.users@.len() && self.users@[i as int].id == id,
                None => !self.has_user(id as int),
            },
    {
        let n = self.users.len();
        let mut i: usize = 0;
        while i < n
            invariant
                n == self.users@.len(),
                i <= n,
                forall|k: int| 0 <= k < i ==> self.users@[k].id != id,
            decreases n - i,
        {
            if self.users[i].id == id {
                return Some(i);
            }
            i += 1;
        }
        None
    }

    /// Index of the group row with this id, if any.
    fn find_group(&self, id: i32) -> (r: Option<usize>)
        ensures
            match r {
                Some(i) => i < self.groups@.len() && self.groups@[i as int].id == id,
                None => !self.has_group(id as int),
            },
    {
        let n = self.groups.len();
        let mut i: usize = 0;
        while i < n
            invariant
                n == self.groups@.len(),
                i <= n,
                forall|k: int| 0 <= k < i ==> self.groups@[k].id != id,
            decreases n - i,
        {
            if self.groups[i].id == id {
                return Some(i);
            }
            i += 1;
        }
        None
    }
}


/// The first user row carrying this login, searched front to back.
pub open spec fn find_login(users: Seq<User>, login: Seq<char>, i: int) -> Option<int>
    decreases users.len() - i,
{
    if i < 0 || i >= users.len() {
        None
    } else if users[i].login@ == login {
        Some(i)
    } else {
        find_login(users, login, i + 1)
    }
}

impl User {
    /// Signup: refuses password material shorter than four bytes, stores
    /// a bcrypt hash of it under a fresh id, and assigns the default
    /// `user` role. Each refusal is pinned to its cause; only the salt
    /// draw inside the hash subsystem may fail on its own.
    pub fn create(store: &mut Store, u: &NewUser) -> (r: Result<User, ApiError>)
        requires
            old(store).wf(),
        ensures
            final(store).wf(),
            (r == Err::<User, ApiError>(ApiError::User)) <==> vstd::utf8::encode_utf8(
                u.hash@,
            ).len() < 4,
            (r == Err::<User, ApiError>(ApiError::UserCreation)) <==> (vstd::utf8::encode_utf8(
                u.hash@,
            ).len() >= 4 && old(store).next_user_id == i32::MAX),
            r == Err::<User, ApiError>(ApiError::Internal) ==> vstd::utf8::encode_utf8(
                u.hash@,
            ).len() >= 4 && old(store).next_user_id != i32::MAX,
            match r {
                Ok(user) => {
                    &&& vstd::utf8::encode_utf8(u.hash@).len() >= 4
                    &&& user.id == old(store).next_user_id
                    &&& user.login@ == u.login@
                    &&& bcrypt_matches(u.hash@, user.hash@)
                    &&& bcrypt_hash_wf(user.hash@)
                    &&& final(store).users@.len() == old(store).users@.len() + 1
                    &&& final(store).users@.subrange(0, old(store).users@.len() as int)
                        == old(store).users@
                    &&& final(store).users@.last()@ == user@
                    &&& final(store).role_assignments@ == old(store).role_assignments@.push(
                        RoleUser { role: Role::User, user_id: user.id },
                    )
                    &&& final(store).has_user(user.id as int)
                    &&& final(store).has_role(user.id as int)
                    &&& final(store).role_of(user.id as int) == Role::User
                    &&& final(store).groups == old(store).groups
                    &&& final(store).memberships == old(store).memberships
                    &&& final(store).domain_rules == old(store).domain_rules
                    &&& final(store).url_rules == old(store).url_rules
                },
                Err(e) => {
                    &&& *final(store) == *old(store)
                    &&& (e == ApiError::User || e == ApiError::UserCreation
                        || e == ApiError::Internal)
                },
            },
    {
        if u.hash.as_str().as_bytes().len() < 4 {
            return Err(ApiError::User);
        }
        if store.next_user_id == i32::MAX {
            return Err(ApiError::UserCreation);
        }
        let hashed = match password_hash(u.hash.as_str(), HASH_COST) {
            Some(h) => h,
            None => {
                return Err(ApiError::Internal);
            },
        };
        let ghost olds = *store;
        let user = User { id: store.next_user_id, login: u.login.clone(), hash: hashed };
        store.users.push(user.clone());
        store.next_user_id = store.next_user_id + 1;
        proof {
            let n = olds.users@.len() as int;
            assert(store.users@[n].id == user.id);
            assert forall|i: int, j: int| 0 <= i < j < store.users@.len() implies
                store.users@[i].id != store.users@[j].id by {
                if j < n {
                    assert(olds.users@[i].id != olds.users@[j].id);
                } else {
                    assert(olds.users@[i].id < olds.next_user_id);
                }
            }
            assert forall|i: int| 0 <= i < store.memberships@.len() implies
                store.has_user((#[trigger] store.memberships@[i]).user_id as int)
                    && store.has_group(store.memberships@[i].group_id as int) by {
                assert(olds.has_user(olds.memberships@[i].user_id as int));
                let w = olds.user_idx(olds.memberships@[i].user_id as int);
                assert(store.users@[w].id as int == olds.memberships@[i].user_id as int);
                assert(olds.has_group(olds.memberships@[i].group_id as int));
                let wg = olds.group_idx(olds.memberships@[i].group_id as int);
                assert(store.groups@[wg].id as int == olds.memberships@[i].group_id as int);
            }
            assert forall|i: int| 0 <= i < store.role_assignments@.len() implies
                store.has_user((#[trigger] store.role_assignments@[i]).user_id as int) by {
                assert(olds.has_user(olds.role_assignments@[i].user_id as int));
                let w = olds.user_idx(olds.role_assignments@[i].user_id as int);
                assert(store.users@[w].id as int == olds.role_assignments@[i].user_id as int);
            }
            store.lemma_user_found(n, user.id as int);
            assert(!store.has_role(user.id as int)) by {
                if store.has_role(user.id as int) {
                    let w = store.role_idx(user.id as int);
                    assert(0 <= w < store.role_assignments@.len()
                        && store.role_assignments@[w].user_id as int == user.id as int);
                    assert(olds.has_user(olds.role_assignments@[w].user_id as int));
                    let v = olds.user_idx(olds.role_assignments@[w].user_id as int);
                    assert(olds.users@[v].id < olds.next_user_id);
                }
            }
            assert(store.users@.subrange(0, n) =~= olds.users@);
        }
        match RoleUser::add_role_to_user(store, &user, &Role::User) {
            Ok(()) => {
                proof {
                    let n = olds.users@.len() as int;
                    store.lemma_user_found(n, user.id as int);
                    let m = (store.role_assignments@.len() - 1) as int;
                    assert(store.role_assignments@[m].user_id == user.id);
                    store.lemma_role_found(m, user.id as int);
                }
                Ok(user)
            },
            Err(_) => Err(ApiError::Internal),
        }
    }

    /// Every user row.
    pub fn get_all(store: &Store) -> (r: Result<Vec<User>, ApiError>)
        ensures
            match r {
                Ok(v) => v@.len() == store.users@.len() && forall|i: int|
                    0 <= i < v@.len() ==> (#[trigger] v@[i])@ == store.users@[i]@,
                Err(_) => false,
            },
    {
        let mut out: Vec<User> = Vec::new();
        let n = store.users.len();
        let mut i: usize = 0;
        while i < n
            invariant
                n == store.users@.len(),
                i <= n,
                out@.len() == i,
                forall|j: int| 0 <= j < i ==> (#[trigger] out@[j])@ == store.users@[j]@,
            decreases n - i,
        {
            out.push(store.users[i].clone());
            i += 1;
        }
        Ok(out)
    }

    /// The user with this id, or the not-found error.
    pub fn get(store: &Store, user_id: i32) -> (r: Result<User, ApiError>)
        requires
            store.wf(),
        ensures
            match r {
                Ok(u) => store.has_user(user_id as int) && u@ == store.user_view(user_id as int),
                Err(e) => e == ApiError::UserNotFound && !store.has_user(user_id as int),
            },
    {
        match store.find_user(user_id) {
            Some(i) => {
                proof {
                    store.lemma_user_found(i as int, user_id as int);
                }
                Ok(store.users[i].clone())
            },
            None => Err(ApiError::UserNotFound),
        }
    }

    /// Login: the first row carrying the login, accepted exactly when
    /// bcrypt accepts the password against its stored hash; a stored hash
    /// the checker cannot read is the internal fault.
    pub fn lookup(store: &Store, user_login: &str, user_password: &str) -> (r: Result<
        User,
        ApiError,
    >)
        ensures
            match find_login(store.users@, user_login@, 0) {
                None => r == Err::<User, ApiError>(ApiError::User),
                Some(i) => {
                    &&& !bcrypt_hash_wf(store.users@[i].hash@) ==> r == Err::<User, ApiError>(
                        ApiError::Internal,
                    )
                    &&& bcrypt_hash_wf(store.users@[i].hash@) && !bcrypt_matches(
                        user_password@,
                        store.users@[i].hash@,
                    ) ==> r == Err::<User, ApiError>(ApiError::User)
                    &&& bcrypt_hash_wf(store.users@[i].hash@) && bcrypt_matches(
                        user_password@,
                        store.users@[i].hash@,
                    ) ==> (r matches Ok(u) && u@ == store.users@[i]@)
                },
            },
    {
        let n = store.users.len();
        let mut i: usize = 0;
        while i < n
            invariant
                n == store.users@.len(),
                i <= n,
                find_login(store.users@, user_login@, 0) == find_login(
                    store.users@,
                    user_login@,
                    i as int,
                ),
            decreases n - i,
        {
            if str_eq(store.users[i].login.as_str(), user_login) {
                let matching_user = store.users[i].clone();
                return match password_verify(user_password, matching_user.hash.as_str()) {
                    Some(true) => Ok(matching_user),
                    Some(false) => Err(ApiError::User),
                    None => Err(ApiError::Internal),
                };
            }
            i += 1;
        }
        Err(ApiError::User)
    }

    /// Replaces the row with the user's id; updating a missing id changes
    /// nothing, as a zero-row update did.
    pub fn update_user(store: &mut Store, user: &User) -> (r: Result<(), ApiError>)
        requires
            old(store).wf(),
        ensures
            final(store).wf(),
            r == Ok::<(), ApiError>(()),
            final(store).users@.len() == old(store).users@.len(),
            old(store).has_user(user.id as int) ==> {
                &&& final(store).users@[old(store).user_idx(user.id as int)]@ == user@
                &&& forall|k: int| 0 <= k < old(store).users@.len()
                    && k != old(store).user_idx(user.id as int)
                    ==> final(store).users@[k] == old(store).users@[k]
            },
            !old(store).has_user(user.id as int) ==> *final(store) == *old(store),
            final(store).groups == old(store).groups,
            final(store).memberships == old(store).memberships,
            final(store).role_assignments == old(store).role_assignments,
            final(store).domain_rules == old(store).domain_rules,
            final(store).url_rules == old(store).url_rules,
            forall|x: int| final(store).has_user(x) == old(store).has_user(x),
    {
        let ghost olds = *store;
        match store.find_user(user.id) {
            Some(i) => {
                proof {
                    store.lemma_user_found(i as int, user.id as int);
                }
                store.users.set(i, user.clone());
                proof {
                    assert forall|a: int, b: int| 0 <= a < b < store.users@.len() implies
                        store.users@[a].id != store.users@[b].id by {
                        assert(olds.users@[a].id != olds.users@[b].id);
                        assert(store.users@[a].id == olds.users@[a].id);
                        assert(store.users@[b].id == olds.users@[b].id);
                    }
                    assert forall|x: int| store.has_user(x) == olds.has_user(x) by {
                        if olds.has_user(x) {
                            let w = olds.user_idx(x);
                            assert(store.users@[w].id as int == x);
                        }
                        if store.has_user(x) {
                            let w = choose|k: int|
                                0 <= k < store.users@.len() && store.users@[k].id as int == x;
                            assert(olds.users@[w].id as int == x);
                        }
                    }
                    assert forall|k: int| 0 <= k < store.memberships@.len() implies
                        store.has_user((#[trigger] store.memberships@[k]).user_id as int)
                            && store.has_group(store.memberships@[k].group_id as int) by {
                        assert(olds.has_user(olds.memberships@[k].user_id as int));
                        assert(olds.has_group(olds.memberships@[k].group_id as int));
                        let wg = olds.group_idx(olds.memberships@[k].group_id as int);
                        assert(store.groups@[wg].id as int
                            == olds.memberships@[k].group_id as int);
                    }
                    assert forall|k: int| 0 <= k < store.role_assignments@.len() implies
                        store.has_user((#[trigger] store.role_assignments@[k]).user_id as int) by {
                        assert(olds.has_user(olds.role_assignments@[k].user_id as int));
                    }
                }
                Ok(())
            },
            None => Ok(()),
        }
    }
}

impl RoleUser {
    /// Assigns a role to a user that exists and holds none yet; the
    /// uniqueness or reference violation is the role error, as the store
    /// reported it.
    pub fn add_role_to_user(store: &mut Store, user: &User, role: &Role) -> (r: Result<
        (),
        ApiError,
    >)
        requires
            old(store).wf(),
        ensures
            final(store).wf(),
            !(old(store).has_user(user.id as int) && !old(store).has_role(user.id as int))
                ==> r == Err::<(), ApiError>(ApiError::Role) && *final(store) == *old(store),
            old(store).has_user(user.id as int) && !old(store).has_role(user.id as int) ==> {
                &&& r == Ok::<(), ApiError>(())
                &&& final(store).role_assignments@ == old(store).role_assignments@.push(
                    RoleUser { role: *role, user_id: user.id },
                )
                &&& final(store).users == old(store).users
                &&& final(store).groups == old(store).groups
                &&& final(store).memberships == old(store).memberships
                &&& final(store).domain_rules == old(store).domain_rules
                &&& final(store).url_rules == old(store).url_rules
                &&& final(store).next_user_id == old(store).next_user_id
            },
    {
        let ghost olds = *store;
        match store.find_user(user.id) {
            None => {
                return Err(ApiError::Role);
            },
            Some(ui) => {
                proof {
                    store.lemma_user_found(ui as int, user.id as int);
                }
            },
        }
        let n = store.role_assignments.len();
        let mut i: usize = 0;
        while i < n
            invariant
                n == store.role_assignments@.len(),
                i <= n,
                forall|k: int| 0 <= k < i ==> store.role_assignments@[k].user_id != user.id,
                *store == olds,
                store.wf(),
            decreases n - i,
        {
            if store.role_assignments[i].user_id == user.id {
                proof {
                    store.lemma_role_found(i as int, user.id as int);
                }
                return Err(ApiError::Role);
            }
            i += 1;
        }
        proof {
            if olds.has_role(user.id as int) {
                let w = olds.role_idx(user.id as int);
                assert(olds.role_assignments@[w].user_id as int == user.id as int);
            }
        }
        store.role_assignments.push(RoleUser { role: *role, user_id: user.id });
        proof {
            let m = olds.role_assignments@.len() as int;
            assert forall|a: int, b: int| 0 <= a < b < store.role_assignments@.len() implies
                store.role_assignments@[a].user_id != store.role_assignments@[b].user_id by {
                if b < m {
                    assert(olds.role_assignments@[a].user_id
                        != olds.role_assignments@[b].user_id);
                }
            }
            assert forall|k: int| 0 <= k < store.role_assignments@.len() implies
                store.has_user((#[trigger] store.role_assignments@[k]).user_id as int) by {
                if k < m {
                    assert(olds.has_user(olds.role_assignments@[k].user_id as int));
                    let wu = olds.user_idx(olds.role_assignments@[k].user_id as int);
                    assert(store.users@[wu].id as int
                        == olds.role_assignments@[k].user_id as int);
                } else {
                    assert(store.role_assignments@[k].user_id == user.id);
                    assert(olds.has_user(user.id as int));
                    let wu = olds.user_idx(user.id as int);
                    assert(store.users@[wu].id as int == user.id as int);
                }
            }
            assert forall|k: int| 0 <= k < store.memberships@.len() implies
                store.has_user((#[trigger] store.memberships@[k]).user_id as int)
                    && store.has_group(store.memberships@[k].group_id as int) by {
                assert(olds.has_user(olds.memberships@[k].user_id as int));
                let wu = olds.user_idx(olds.memberships@[k].user_id as int);
                assert(store.users@[wu].id as int == olds.memberships@[k].user_id as int);
                assert(olds.has_group(olds.memberships@[k].group_id as int));
                let wg = olds.group_idx(olds.memberships@[k].group_id as int);
                assert(store.groups@[wg].id as int == olds.memberships@[k].group_id as int);
            }
        }
        Ok(())
    }

    /// The one role the user holds, or the role error when it holds none.
    pub fn roles_from_user(store: &Store, user: &User) -> (r: Result<Role, ApiError>)
        requires
            store.wf(),
        ensures
            match r {
                Ok(role) => store.has_role(user.id as int) && role == store.role_of(
                    user.id as int,
                ),
                Err(e) => e == ApiError::Role && !store.has_role(user.id as int),
            },
    {
        let n = store.role_assignments.len();
        let mut i: usize = 0;
        while i < n
            invariant
                n == store.role_assignments@.len(),
                i <= n,
                forall|k: int| 0 <= k < i ==> store.role_assignments@[k].user_id != user.id,
                store.wf(),
            decreases n - i,
        {
            if store.role_assignments[i].user_id == user.id {
                proof {
                    store.lemma_role_found(i as int, user.id as int);
                }
                return Ok(store.role_assignments[i].role);
            }
            i += 1;
        }
        Err(ApiError::Role)
    }
}


/// One step of filtering: the filter of a longer prefix.
pub proof fn lemma_filter_take_step<T>(s: Seq<T>, pred: spec_fn(T) -> bool, i: int)
    requires
        0 <= i < s.len(),
    ensures
        s.take(i + 1).filter(pred) == (if pred(s[i]) {
            s.take(i).filter(pred).push(s[i])
        } else {
            s.take(i).filter(pred)
        }),
{
    reveal(Seq::filter);
    assert(s.take(i + 1).drop_last() =~= s.take(i));
    assert(s.take(i + 1).last() == s[i]);
}

impl Store {
    /// The groups the user belongs to, in table order.
    pub open spec fn member_groups(self, uid: int) -> Seq<Group> {
        self.groups@.filter(|g: Group| self.has_member(uid, g.id as int))
    }

    /// The users belonging to a group, in table order.
    pub open spec fn group_members(self, gid: int) -> Seq<User> {
        self.users@.filter(|u: User| self.has_member(u.id as int, gid))
    }

    /// Index of the membership row for this pair, if any.
    fn find_membership_pair(&self, uid: i32, gid: i32) -> (r: Option<usize>)
        ensures
            match r {
                Some(i) => i < self.memberships@.len()
                    && self.memberships@[i as int].user_id == uid
                    && self.memberships@[i as int].group_id == gid,
                None => !self.has_member(uid as int, gid as int),
            },
    {
        let n = self.memberships.len();
        let mut i: usize = 0;
        while i < n
            invariant
                n == self.memberships@.len(),
                i <= n,
                forall|k: int| 0 <= k < i ==> !((#[trigger] self.memberships@[k]).user_id == uid
                    && self.memberships@[k].group_id == gid),
            decreases n - i,
        {
            if self.memberships[i].user_id == uid && self.memberships[i].group_id == gid {
                return Some(i);
            }
            i += 1;
        }
        None
    }

    /// Index of some membership row of this group, if one remains.
    fn find_membership_by_group(&self, gid: i32) -> (r: Option<usize>)
        ensures
            match r {
                Some(i) => i < self.memberships@.len()
                    && self.memberships@[i as int].group_id == gid,
                None => forall|k: int| 0 <= k < self.memberships@.len()
                    ==> (#[trigger] self.memberships@[k]).group_id != gid,
            },
    {
        let n = self.memberships.len();
        let mut i: usize = 0;
        while i < n
            invariant
                n == self.memberships@.len(),
                i <= n,
                forall|k: int| 0 <= k < i ==> (#[trigger] self.memberships@[k]).group_id != gid,
            decreases n - i,
        {
            if self.memberships[i].group_id == gid {
                return Some(i);
            }
            i += 1;
        }
        None
    }

    /// Index of some membership row of this user, if one remains.
    fn find_membership_by_user(&self, uid: i32) -> (r: Option<usize>)
        ensures
            match r {
                Some(i) => i < self.memberships@.len()
                    && self.memberships@[i as int].user_id == uid,
                None => forall|k: int| 0 <= k < self.memberships@.len()
                    ==> (#[trigger] self.memberships@[k]).user_id != uid,
            },
    {
        let n = self.memberships.len();
        let mut i: usize = 0;
        while i < n
            invariant
                n == self.memberships@.len(),
                i <= n,
                forall|k: int| 0 <= k < i ==> (#[trigger] self.memberships@[k]).user_id != uid,
            decreases n - i,
        {
            if self.memberships[i].user_id == uid {
                return Some(i);
            }
            i += 1;
        }
        None
    }

    /// Removes one membership row, keeping every other pair.
    fn remove_membership(&mut self, i: usize)
        requires
            old(self).wf(),
            i < old(self).memberships@.len(),
        ensures
            final(self).wf(),
            forall|u: int, g: int| final(self).has_member(u, g) == (old(self).has_member(u, g)
                && !(u == old(self).memberships@[i as int].user_id as int
                    && g == old(self).memberships@[i as int].group_id as int)),
            final(self).memberships@.len() == old(self).memberships@.len() - 1,
            final(self).users == old(self).users,
            final(self).groups == old(self).groups,
            final(self).role_assignments == old(self).role_assignments,
            final(self).domain_rules == old(self).domain_rules,
            final(self).url_rules == old(self).url_rules,
            final(self).next_user_id == old(self).next_user_id,
            final(self).next_group_id == old(self).next_group_id,
    {
        let ghost olds = *self;
        self.memberships.remove(i);
        proof {
            let n = olds.memberships@.len() as int;
            let ii = i as int;
            let mu = olds.memberships@[ii].user_id as int;
            let mg = olds.memberships@[ii].group_id as int;
            assert(self.memberships@ =~= olds.memberships@.subrange(0, ii)
                + olds.memberships@.subrange(ii + 1, n));
            assert forall|a: int, b: int| 0 <= a < b < self.memberships@.len() implies
                !(self.memberships@[a].user_id == self.memberships@[b].user_id
                    && self.memberships@[a].group_id == self.memberships@[b].group_id) by {
                let oa = if a < ii { a } else { a + 1 };
                let ob = if b < ii { b } else { b + 1 };
                assert(self.memberships@[a] == olds.memberships@[oa]);
                assert(self.memberships@[b] == olds.memberships@[ob]);
                assert(!(olds.memberships@[oa].user_id == olds.memberships@[ob].user_id
                    && olds.memberships@[oa].group_id == olds.memberships@[ob].group_id));
            }
            assert forall|k: int| 0 <= k < self.memberships@.len() implies
                self.has_user((#[trigger] self.memberships@[k]).user_id as int)
                    && self.has_group(self.memberships@[k].group_id as int) by {
                let ok = if k < ii { k } else { k + 1 };
                assert(self.memberships@[k] == olds.memberships@[ok]);
                assert(olds.has_user(olds.memberships@[ok].user_id as int));
                let wu = olds.user_idx(olds.memberships@[ok].user_id as int);
                assert(self.users@[wu].id as int == olds.memberships@[ok].user_id as int);
                assert(olds.has_group(olds.memberships@[ok].group_id as int));
                let wg = olds.group_idx(olds.memberships@[ok].group_id as int);
                assert(self.groups@[wg].id as int == olds.memberships@[ok].group_id as int);
            }
            assert forall|k: int| 0 <= k < self.role_assignments@.len() implies
                self.has_user((#[trigger] self.role_assignments@[k]).user_id as int) by {
                assert(olds.has_user(olds.role_assignments@[k].user_id as int));
                let wu = olds.user_idx(olds.role_assignments@[k].user_id as int);
                assert(self.users@[wu].id as int == olds.role_assignments@[k].user_id as int);
            }
            assert forall|u: int, g: int|
                #![trigger self.has_member(u, g)]
                #![trigger olds.has_member(u, g)]
                self.has_member(u, g) == (olds.has_member(u, g) && !(u == mu && g == mg)) by {
                if self.has_member(u, g) {
                    let w = choose|k: int|
                        0 <= k < self.memberships@.len()
                            && (#[trigger] self.memberships@[k]).user_id as int == u
                            && self.memberships@[k].group_id as int == g;
                    let ow = if w < ii { w } else { w + 1 };
                    assert(self.memberships@[w] == olds.memberships@[ow]);
                    assert(olds.has_member(u, g));
                    if u == mu && g == mg {
                        assert(!(olds.memberships@[if ow < ii { ow } else { ii }].user_id
                            == olds.memberships@[if ow < ii { ii } else { ow }].user_id
                            && olds.memberships@[if ow < ii { ow } else { ii }].group_id
                            == olds.memberships@[if ow < ii { ii } else { ow }].group_id));
                    }
                }
                if olds.has_member(u, g) && !(u == mu && g == mg) {
                    let w = choose|k: int|
                        0 <= k < olds.memberships@.len()
                            && (#[trigger] olds.memberships@[k]).user_id as int == u
                            && olds.memberships@[k].group_id as int == g;
                    assert(w != ii);
                    let nw = if w < ii { w } else { w - 1 };
                    assert(self.memberships@[nw] == olds.memberships@[w]);
                    assert(self.has_member(u, g));
                }
            }
        }
    }
}

impl Group {
    /// Creates a group under a fresh id; this fails exactly when the key
    /// counter is exhausted.
    pub fn create_group(store: &mut Store, g: &NewGroup) -> (r: Result<Group, ApiError>)
        requires
            old(store).wf(),
        ensures
            final(store).wf(),
            (r is Err) <==> old(store).next_group_id == i32::MAX,
            match r {
                Ok(group) => {
                    &&& group.id == old(store).next_group_id
                    &&& group.name@ == g.name@
                    &&& final(store).groups@.len() == old(store).groups@.len() + 1
                    &&& final(store).groups@.subrange(0, old(store).groups@.len() as int)
                        == old(store).groups@
                    &&& final(store).groups@.last()@ == group@
                    &&& final(store).has_group(group.id as int)
                    &&& final(store).users == old(store).users
                    &&& final(store).memberships == old(store).memberships
                    &&& final(store).role_assignments == old(store).role_assignments
                    &&& final(store).domain_rules == old(store).domain_rules
                    &&& final(store).url_rules == old(store).url_rules
                },
                Err(e) => e == ApiError::GroupCreation && *final(store) == *old(store),
            },
    {
        if store.next_group_id == i32::MAX {
            return Err(ApiError::GroupCreation);
        }
        let ghost olds = *store;
        let group = Group { id: store.next_group_id, name: g.name.clone() };
        store.groups.push(group.clone());
        store.next_group_id = store.next_group_id + 1;
        proof {
            let n = olds.groups@.len() as int;
            assert(store.groups@[n].id == group.id);
            assert forall|i: int, j: int| 0 <= i < j < store.groups@.len() implies
                store.groups@[i].id != store.groups@[j].id by {
                if j < n {
                    assert(olds.groups@[i].id != olds.groups@[j].id);
                } else {
                    assert(olds.groups@[i].id < olds.next_group_id);
                }
            }
            assert forall|i: int| 0 <= i < store.memberships@.len() implies
                store.has_user((#[trigger] store.memberships@[i]).user_id as int)
                    && store.has_group(store.memberships@[i].group_id as int) by {
                assert(olds.has_user(olds.memberships@[i].user_id as int));
                let wu = olds.user_idx(olds.memberships@[i].user_id as int);
                assert(store.users@[wu].id as int == olds.memberships@[i].user_id as int);
                assert(olds.has_group(olds.memberships@[i].group_id as int));
                let wg = olds.group_idx(olds.memberships@[i].group_id as int);
                assert(store.groups@[wg].id as int == olds.memberships@[i].group_id as int);
            }
            assert forall|i: int| 0 <= i < store.role_assignments@.len() implies
                store.has_user((#[trigger] store.role_assignments@[i]).user_id as int) by {
                assert(olds.has_user(olds.role_assignments@[i].user_id as int));
                let wu = olds.user_idx(olds.role_assignments@[i].user_id as int);
                assert(store.users@[wu].id as int == olds.role_assignments@[i].user_id as int);
            }
            store.lemma_group_found(n, group.id as int);
            assert(store.groups@.subrange(0, n) =~= olds.groups@);
        }
        Ok(group)
    }

    /// Every group row.
    pub fn read_all(store: &Store) -> (r: Result<Vec<Group>, ApiError>)
        ensures
            match r {
                Ok(v) => v@.len() == store.groups@.len() && forall|i: int|
                    0 <= i < v@.len() ==> (#[trigger] v@[i])@ == store.groups@[i]@,
                Err(_) => false,
            },
    {
        let mut out: Vec<Group> = Vec::new();
        let n = store.groups.len();
        let mut i: usize = 0;
        while i < n
            invariant
                n == store.groups@.len(),
                i <= n,
                out@.len() == i,
                forall|j: int| 0 <= j < i ==> (#[trigger] out@[j])@ == store.groups@[j]@,
            decreases n - i,
        {
            out.push(store.groups[i].clone());
            i += 1;
        }
        Ok(out)
    }

    /// The group with this id, or the group error.
    pub fn read_by_id(store: &Store, group_id: i32) -> (r: Result<Group, ApiError>)
        requires
            store.wf(),
        ensures
            match r {
                Ok(g) => store.has_group(group_id as int) && g@ == store.group_view(
                    group_id as int,
                ),
                Err(e) => e == ApiError::Group && !store.has_group(group_id as int),
            },
    {
        match store.find_group(group_id) {
            Some(i) => {
                proof {
                    store.lemma_group_found(i as int, group_id as int);
                }
                Ok(store.groups[i].clone())
            },
            None => Err(ApiError::Group),
        }
    }

    /// Replaces the row with the group's id; a missing id changes
    /// nothing.
    pub fn update_group(store: &mut Store, group: &Group) -> (r: Result<(), ApiError>)
        requires
            old(store).wf(),
        ensures
            final(store).wf(),
            r == Ok::<(), ApiError>(()),
            final(store).groups@.len() == old(store).groups@.len(),
            old(store).has_group(group.id as int) ==> {
                &&& final(store).groups@[old(store).group_idx(group.id as int)]@ == group@
                &&& forall|k: int| 0 <= k < old(store).groups@.len()
                    && k != old(store).group_idx(group.id as int)
                    ==> final(store).groups@[k] == old(store).groups@[k]
            },
            !old(store).has_group(group.id as int) ==> *final(store) == *old(store),
            final(store).users == old(store).users,
            final(store).memberships == old(store).memberships,
            final(store).role_assignments == old(store).role_assignments,
            final(store).domain_rules == old(store).domain_rules,
            final(store).url_rules == old(store).url_rules,
            forall|x: int| final(store).has_group(x) == old(store).has_group(x),
    {
        let ghost olds = *store;
        match store.find_group(group.id) {
            Some(i) => {
                proof {
                    store.lemma_group_found(i as int, group.id as int);
                }
                store.groups.set(i, group.clone());
                proof {
                    assert forall|a: int, b: int| 0 <= a < b < store.groups@.len() implies
                        store.groups@[a].id != store.groups@[b].id by {
                        assert(olds.groups@[a].id != olds.groups@[b].id);
                        assert(store.groups@[a].id == olds.groups@[a].id);
                        assert(store.groups@[b].id == olds.groups@[b].id);
                    }
                    assert forall|x: int| store.has_group(x) == olds.has_group(x) by {
                        if olds.has_group(x) {
                            let w = olds.group_idx(x);
                            assert(store.groups@[w].id as int == x);
                        }
                        if store.has_group(x) {
                            let w = choose|k: int|
                                0 <= k < store.groups@.len() && store.groups@[k].id as int == x;
                            assert(olds.groups@[w].id as int == x);
                        }
                    }
                    assert forall|k: int| 0 <= k < store.memberships@.len() implies
                        store.has_user((#[trigger] store.memberships@[k]).user_id as int)
                            && store.has_group(store.memberships@[k].group_id as int) by {
                        assert(olds.has_user(olds.memberships@[k].user_id as int));
                        let wu = olds.user_idx(olds.memberships@[k].user_id as int);
                        assert(store.users@[wu].id as int
                            == olds.memberships@[k].user_id as int);
                        assert(olds.has_group(olds.memberships@[k].group_id as int));
                        let wg = olds.group_idx(olds.memberships@[k].group_id as int);
                        assert(store.groups@[wg].id as int
                            == olds.memberships@[k].group_id as int);
                    }
                    assert forall|k: int| 0 <= k < store.role_assignments@.len() implies
                        store.has_user((#[trigger] store.role_assignments@[k]).user_id as int) by {
                        assert(olds.has_user(olds.role_assignments@[k].user_id as int));
                        let wu = olds.user_idx(olds.role_assignments@[k].user_id as int);
                        assert(store.users@[wu].id as int
                            == olds.role_assignments@[k].user_id as int);
                    }
                }
                Ok(())
            },
            None => Ok(()),
        }
    }

    /// The users belonging to a group, in table order.
    pub fn users_from_group(store: &Store, group: &Group) -> (r: Result<Vec<User>, ApiError>)
        ensures
            match r {
                Ok(v) => {
                    &&& v@.len() == store.group_members(group.id as int).len()
                    &&& forall|k: int| 0 <= k < v@.len() ==> (#[trigger] v@[k])@
                        == store.group_members(group.id as int)[k]@
                },
                Err(_) => false,
            },
    {
        let gid = group.id;
        let ghost pred = |u: User| store.has_member(u.id as int, gid as int);
        let mut out: Vec<User> = Vec::new();
        let n = store.users.len();
        let mut i: usize = 0;
        while i < n
            invariant
                n == store.users@.len(),
                i <= n,
                gid == group.id,
                out@.len() == store.users@.take(i as int).filter(pred).len(),
                forall|k: int| 0 <= k < out@.len() ==> (#[trigger] out@[k])@
                    == store.users@.take(i as int).filter(pred)[k]@,
                pred == (|u: User| store.has_member(u.id as int, gid as int)),
            decreases n - i,
        {
            let is_in = match store.find_membership_pair(store.users[i].id, gid) {
                Some(_) => true,
                None => false,
            };
            proof {
                lemma_filter_take_step(store.users@, pred, i as int);
                if is_in {
                    let w = choose|k: int|
                        0 <= k < store.memberships@.len()
                            && (#[trigger] store.memberships@[k]).user_id
                            == store.users@[i as int].id
                            && store.memberships@[k].group_id == gid;
                    assert(store.has_member(store.users@[i as int].id as int, gid as int));
                }
            }
            if is_in {
                out.push(store.users[i].clone());
            }
            i += 1;
        }
        proof {
            assert(store.users@.take(n as int) =~= store.users@);
        }
        Ok(out)
    }

    /// Deletes a group: every membership in it goes, flagging each
    /// affected user's live tokens for rotation, then the row itself.
    pub fn delete_group(store: &mut Store, reg: &mut TokenRegistry, group: &Group) -> (r: Result<
        (),
        ApiError,
    >)
        requires
            old(store).wf(),
            old(reg).wf(),
        ensures
            final(store).wf(),
            final(reg).wf(),
            r == Ok::<(), ApiError>(()),
            !final(store).has_group(group.id as int),
            forall|x: int| x != group.id as int
                ==> final(store).has_group(x) == old(store).has_group(x),
            forall|u: int, g: int| final(store).has_member(u, g) == (old(store).has_member(u, g)
                && g != group.id as int),
            final(store).users == old(store).users,
            final(store).role_assignments == old(store).role_assignments,
            final(store).domain_rules == old(store).domain_rules,
            final(store).url_rules == old(store).url_rules,
            forall|x: Seq<char>| final(reg).contains_jti(x) == old(reg).contains_jti(x),
            forall|x: Seq<char>| old(reg).contains_jti(x) ==>
                final(reg).owner_of(x) == old(reg).owner_of(x),
            forall|x: Seq<char>| old(reg).contains_jti(x) && old(reg).flagged(x)
                ==> final(reg).flagged(x),
            forall|x: Seq<char>| old(reg).contains_jti(x) && final(reg).flagged(x) ==>
                old(reg).flagged(x) || old(store).has_member(
                    old(reg).owner_of(x),
                    group.id as int,
                ),
    {
        let ghost olds = *store;
        let ghost oldr = *reg;
        let gid = group.id;
        loop
            invariant
                olds == *old(store),
                oldr == *old(reg),
                olds.wf(),
                oldr.wf(),
                store.wf(),
                reg.wf(),
                gid == group.id,
                store.users == olds.users,
                store.groups == olds.groups,
                store.role_assignments == olds.role_assignments,
                store.domain_rules == olds.domain_rules,
                store.url_rules == olds.url_rules,
                store.next_user_id == olds.next_user_id,
                store.next_group_id == olds.next_group_id,
                forall|u: int, g: int| store.has_member(u, g) ==> olds.has_member(u, g),
                forall|u: int, g: int| olds.has_member(u, g) && g != gid as int
                    ==> store.has_member(u, g),
                forall|x: Seq<char>| reg.contains_jti(x) == oldr.contains_jti(x),
                forall|x: Seq<char>| oldr.contains_jti(x) ==>
                    reg.owner_of(x) == oldr.owner_of(x),
                forall|x: Seq<char>| oldr.contains_jti(x) && oldr.flagged(x) ==> reg.flagged(x),
                forall|x: Seq<char>| oldr.contains_jti(x) && reg.flagged(x) ==>
                    oldr.flagged(x) || olds.has_member(oldr.owner_of(x), gid as int),
            decreases store.memberships@.len(),
        {
            let ghost prevs = *store;
            match store.find_membership_by_group(gid) {
                Some(i) => {
                    let uid = store.memberships[i].user_id;
                    proof {
                        assert(prevs.has_member(uid as int, gid as int));
                        assert(olds.has_member(uid as int, gid as int));
                        assert(olds.has_user(uid as int));
                    }
                    let rr = reg.set_refresh_for_user(uid);
                    proof {
                        assert(rr is Ok);
                    }
                    store.remove_membership(i);
                },
                None => {
                    // no membership references the group; drop the row
                    let ghost mids = *store;
                    proof {
                        assert forall|u: int| !(#[trigger] mids.has_member(u, gid as int)) by {
                            if mids.has_member(u, gid as int) {
                                let w = choose|k: int|
                                    0 <= k < mids.memberships@.len()
                                        && (#[trigger] mids.memberships@[k]).user_id as int == u
                                        && mids.memberships@[k].group_id as int == gid as int;
                                assert(mids.memberships@[w].group_id != gid);
                            }
                        }
                        assert forall|x: int| mids.has_group(x) == olds.has_group(x) by {
                            if olds.has_group(x) {
                                let w = olds.group_idx(x);
                                assert(mids.groups@[w].id as int == x);
                            }
                            if mids.has_group(x) {
                                let w = choose|k: int|
                                    0 <= k < mids.groups@.len()
                                        && mids.groups@[k].id as int == x;
                                assert(olds.groups@[w].id as int == x);
                            }
                        }
                    }
                    match store.find_group(gid) {
                        Some(i) => {
                            proof {
                                store.lemma_group_found(i as int, gid as int);
                            }
                            store.groups.remove(i);
                            proof {
                                let n = mids.groups@.len() as int;
                                let ii = i as int;
                                assert(store.groups@ =~= mids.groups@.subrange(0, ii)
                                    + mids.groups@.subrange(ii + 1, n));
                                assert forall|a: int, b: int|
                                    0 <= a < b < store.groups@.len() implies
                                    store.groups@[a].id != store.groups@[b].id by {
                                    let oa = if a < ii { a } else { a + 1 };
                                    let ob = if b < ii { b } else { b + 1 };
                                    assert(store.groups@[a] == mids.groups@[oa]);
                                    assert(store.groups@[b] == mids.groups@[ob]);
                                    assert(mids.groups@[oa].id != mids.groups@[ob].id);
                                }
                                assert forall|x: int| x != gid as int implies
                                    store.has_group(x) == mids.has_group(x) by {
                                    if mids.has_group(x) {
                                        let w = mids.group_idx(x);
                                        mids.lemma_group_found(w, x);
                                        assert(w != ii);
                                        let nw = if w < ii { w } else { w - 1 };
                                        assert(store.groups@[nw] == mids.groups@[w]);
                                    }
                                    if store.has_group(x) {
                                        let w = choose|k: int|
                                            0 <= k < store.groups@.len()
                                                && store.groups@[k].id as int == x;
                                        let ow = if w < ii { w } else { w + 1 };
                                        assert(store.groups@[w] == mids.groups@[ow]);
                                        assert(mids.has_group(x));
                                    }
                                }
                                assert(!store.has_group(gid as int)) by {
                                    if store.has_group(gid as int) {
                                        let w = choose|k: int|
                                            0 <= k < store.groups@.len()
                                                && store.groups@[k].id as int == gid as int;
                                        let ow = if w < ii { w } else { w + 1 };
                                        assert(store.groups@[w] == mids.groups@[ow]);
                                        mids.lemma_group_found(ow, gid as int);
                                    }
                                }
                                assert forall|k: int| 0 <= k < store.memberships@.len() implies
                                    store.has_user(
                                        (#[trigger] store.memberships@[k]).user_id as int,
                                    ) && store.has_group(
                                        store.memberships@[k].group_id as int,
                                    ) by {
                                    assert(store.memberships@[k].group_id != gid);
                                    assert(mids.has_user(mids.memberships@[k].user_id as int));
                                    let wu = mids.user_idx(mids.memberships@[k].user_id as int);
                                    assert(store.users@[wu].id as int
                                        == mids.memberships@[k].user_id as int);
                                    assert(mids.has_group(mids.memberships@[k].group_id as int));
                                    let wg = mids.group_idx(
                                        mids.memberships@[k].group_id as int,
                                    );
                                    mids.lemma_group_found(
                                        wg,
                                        mids.memberships@[k].group_id as int,
                                    );
                                    assert(wg != ii);
                                    let nwg = if wg < ii { wg } else { wg - 1 };
                                    assert(store.groups@[nwg] == mids.groups@[wg]);
                                }
                                assert forall|k: int|
                                    0 <= k < store.role_assignments@.len() implies
                                    store.has_user(
                                        (#[trigger] store.role_assignments@[k]).user_id as int,
                                    ) by {
                                    assert(mids.has_user(
                                        mids.role_assignments@[k].user_id as int,
                                    ));
                                    let wu = mids.user_idx(
                                        mids.role_assignments@[k].user_id as int,
                                    );
                                    assert(store.users@[wu].id as int
                                        == mids.role_assignments@[k].user_id as int);
                                }
                            }
                            return Ok(());
                        },
                        None => {
                            return Ok(());
                        },
                    }
                },
            }
        }
    }
}


impl GroupUser {
    /// Adds a user to a group; the duplicate pair or a dangling reference
    /// is the group error the store reported. A new membership flags the
    /// user's live tokens for rotation.
    pub fn add_user_to_group(
        store: &mut Store,
        reg: &mut TokenRegistry,
        user: &User,
        group: &Group,
    ) -> (r: Result<(), ApiError>)
        requires
            old(store).wf(),
            old(reg).wf(),
        ensures
            final(store).wf(),
            final(reg).wf(),
            !(old(store).has_user(user.id as int) && old(store).has_group(group.id as int)
                && !old(store).has_member(user.id as int, group.id as int)) ==> {
                &&& r == Err::<(), ApiError>(ApiError::Group)
                &&& *final(store) == *old(store)
                &&& *final(reg) == *old(reg)
            },
            old(store).has_user(user.id as int) && old(store).has_group(group.id as int)
                && !old(store).has_member(user.id as int, group.id as int) ==> {
                &&& r == Ok::<(), ApiError>(())
                &&& final(store).memberships@ == old(store).memberships@.push(
                    GroupUser { group_id: group.id, user_id: user.id },
                )
                &&& final(store).has_member(user.id as int, group.id as int)
                &&& forall|u: int, g: int| !(u == user.id as int && g == group.id as int) ==>
                    final(store).has_member(u, g) == old(store).has_member(u, g)
                &&& final(store).users == old(store).users
                &&& final(store).groups == old(store).groups
                &&& final(store).role_assignments == old(store).role_assignments
                &&& final(store).domain_rules == old(store).domain_rules
                &&& final(store).url_rules == old(store).url_rules
                &&& forall|x: Seq<char>|
                    final(reg).contains_jti(x) == old(reg).contains_jti(x)
                &&& forall|x: Seq<char>| old(reg).contains_jti(x) ==>
                    final(reg).owner_of(x) == old(reg).owner_of(x)
                    && final(reg).flagged(x) == (old(reg).flagged(x)
                        || old(reg).owner_of(x) == user.id as int)
            },
    {
        let ghost olds = *store;
        let ui = match store.find_user(user.id) {
            Some(i) => i,
            None => {
                return Err(ApiError::Group);
            },
        };
        let gi = match store.find_group(group.id) {
            Some(i) => i,
            None => {
                return Err(ApiError::Group);
            },
        };
        proof {
            store.lemma_user_found(ui as int, user.id as int);
            store.lemma_group_found(gi as int, group.id as int);
        }
        match store.find_membership_pair(user.id, group.id) {
            Some(mi) => {
                proof {
                    assert(store.memberships@[mi as int].user_id == user.id);
                    assert(olds.has_member(user.id as int, group.id as int));
                }
                return Err(ApiError::Group);
            },
            None => {},
        }
        store.memberships.push(GroupUser { group_id: group.id, user_id: user.id });
        proof {
            let n = olds.memberships@.len() as int;
            assert forall|a: int, b: int| 0 <= a < b < store.memberships@.len() implies
                !(store.memberships@[a].user_id == store.memberships@[b].user_id
                    && store.memberships@[a].group_id == store.memberships@[b].group_id) by {
                if b < n {
                    assert(!(olds.memberships@[a].user_id == olds.memberships@[b].user_id
                        && olds.memberships@[a].group_id == olds.memberships@[b].group_id));
                } else {
                    if olds.memberships@[a].user_id == user.id && olds.memberships@[a].group_id
                        == group.id {
                        assert(olds.has_member(user.id as int, group.id as int));
                    }
                }
            }
            assert forall|k: int| 0 <= k < store.memberships@.len() implies
                store.has_user((#[trigger] store.memberships@[k]).user_id as int)
                    && store.has_group(store.memberships@[k].group_id as int) by {
                if k < n {
                    assert(olds.has_user(olds.memberships@[k].user_id as int));
                    let wu = olds.user_idx(olds.memberships@[k].user_id as int);
                    assert(store.users@[wu].id as int == olds.memberships@[k].user_id as int);
                    assert(olds.has_group(olds.memberships@[k].group_id as int));
                    let wg = olds.group_idx(olds.memberships@[k].group_id as int);
                    assert(store.groups@[wg].id as int == olds.memberships@[k].group_id as int);
                } else {
                    assert(store.users@[ui as int].id == user.id);
                    assert(store.groups@[gi as int].id == group.id);
                }
            }
            assert forall|k: int| 0 <= k < store.role_assignments@.len() implies
                store.has_user((#[trigger] store.role_assignments@[k]).user_id as int) by {
                assert(olds.has_user(olds.role_assignments@[k].user_id as int));
                let wu = olds.user_idx(olds.role_assignments@[k].user_id as int);
                assert(store.users@[wu].id as int == olds.role_assignments@[k].user_id as int);
            }
            assert(store.memberships@[n].user_id == user.id
                && store.memberships@[n].group_id == group.id);
            assert(store.has_member(user.id as int, group.id as int));
            assert forall|u: int, g: int| !(u == user.id as int && g == group.id as int) implies
                #[trigger] store.has_member(u, g) == olds.has_member(u, g) by {
                if olds.has_member(u, g) {
                    let w = choose|k: int|
                        0 <= k < olds.memberships@.len()
                            && (#[trigger] olds.memberships@[k]).user_id as int == u
                            && olds.memberships@[k].group_id as int == g;
                    assert(store.memberships@[w].user_id as int == u);
                    assert(store.has_member(u, g));
                }
                if store.has_member(u, g) {
                    let w = choose|k: int|
                        0 <= k < store.memberships@.len()
                            && (#[trigger] store.memberships@[k]).user_id as int == u
                            && store.memberships@[k].group_id as int == g;
                    assert(w != n);
                    assert(olds.memberships@[w].user_id as int == u);
                    assert(olds.has_member(u, g));
                }
            }
        }
        let rr = crate::jwt::JWTInternal::refresh_for_user(reg, user);
        proof {
            assert(rr is Ok);
        }
        Ok(())
    }

    /// Removes a user from a group; the absent pair is the group error.
    /// A removed membership flags the user's live tokens for rotation.
    pub fn remove_user_from_group(
        store: &mut Store,
        reg: &mut TokenRegistry,
        user: &User,
        group: &Group,
    ) -> (r: Result<(), ApiError>)
        requires
            old(store).wf(),
            old(reg).wf(),
        ensures
            final(store).wf(),
            final(reg).wf(),
            !old(store).has_member(user.id as int, group.id as int) ==> {
                &&& r == Err::<(), ApiError>(ApiError::Group)
                &&& *final(store) == *old(store)
                &&& *final(reg) == *old(reg)
            },
            old(store).has_member(user.id as int, group.id as int) ==> {
                &&& r == Ok::<(), ApiError>(())
                &&& !final(store).has_member(user.id as int, group.id as int)
                &&& forall|u: int, g: int| !(u == user.id as int && g == group.id as int) ==>
                    final(store).has_member(u, g) == old(store).has_member(u, g)
                &&& final(store).users == old(store).users
                &&& final(store).groups == old(store).groups
                &&& final(store).role_assignments == old(store).role_assignments
                &&& final(store).domain_rules == old(store).domain_rules
                &&& final(store).url_rules == old(store).url_rules
                &&& forall|x: Seq<char>|
                    final(reg).contains_jti(x) == old(reg).contains_jti(x)
                &&& forall|x: Seq<char>| old(reg).contains_jti(x) ==>
                    final(reg).owner_of(x) == old(reg).owner_of(x)
                    && final(reg).flagged(x) == (old(reg).flagged(x)
                        || old(reg).owner_of(x) == user.id as int)
            },
    {
        match store.find_membership_pair(user.id, group.id) {
            Some(i) => {
                proof {
                    assert(store.has_member(user.id as int, group.id as int));
                }
                store.remove_membership(i);
                let rr = crate::jwt::JWTInternal::refresh_for_user(reg, user);
                proof {
                    assert(rr is Ok);
                }
                Ok(())
            },
            None => Err(ApiError::Group),
        }
    }
}


impl Store {
    /// Index of the user's role row, if any.
    fn find_role_by_user(&self, uid: i32) -> (r: Option<usize>)
        ensures
            match r {
                Some(i) => i < self.role_assignments@.len()
                    && self.role_assignments@[i as int].user_id == uid,
                None => !self.has_role(uid as int),
            },
    {
        let n = self.role_assignments.len();
        let mut i: usize = 0;
        while i < n
            invariant
                n == self.role_assignments@.len(),
                i <= n,
                forall|k: int| 0 <= k < i
                    ==> (#[trigger] self.role_assignments@[k]).user_id != uid,
            decreases n - i,
        {
            if self.role_assignments[i].user_id == uid {
                return Some(i);
            }
            i += 1;
        }
        None
    }
}

impl User {
    /// The groups the user belongs to, in table order.
    pub fn get_groups(store: &Store, user: &User) -> (r: Result<Vec<Group>, ApiError>)
        ensures
            match r {
                Ok(v) => {
                    &&& v@.len() == store.member_groups(user.id as int).len()
                    &&& forall|k: int| 0 <= k < v@.len() ==> (#[trigger] v@[k])@
                        == store.member_groups(user.id as int)[k]@
                },
                Err(_) => false,
            },
    {
        let uid = user.id;
        let ghost pred = |g: Group| store.has_member(uid as int, g.id as int);
        let mut out: Vec<Group> = Vec::new();
        let n = store.groups.len();
        let mut i: usize = 0;
        while i < n
            invariant
                n == store.groups@.len(),
                i <= n,
                uid == user.id,
                out@.len() == store.groups@.take(i as int).filter(pred).len(),
                forall|k: int| 0 <= k < out@.len() ==> (#[trigger] out@[k])@
                    == store.groups@.take(i as int).filter(pred)[k]@,
                pred == (|g: Group| store.has_member(uid as int, g.id as int)),
            decreases n - i,
        {
            let is_in = match store.find_membership_pair(uid, store.groups[i].id) {
                Some(_) => true,
                None => false,
            };
            proof {
                lemma_filter_take_step(store.groups@, pred, i as int);
                if is_in {
                    let w = choose|k: int|
                        0 <= k < store.memberships@.len()
                            && (#[trigger] store.memberships@[k]).user_id == uid
                            && store.memberships@[k].group_id == store.groups@[i as int].id;
                    assert(store.has_member(uid as int, store.groups@[i as int].id as int));
                }
            }
            if is_in {
                out.push(store.groups[i].clone());
            }
            i += 1;
        }
        proof {
            assert(store.groups@.take(n as int) =~= store.groups@);
        }
        Ok(out)
    }

    /// Deletes an account: every membership of the user goes (flagging
    /// its live tokens along the way), then its role row, then the user
    /// row itself. Revoking the user's tokens is the caller's step, as it
    /// was at the route.
    #[verifier::rlimit(100)]
    pub fn delete_user(store: &mut Store, reg: &mut TokenRegistry, user: &User) -> (r: Result<
        (),
        ApiError,
    >)
        requires
            old(store).wf(),
            old(reg).wf(),
        ensures
            final(store).wf(),
            final(reg).wf(),
            r == Ok::<(), ApiError>(()),
            !final(store).has_user(user.id as int),
            forall|x: int| x != user.id as int
                ==> final(store).has_user(x) == old(store).has_user(x),
            forall|u: int, g: int| final(store).has_member(u, g) == (old(store).has_member(u, g)
                && u != user.id as int),
            forall|u: int| final(store).has_role(u) == (old(store).has_role(u)
                && u != user.id as int),
            forall|u: int| final(store).has_role(u) ==> final(store).role_of(u)
                == old(store).role_of(u),
            final(store).groups == old(store).groups,
            final(store).domain_rules == old(store).domain_rules,
            final(store).url_rules == old(store).url_rules,
            forall|x: Seq<char>| final(reg).contains_jti(x) == old(reg).contains_jti(x),
            forall|x: Seq<char>| old(reg).contains_jti(x) ==>
                final(reg).owner_of(x) == old(reg).owner_of(x),
            forall|x: Seq<char>| old(reg).contains_jti(x) && old(reg).flagged(x)
                ==> final(reg).flagged(x),
            forall|x: Seq<char>| old(reg).contains_jti(x) && final(reg).flagged(x) ==>
                old(reg).flagged(x) || old(reg).owner_of(x) == user.id as int,
    {
        let ghost olds = *store;
        let ghost oldr = *reg;
        let uid = user.id;
        loop
            invariant
                olds == *old(store),
                oldr == *old(reg),
                olds.wf(),
                oldr.wf(),
                store.wf(),
                reg.wf(),
                uid == user.id,
                store.users == olds.users,
                store.groups == olds.groups,
                store.role_assignments == olds.role_assignments,
                store.domain_rules == olds.domain_rules,
                store.url_rules == olds.url_rules,
                store.next_user_id == olds.next_user_id,
                store.next_group_id == olds.next_group_id,
                forall|u: int, g: int| store.has_member(u, g) ==> olds.has_member(u, g),
                forall|u: int, g: int| olds.has_member(u, g) && u != uid as int
                    ==> store.has_member(u, g),
                forall|x: Seq<char>| reg.contains_jti(x) == oldr.contains_jti(x),
                forall|x: Seq<char>| oldr.contains_jti(x) ==>
                    reg.owner_of(x) == oldr.owner_of(x),
                forall|x: Seq<char>| oldr.contains_jti(x) && oldr.flagged(x) ==> reg.flagged(x),
                forall|x: Seq<char>| oldr.contains_jti(x) && reg.flagged(x) ==>
                    oldr.flagged(x) || oldr.owner_of(x) == uid as int,
            decreases store.memberships@.len(),
        {
            let ghost prevs = *store;
            match store.find_membership_by_user(uid) {
                Some(i) => {
                    let rr = reg.set_refresh_for_user(uid);
                    proof {
                        assert(rr is Ok);
                    }
                    store.remove_membership(i);
                },
                None => {
                    let ghost mids = *store;
                    proof {
                        assert forall|u: int, g: int|
                            #![trigger mids.has_member(u, g)]
                            mids.has_member(u, g) == (olds.has_member(u, g) && u != uid as int)
                            by {
                            if mids.has_member(u, g) {
                                let w = choose|k: int|
                                    0 <= k < mids.memberships@.len()
                                        && (#[trigger] mids.memberships@[k]).user_id as int == u
                                        && mids.memberships@[k].group_id as int == g;
                                assert(mids.memberships@[w].user_id != uid);
                            }
                        }
                        assert forall|x: int| #![trigger mids.has_user(x)]
                            mids.has_user(x) == olds.has_user(x) by {
                            if olds.has_user(x) {
                                let w = olds.user_idx(x);
                                assert(mids.users@[w].id as int == x);
                            }
                            if mids.has_user(x) {
                                let w = choose|k: int|
                                    0 <= k < mids.users@.len()
                                        && mids.users@[k].id as int == x;
                                assert(olds.users@[w].id as int == x);
                            }
                        }
                        assert forall|u: int| #![trigger mids.has_role(u)]
                            mids.has_role(u) == olds.has_role(u) by {
                            if olds.has_role(u) {
                                let w = olds.role_idx(u);
                                assert(mids.role_assignments@[w].user_id as int == u);
                            }
                            if mids.has_role(u) {
                                let w = choose|k: int|
                                    0 <= k < mids.role_assignments@.len()
                                        && (#[trigger] mids.role_assignments@[k]).user_id as int
                                        == u;
                                assert(olds.role_assignments@[w].user_id as int == u);
                            }
                        }
                        assert forall|u: int| olds.has_role(u) implies
                            #[trigger] mids.role_of(u) == olds.role_of(u) by {
                            let w = olds.role_idx(u);
                            olds.lemma_role_found(w, u);
                            assert(mids.role_assignments@[w].user_id as int == u);
                            mids.lemma_role_found(w, u);
                        }
                    }
                    // drop the role row, if one stands
                    match store.find_role_by_user(uid) {
                        Some(ri) => {
                            store.role_assignments.remove(ri);
                            proof {
                                store.lemma_after_remove_role(mids, ri as int, uid as int);
                            }
                        },
                        None => {},
                    }
                    let ghost rids = *store;
                    proof {
                        assert(!rids.has_role(uid as int)) by {
                            if rids.has_role(uid as int) {
                                let w = rids.role_idx(uid as int);
                                rids.lemma_role_found(w, uid as int);
                            }
                        }
                        assert forall|x: int| #![trigger rids.has_user(x)]
                            rids.has_user(x) == olds.has_user(x) by {
                            if olds.has_user(x) {
                                let w = olds.user_idx(x);
                                assert(rids.users@[w].id as int == x);
                            }
                            if rids.has_user(x) {
                                let w = choose|k: int|
                                    0 <= k < rids.users@.len()
                                        && rids.users@[k].id as int == x;
                                assert(olds.users@[w].id as int == x);
                            }
                        }
                        assert forall|u: int| u != uid as int implies
                            #[trigger] rids.has_role(u) == olds.has_role(u) by {
                            assert(rids.has_role(u) == mids.has_role(u));
                            assert(mids.has_role(u) == olds.has_role(u));
                        }
                        assert forall|u: int| u != uid as int && olds.has_role(u) implies
                            #[trigger] rids.role_of(u) == olds.role_of(u) by {
                            assert(mids.role_of(u) == olds.role_of(u));
                        }
                        assert forall|u: int, g: int| #![trigger rids.has_member(u, g)]
                            rids.has_member(u, g) == mids.has_member(u, g) by {
                            if mids.has_member(u, g) {
                                let w = choose|k: int|
                                    0 <= k < mids.memberships@.len()
                                        && (#[trigger] mids.memberships@[k]).user_id as int == u
                                        && mids.memberships@[k].group_id as int == g;
                                assert(rids.memberships@[w].user_id as int == u);
                            }
                            if rids.has_member(u, g) {
                                let w = choose|k: int|
                                    0 <= k < rids.memberships@.len()
                                        && (#[trigger] rids.memberships@[k]).user_id as int == u
                                        && rids.memberships@[k].group_id as int == g;
                                assert(mids.memberships@[w].user_id as int == u);
                            }
                        }
                    }
                    // drop the user row
                    match store.find_user(uid) {
                        Some(ui) => {
                            proof {
                                store.lemma_user_found(ui as int, uid as int);
                            }
                            store.users.remove(ui);
                            proof {
                                let n = rids.users@.len() as int;
                                let ii = ui as int;
                                assert(store.users@ =~= rids.users@.subrange(0, ii)
                                    + rids.users@.subrange(ii + 1, n));
                                assert forall|a: int, b: int|
                                    0 <= a < b < store.users@.len() implies
                                    store.users@[a].id != store.users@[b].id by {
                                    let oa = if a < ii { a } else { a + 1 };
                                    let ob = if b < ii { b } else { b + 1 };
                                    assert(store.users@[a] == rids.users@[oa]);
                                    assert(store.users@[b] == rids.users@[ob]);
                                    assert(rids.users@[oa].id != rids.users@[ob].id);
                                }
                                assert forall|x: int| x != uid as int implies
                                    store.has_user(x) == rids.has_user(x) by {
                                    if rids.has_user(x) {
                                        let w = rids.user_idx(x);
                                        rids.lemma_user_found(w, x);
                                        assert(w != ii);
                                        let nw = if w < ii { w } else { w - 1 };
                                        assert(store.users@[nw] == rids.users@[w]);
                                    }
                                    if store.has_user(x) {
                                        let w = choose|k: int|
                                            0 <= k < store.users@.len()
                                                && store.users@[k].id as int == x;
                                        let ow = if w < ii { w } else { w + 1 };
                                        assert(store.users@[w] == rids.users@[ow]);
                                        assert(rids.has_user(x));
                                    }
                                }
                                assert(!store.has_user(uid as int)) by {
                                    if store.has_user(uid as int) {
                                        let w = choose|k: int|
                                            0 <= k < store.users@.len()
                                                && store.users@[k].id as int == uid as int;
                                        let ow = if w < ii { w } else { w + 1 };
                                        assert(store.users@[w] == rids.users@[ow]);
                                        rids.lemma_user_found(ow, uid as int);
                                    }
                                }
                                assert forall|k: int| 0 <= k < store.memberships@.len() implies
                                    store.has_user(
                                        (#[trigger] store.memberships@[k]).user_id as int,
                                    ) && store.has_group(
                                        store.memberships@[k].group_id as int,
                                    ) by {
                                    assert(rids.has_member(store.memberships@[k].user_id as int,
                                        store.memberships@[k].group_id as int));
                                    assert(mids.has_member(store.memberships@[k].user_id as int,
                                        store.memberships@[k].group_id as int));
                                    assert(store.memberships@[k].user_id != uid);
                                    assert(rids.has_user(store.memberships@[k].user_id as int));
                                    let wu = rids.user_idx(store.memberships@[k].user_id as int);
                                    rids.lemma_user_found(
                                        wu,
                                        store.memberships@[k].user_id as int,
                                    );
                                    assert(wu != ii);
                                    let nwu = if wu < ii { wu } else { wu - 1 };
                                    assert(store.users@[nwu] == rids.users@[wu]);
                                    assert(rids.has_group(
                                        store.memberships@[k].group_id as int,
                                    ));
                                    let wg = rids.group_idx(
                                        store.memberships@[k].group_id as int,
                                    );
                                    assert(store.groups@[wg].id as int
                                        == store.memberships@[k].group_id as int);
                                }
                                assert forall|k: int|
                                    0 <= k < store.role_assignments@.len() implies
                                    store.has_user(
                                        (#[trigger] store.role_assignments@[k]).user_id as int,
                                    ) by {
                                    rids.lemma_role_found(
                                        k,
                                        rids.role_assignments@[k].user_id as int,
                                    );
                                    assert(rids.has_role(
                                        store.role_assignments@[k].user_id as int,
                                    ));
                                    assert(store.role_assignments@[k].user_id != uid);
                                    assert(rids.has_user(
                                        store.role_assignments@[k].user_id as int,
                                    ));
                                    let wu = rids.user_idx(
                                        store.role_assignments@[k].user_id as int,
                                    );
                                    rids.lemma_user_found(
                                        wu,
                                        store.role_assignments@[k].user_id as int,
                                    );
                                    assert(wu != ii);
                                    let nwu = if wu < ii { wu } else { wu - 1 };
                                    assert(store.users@[nwu] == rids.users@[wu]);
                                }
                                assert forall|u: int| #![trigger store.has_role(u)]
                                    store.has_role(u) == rids.has_role(u) by {
                                    if rids.has_role(u) {
                                        let w = rids.role_idx(u);
                                        assert(store.role_assignments@[w].user_id as int == u);
                                    }
                                    if store.has_role(u) {
                                        let w = choose|k: int|
                                            0 <= k < store.role_assignments@.len()
                                                && (#[trigger] store.role_assignments@[k]).user_id
                                                as int == u;
                                        assert(rids.role_assignments@[w].user_id as int == u);
                                    }
                                }
                                assert forall|u: int| u != uid as int && store.has_role(u)
                                    implies #[trigger] store.role_of(u) == rids.role_of(u) by {
                                    let w = rids.role_idx(u);
                                    rids.lemma_role_found(w, u);
                                    assert(store.role_assignments@[w].user_id as int == u);
                                    store.lemma_role_found(w, u);
                                }
                                assert forall|u: int, g: int|
                                    #![trigger store.has_member(u, g)]
                                    store.has_member(u, g) == rids.has_member(u, g) by {
                                    if rids.has_member(u, g) {
                                        let w = choose|k: int|
                                            0 <= k < rids.memberships@.len()
                                                && (#[trigger] rids.memberships@[k]).user_id
                                                as int == u
                                                && rids.memberships@[k].group_id as int == g;
                                        assert(store.memberships@[w].user_id as int == u);
                                    }
                                    if store.has_member(u, g) {
                                        let w = choose|k: int|
                                            0 <= k < store.memberships@.len()
                                                && (#[trigger] store.memberships@[k]).user_id
                                                as int == u
                                                && store.memberships@[k].group_id as int == g;
                                        assert(rids.memberships@[w].user_id as int == u);
                                    }
                                }
                                assert forall|x: int| x != uid as int implies
                                    #[trigger] store.has_user(x) == olds.has_user(x) by {
                                    assert(store.has_user(x) == rids.has_user(x));
                                    assert(rids.has_user(x) == olds.has_user(x));
                                }
                            }
                            return Ok(());
                        },
                        None => {
                            return Ok(());
                        },
                    }
                },
            }
        }
    }
}

impl Store {
    /// What removing the role row at `i` leaves: every other user's role
    /// stands, the owner's is gone.
    proof fn lemma_after_remove_role(self, pre: Store, i: int, uid: int)
        requires
            pre.wf(),
            0 <= i < pre.role_assignments@.len(),
            pre.role_assignments@[i].user_id as int == uid,
            self.users == pre.users,
            self.groups == pre.groups,
            self.memberships == pre.memberships,
            self.domain_rules == pre.domain_rules,
            self.url_rules == pre.url_rules,
            self.next_user_id == pre.next_user_id,
            self.next_group_id == pre.next_group_id,
            self.next_domain_rule_id == pre.next_domain_rule_id,
            self.next_url_rule_id == pre.next_url_rule_id,
            self.role_assignments@ == pre.role_assignments@.subrange(0, i)
                + pre.role_assignments@.subrange(i + 1, pre.role_assignments@.len() as int),
        ensures
            self.wf(),
            !self.has_role(uid),
            forall|u: int| u != uid ==> self.has_role(u) == pre.has_role(u),
            forall|u: int| u != uid && pre.has_role(u) ==> self.role_of(u) == pre.role_of(u),
    {
        let n = pre.role_assignments@.len() as int;
        assert forall|a: int, b: int| 0 <= a < b < self.role_assignments@.len() implies
            self.role_assignments@[a].user_id != self.role_assignments@[b].user_id by {
            let oa = if a < i { a } else { a + 1 };
            let ob = if b < i { b } else { b + 1 };
            assert(self.role_assignments@[a] == pre.role_assignments@[oa]);
            assert(self.role_assignments@[b] == pre.role_assignments@[ob]);
            assert(pre.role_assignments@[oa].user_id != pre.role_assignments@[ob].user_id);
        }
        assert forall|k: int| 0 <= k < self.role_assignments@.len() implies
            self.has_user((#[trigger] self.role_assignments@[k]).user_id as int) by {
            let ok = if k < i { k } else { k + 1 };
            assert(self.role_assignments@[k] == pre.role_assignments@[ok]);
            assert(pre.has_user(pre.role_assignments@[ok].user_id as int));
            let wu = pre.user_idx(pre.role_assignments@[ok].user_id as int);
            assert(self.users@[wu].id as int == pre.role_assignments@[ok].user_id as int);
        }
        assert forall|k: int| 0 <= k < self.memberships@.len() implies
            self.has_user((#[trigger] self.memberships@[k]).user_id as int) && self.has_group(
                self.memberships@[k].group_id as int,
            ) by {
            assert(pre.has_user(pre.memberships@[k].user_id as int));
            let wu = pre.user_idx(pre.memberships@[k].user_id as int);
            assert(self.users@[wu].id as int == pre.memberships@[k].user_id as int);
            assert(pre.has_group(pre.memberships@[k].group_id as int));
            let wg = pre.group_idx(pre.memberships@[k].group_id as int);
            assert(self.groups@[wg].id as int == pre.memberships@[k].group_id as int);
        }
        assert(!self.has_role(uid)) by {
            if self.has_role(uid) {
                let w = self.role_idx(uid);
                self.lemma_role_found(w, uid);
                let ow = if w < i { w } else { w + 1 };
                assert(self.role_assignments@[w] == pre.role_assignments@[ow]);
                if ow != i {
                    pre.lemma_role_found(i, uid);
                    pre.lemma_role_found(ow, uid);
                }
            }
        }
        assert forall|u: int| u != uid implies self.has_role(u) == pre.has_role(u) by {
            if pre.has_role(u) {
                let w = pre.role_idx(u);
                pre.lemma_role_found(w, u);
                assert(w != i);
                let nw = if w < i { w } else { w - 1 };
                assert(self.role_assignments@[nw] == pre.role_assignments@[w]);
                assert(self.has_role(u));
            }
            if self.has_role(u) {
                let w = self.role_idx(u);
                self.lemma_role_found(w, u);
                let ow = if w < i { w } else { w + 1 };
                assert(self.role_assignments@[w] == pre.role_assignments@[ow]);
                assert(pre.has_role(u));
            }
        }
        assert forall|u: int| u != uid && pre.has_role(u) implies self.role_of(u) == pre.role_of(
            u,
        ) by {
            let w = pre.role_idx(u);
            pre.lemma_role_found(w, u);
            assert(w != i);
            let nw = if w < i { w } else { w - 1 };
            assert(self.role_assignments@[nw] == pre.role_assignments@[w]);
            self.lemma_role_found(nw, u);
        }
    }
}

} // verus!