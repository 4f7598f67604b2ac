//! The request-processing stages: credential extraction, authentication
//! with lazy rotation, role gates, the forward-auth decision, session
//! issue and teardown, and account-level operations composed from them.

use vstd::prelude::*;

use crate::errors::ApiError;
use crate::jwt::{spec_token, spec_validate, JWTInternal, KeySet, TOKEN_LIFETIME};
use crate::models::{Claims, Group, GroupUser, NewUser, RoleUser, SafeUser, User,
    UserDataResponsePayload};
use crate::origin::{decide_origin_access, spec_origin_decision};
use crate::registry::TokenRegistry;
use crate::roles::Role;
use crate::stores::{find_login, Store};
use crate::strutil::str_eq;
use crate::trusted::{bcrypt_hash_wf, bcrypt_matches, ed_signing_ok};

verus! {

/// The bearer credential inside an authorization header value: the text
/// after a seven-character `Bearer ` or `bearer ` prefix.
pub open spec fn bearer_of(h: Seq<char>) -> Option<Seq<char>> {
    if h.len() >= 7 && (h.take(7) == "Bearer "@ || h.take(7) == "bearer "@) {
        Some(h.skip(7))
    } else {
        None
    }
}

/// Extracts the bearer credential from an authorization header value.
pub fn bearer_token(header: &str) -> (r: Option<String>)
    ensures
        match r {
            Some(t) => bearer_of(header@) == Some(t@),
            None => bearer_of(header@) is None,
        },
{
    let n = header.unicode_len();
    if n < 7 {
        return None;
    }
    let prefix = header.substring_char(0, 7);
    if str_eq(prefix, "Bearer ") || str_eq(prefix, "bearer ") {
        let rest = header.substring_char(7, n);
        proof {
            assert(header@.take(7) =~= header@.subrange(0, 7));
            assert(header@.skip(7) =~= header@.subrange(7, header@.len() as int));
        }
        Some(String::from_str(rest))
    } else {
        proof {
            assert(header@.take(7) =~= header@.subrange(0, 7));
        }
        None
    }
}

/// What the authenticate stage hands downstream: the token to carry on
/// with, and whether it replaced the presented one.
pub struct AuthOutcome {
    pub token: JWTInternal,
    pub rotated: bool,
}

/// The authenticate stage. The presented token is validated against the
/// registry and the keys; a stale token is transparently rotated: a
/// replacement is minted from the user's current role and groups under a
/// fresh id, registered, and the old id revoked. A fresh token is
/// re-signed unchanged. Every validation failure is the one credential
/// error, and every failure leaves the registry as it was.
pub fn authenticate(
    store: &Store,
    reg: &mut TokenRegistry,
    raw_token: &str,
    key: &KeySet,
    now: i64,
) -> (r: Result<AuthOutcome, ApiError>)
    requires
        store.wf(),
        old(reg).wf(),
        key.wf(),
    ensures
        final(reg).wf(),
        r is Err ==> *final(reg) == *old(reg),
        match spec_validate(*old(reg), key.decoding@, raw_token@, now as int) {
            None => r == Err::<AuthOutcome, ApiError>(ApiError::Jwt),
            Some(cv) => {
                &&& (r == Err::<AuthOutcome, ApiError>(ApiError::Role)) <==> (old(
                    reg,
                ).flagged(cv.jti) && !store.has_role(cv.user.id))
                &&& !old(reg).flagged(cv.jti) ==> ((r is Ok) == ed_signing_ok(key.encoding@))
                &&& match r {
                    Ok(o) => {
                        &&& o.rotated == old(reg).flagged(cv.jti)
                        &&& ed_signing_ok(key.encoding@)
                        &&& o.token.token@ == spec_token(o.token.claims@, key.encoding@)
                        &&& !o.rotated ==> o.token.claims@ == cv && *final(reg) == *old(reg)
                        &&& o.rotated ==> {
                            &&& store.has_role(cv.user.id)
                            &&& o.token.claims.role == store.role_of(cv.user.id)
                            &&& o.token.claims@.groups == store.member_groups(
                                cv.user.id,
                            ).map_values(|g: Group| g@)
                            &&& o.token.claims.user@ == cv.user
                            &&& o.token.claims.exp == now + TOKEN_LIFETIME
                            &&& o.token.claims.jti@ != cv.jti
                            &&& !final(reg).contains_jti(cv.jti)
                            &&& final(reg).contains_jti(o.token.claims.jti@)
                            &&& !final(reg).flagged(o.token.claims.jti@)
                            &&& forall|x: Seq<char>| x != cv.jti && x != o.token.claims.jti@ ==>
                                final(reg).contains_jti(x) == old(reg).contains_jti(x)
                        }
                    },
                    Err(e) => e == ApiError::Role || e == ApiError::Internal,
                }
            },
        },
{
    let claims = match JWTInternal::validate_jwt(reg, raw_token, key, now) {
        Ok(c) => c,
        Err(e) => {
            return Err(e);
        },
    };
    let needs = match JWTInternal::needs_refresh(reg, &claims) {
        Ok(b) => b,
        Err(e) => {
            return Err(e);
        },
    };
    if needs {
        let role = match RoleUser::roles_from_user(store, &claims.user) {
            Ok(role) => role,
            Err(e) => {
                return Err(e);
            },
        };
        let groups = match User::get_groups(store, &claims.user) {
            Ok(gs) => gs,
            Err(e) => {
                return Err(e);
            },
        };
        proof {
            assert(groups@.map_values(|g: Group| g@) =~= store.member_groups(
                claims.user.id as int,
            ).map_values(|g: Group| g@));
        }
        match JWTInternal::refresh(reg, &claims.user, role, groups, claims.jti.as_str(), key, now)
        {
            Ok(t) => Ok(AuthOutcome { token: t, rotated: true }),
            Err(e) => Err(e),
        }
    } else {
        match JWTInternal::from(&claims, key) {
            Ok(token) => Ok(AuthOutcome { token, rotated: false }),
            Err(e) => Err(e),
        }
    }
}

/// The role gate: the caller must hold strictly more authority than the
/// plain `user` role. A missing claims attachment means the stage ran
/// without the authenticate stage before it — unexpected missing
/// context, an internal fault.
pub fn require_super_user(claims: Option<&Claims>) -> (r: Result<(), ApiError>)
    ensures
        r == (match claims {
            None => Err::<(), ApiError>(ApiError::Internal),
            Some(c) => if c.role.rank() < Role::User.rank() {
                Ok::<(), ApiError>(())
            } else {
                Err::<(), ApiError>(ApiError::Jwt)
            },
        }),
{
    match claims {
        None => Err(ApiError::Internal),
        Some(c) => {
            let is_super = match Role::superior_to(&c.role, &Role::User) {
                Ok(b) => b,
                Err(e) => {
                    return Err(e);
                },
            };
            if is_super {
                Ok(())
            } else {
                Err(ApiError::Jwt)
            }
        },
    }
}

/// The self-or-role gate: the route's target user may act on itself, and
/// so may anyone above the plain `user` role. A missing claims
/// attachment or an unresolved target is unexpected missing context, an
/// internal fault.
pub fn require_target_user_or_super_user(claims: Option<&Claims>, target: Option<i32>) -> (r:
    Result<(), ApiError>)
    ensures
        r == (match claims {
            None => Err::<(), ApiError>(ApiError::Internal),
            Some(c) => match target {
                None => Err::<(), ApiError>(ApiError::Internal),
                Some(t) => if c.role.rank() < Role::User.rank() || c.user.id == t {
                    Ok::<(), ApiError>(())
                } else {
                    Err::<(), ApiError>(ApiError::Jwt)
                },
            },
        }),
{
    let c = match claims {
        None => {
            return Err(ApiError::Internal);
        },
        Some(c) => c,
    };
    let t = match target {
        None => {
            return Err(ApiError::Internal);
        },
        Some(t) => t,
    };
    let is_super = match Role::superior_to(&c.role, &Role::User) {
        Ok(b) => b,
        Err(e) => {
            return Err(e);
        },
    };
    if is_super || c.user.id == t {
        Ok(())
    } else {
        Err(ApiError::Jwt)
    }
}

/// The forward-auth decision for an authenticated caller: its role and
/// the groups its claims carry, against the rule tables.
pub fn has_access_decision(store: &Store, claims: &Claims, origin: &str) -> (r: Result<
    (),
    ApiError,
>)
    ensures
        r == spec_origin_decision(
            claims.role,
            claims.groups@.map_values(|g: Group| g.id),
            origin@,
            store.domain_rules@.map_values(|x: crate::models::DomainRule| x@),
            store.url_rules@.map_values(|x: crate::models::URLRule| x@),
        ),
{
    let mut ids: Vec<i32> = Vec::new();
    let n = claims.groups.len();
    let mut i: usize = 0;
    while i < n
        invariant
            n == claims.groups@.len(),
            i <= n,
            ids@.len() == i,
            forall|k: int| 0 <= k < i ==> ids@[k] == claims.groups@[k].id,
        decreases n - i,
    {
        ids.push(claims.groups[i].id);
        i += 1;
    }
    proof {
        assert(ids@ =~= claims.groups@.map_values(|g: Group| g.id));
    }
    decide_origin_access(claims.role, &ids, origin, &store.domain_rules, &store.url_rules)
}

/// Session issue, as the login route performed it: look the user up by
/// login and password, mint and sign a token from its current role and
/// groups with expiry seven days past `now`, and register it as live.
/// Each refusal is pinned to its cause; the one unpromised success is
/// the freshly drawn token id colliding with a live one, which only the
/// registry's uniqueness fault can answer.
pub fn issue_session(
    store: &Store,
    reg: &mut TokenRegistry,
    login: &str,
    password: &str,
    key: &KeySet,
    now: i64,
) -> (r: Result<JWTInternal, ApiError>)
    requires
        store.wf(),
        old(reg).wf(),
    ensures
        final(reg).wf(),
        r is Err ==> *final(reg) == *old(reg),
        match find_login(store.users@, login@, 0) {
            None => r == Err::<JWTInternal, ApiError>(ApiError::User),
            Some(i) => {
                &&& !bcrypt_hash_wf(store.users@[i].hash@) ==> r == Err::<
                    JWTInternal,
                    ApiError,
                >(ApiError::Internal)
                &&& bcrypt_hash_wf(store.users@[i].hash@) && !bcrypt_matches(
                    password@,
                    store.users@[i].hash@,
                ) ==> r == Err::<JWTInternal, ApiError>(ApiError::User)
                &&& bcrypt_hash_wf(store.users@[i].hash@) && bcrypt_matches(
                    password@,
                    store.users@[i].hash@,
                ) && !store.has_role(store.users@[i].id as int) ==> r == Err::<
                    JWTInternal,
                    ApiError,
                >(ApiError::Role)
                &&& bcrypt_hash_wf(store.users@[i].hash@) && bcrypt_matches(
                    password@,
                    store.users@[i].hash@,
                ) && store.has_role(store.users@[i].id as int) && !(ed_signing_ok(key.encoding@)
                    && now + TOKEN_LIFETIME <= i64::MAX) ==> r == Err::<JWTInternal, ApiError>(
                    ApiError::Internal,
                )
                &&& match r {
                    Ok(j) => {
                        &&& j.claims.user@ == store.users@[i]@
                        &&& bcrypt_matches(password@, j.claims.user.hash@)
                        &&& store.has_role(j.claims.user.id as int)
                        &&& j.claims.role == store.role_of(j.claims.user.id as int)
                        &&& j.claims@.groups == store.member_groups(
                            j.claims.user.id as int,
                        ).map_values(|g: Group| g@)
                        &&& j.claims.exp == now + TOKEN_LIFETIME
                        &&& j.token@ == spec_token(j.claims@, key.encoding@)
                        &&& final(reg).contains_jti(j.claims.jti@)
                        &&& !final(reg).flagged(j.claims.jti@)
                        &&& forall|x: Seq<char>| x != j.claims.jti@ ==>
                            final(reg).contains_jti(x) == old(reg).contains_jti(x)
                    },
                    Err(e) => e == ApiError::User || e == ApiError::Internal
                        || e == ApiError::Role,
                }
            },
        },
{
    let user = match User::lookup(store, login, password) {
        Ok(u) => u,
        Err(e) => {
            return Err(e);
        },
    };
    let role = match RoleUser::roles_from_user(store, &user) {
        Ok(role) => role,
        Err(e) => {
            return Err(e);
        },
    };
    let groups = match User::get_groups(store, &user) {
        Ok(gs) => gs,
        Err(e) => {
            return Err(e);
        },
    };
    proof {
        assert(groups@.map_values(|g: Group| g@) =~= store.member_groups(
            user.id as int,
        ).map_values(|g: Group| g@));
    }
    let new_jwt = match JWTInternal::create(&user, role, groups, key, now) {
        Ok(j) => j,
        Err(e) => {
            return Err(e);
        },
    };
    match JWTInternal::register(reg, &new_jwt) {
        Ok(()) => Ok(new_jwt),
        Err(e) => Err(e),
    }
}

/// Session teardown, as the logout route performed it: the presented
/// token must still validate, then its id is revoked; a failing
/// validation surfaced as an internal fault there.
pub fn logout_session(
    reg: &mut TokenRegistry,
    raw_token: &str,
    key: &KeySet,
    now: i64,
) -> (r: Result<(), ApiError>)
    requires
        old(reg).wf(),
        key.wf(),
    ensures
        final(reg).wf(),
        match spec_validate(*old(reg), key.decoding@, raw_token@, now as int) {
            None => r == Err::<(), ApiError>(ApiError::Internal) && *final(reg) == *old(reg),
            Some(cv) => {
                &&& r == Ok::<(), ApiError>(())
                &&& !final(reg).contains_jti(cv.jti)
                &&& forall|x: Seq<char>| x != cv.jti ==>
                    final(reg).contains_jti(x) == old(reg).contains_jti(x)
            },
        },
{
    let claims = match JWTInternal::validate_jwt(reg, raw_token, key, now) {
        Ok(c) => c,
        Err(_) => {
            return Err(ApiError::Internal);
        },
    };
    match JWTInternal::delete(reg, claims.jti.as_str()) {
        Ok(()) => Ok(()),
        Err(e) => Err(e),
    }
}

/// Whether a presented token authenticates at all.
pub fn is_auth(reg: &TokenRegistry, raw_token: &str, key: &KeySet, now: i64) -> (r: Result<
    (),
    ApiError,
>)
    requires
        reg.wf(),
        key.wf(),
    ensures
        match spec_validate(*reg, key.decoding@, raw_token@, now as int) {
            None => r == Err::<(), ApiError>(ApiError::Jwt),
            Some(cv) => r == Ok::<(), ApiError>(()),
        },
{
    match JWTInternal::validate_jwt(reg, raw_token, key, now) {
        Ok(_) => Ok(()),
        Err(e) => Err(e),
    }
}

/// Account deletion, as the user route performed it: the top role can
/// never be deleted through this path; any other account loses every
/// live token, membership and role row, then the row itself.
pub fn delete_user_account(store: &mut Store, reg: &mut TokenRegistry, uid: i32) -> (r: Result<
    (),
    ApiError,
>)
    requires
        old(store).wf(),
        old(reg).wf(),
    ensures
        final(store).wf(),
        final(reg).wf(),
        !old(store).has_user(uid as int) ==> r == Err::<(), ApiError>(ApiError::UserNotFound)
            && *final(store) == *old(store) && *final(reg) == *old(reg),
        old(store).has_user(uid as int) && !old(store).has_role(uid as int) ==> r == Err::<
            (),
            ApiError,
        >(ApiError::Role) && *final(store) == *old(store) && *final(reg) == *old(reg),
        old(store).has_user(uid as int) && old(store).has_role(uid as int) && old(
            store,
        ).role_of(uid as int) == Role::Root ==> r == Err::<(), ApiError>(ApiError::CantDeleteRoot)
            && *final(store) == *old(store) && *final(reg) == *old(reg),
        old(store).has_user(uid as int) && old(store).has_role(uid as int) && old(
            store,
        ).role_of(uid as int) != Role::Root ==> {
            &&& r == Ok::<(), ApiError>(())
            &&& !final(store).has_user(uid as int)
            &&& forall|u: int, g: int| final(store).has_member(u, g) == (old(
                store,
            ).has_member(u, g) && u != uid as int)
            &&& forall|u: int| final(store).has_role(u) == (old(store).has_role(u)
                && u != uid as int)
            &&& forall|x: Seq<char>| final(reg).contains_jti(x) == (old(reg).contains_jti(x)
                && old(reg).owner_of(x) != uid as int)
        },
{
    let user = match User::get(store, uid) {
        Ok(u) => u,
        Err(e) => {
            return Err(e);
        },
    };
    let role = match RoleUser::roles_from_user(store, &user) {
        Ok(role) => role,
        Err(e) => {
            return Err(e);
        },
    };
    if role == Role::Root {
        return Err(ApiError::CantDeleteRoot);
    }
    match JWTInternal::invalidate_user(reg, &user) {
        Ok(()) => {},
        Err(e) => {
            return Err(e);
        },
    }
    match User::delete_user(store, reg, &user) {
        Ok(()) => {},
        Err(e) => {
            return Err(e);
        },
    }
    Ok(())
}

/// Profile update, as the user route performed it: a fresh login is
/// taken as given; fresh password material must be at least four bytes
/// and is stored as a bcrypt hash. Updating a missing account is the
/// not-found error.
pub fn update_user_profile(
    store: &mut Store,
    uid: i32,
    new_login: Option<&str>,
    new_hash: Option<&str>,
) -> (r: Result<(), ApiError>)
    requires
        old(store).wf(),
    ensures
        final(store).wf(),
        !old(store).has_user(uid as int) ==> r == Err::<(), ApiError>(ApiError::UserNotFound)
            && *final(store) == *old(store),
        match r {
            Ok(()) => {
                &&& old(store).has_user(uid as int)
                &&& final(store).users@[old(store).user_idx(uid as int)].id == uid
                &&& final(store).users@[old(store).user_idx(uid as int)].login@ == (
                match new_login {
                    Some(l) => l@,
                    None => old(store).user_view(uid as int).login,
                })
                &&& match new_hash {
                    Some(h) => bcrypt_matches(
                        h@,
                        final(store).users@[old(store).user_idx(uid as int)].hash@,
                    ),
                    None => final(store).users@[old(store).user_idx(uid as int)].hash@ == old(
                        store,
                    ).user_view(uid as int).hash,
                }
                &&& forall|k: int| 0 <= k < old(store).users@.len()
                    && k != old(store).user_idx(uid as int)
                    ==> final(store).users@[k] == old(store).users@[k]
                &&& final(store).groups == old(store).groups
                &&& final(store).memberships == old(store).memberships
                &&& final(store).role_assignments == old(store).role_assignments
            },
            Err(e) => {
                &&& *final(store) == *old(store)
                &&& (e == ApiError::UserNotFound || e == ApiError::User
                    || e == ApiError::Internal)
                &&& e == ApiError::UserNotFound <==> !old(store).has_user(uid as int)
                &&& e == ApiError::User <==> old(store).has_user(uid as int) && (
                match new_hash {
                    Some(h) => vstd::utf8::encode_utf8(h@).len() < 4,
                    None => false,
                })
            },
        },
        old(store).has_user(uid as int) && new_hash is None ==> r is Ok,
{
    let user = match User::get(store, uid) {
        Ok(u) => u,
        Err(e) => {
            return Err(e);
        },
    };
    let login = match new_login {
        Some(l) => String::from_str(l),
        None => user.login,
    };
    let hash = match new_hash {
        Some(h) => {
            if h.as_bytes().len() < 4 {
                return Err(ApiError::User);
            }
            match crate::trusted::password_hash(h, crate::stores::HASH_COST) {
                Some(stored) => stored,
                None => {
                    return Err(ApiError::Internal);
                },
            }
        },
        None => user.hash,
    };
    let updated = User { id: uid, login, hash };
    match User::update_user(store, &updated) {
        Ok(()) => Ok(()),
        Err(e) => Err(e),
    }
}

/// Signup, as the user route composed it: create the account, then put
/// it into the distinguished public group (id 1), which every new user
/// is assigned to by convention. The fresh account has no live tokens,
/// so the membership's rotation flagging touches nothing of its own.
pub fn signup(store: &mut Store, reg: &mut TokenRegistry, u: &NewUser) -> (r: Result<
    User,
    ApiError,
>)
    requires
        old(store).wf(),
        old(reg).wf(),
    ensures
        final(store).wf(),
        final(reg).wf(),
        r is Err ==> *final(reg) == *old(reg),
        vstd::utf8::encode_utf8(u.hash@).len() < 4 ==> r == Err::<User, ApiError>(ApiError::User)
            && *final(store) == *old(store),
        match r {
            Ok(user) => {
                &&& user.id == old(store).next_user_id
                &&& user.login@ == u.login@
                &&& bcrypt_matches(u.hash@, user.hash@)
                &&& old(store).has_group(1)
                &&& final(store).has_user(user.id as int)
                &&& final(store).has_role(user.id as int)
                &&& final(store).role_of(user.id as int) == Role::User
                &&& final(store).has_member(user.id as int, 1)
                &&& forall|x: Seq<char>|
                    final(reg).contains_jti(x) == old(reg).contains_jti(x)
            },
            Err(e) => {
                &&& (e == ApiError::User || e == ApiError::UserCreation
                    || e == ApiError::Internal || e == ApiError::Group)
                &&& e == ApiError::Group <==> (vstd::utf8::encode_utf8(u.hash@).len() >= 4
                    && !old(store).has_group(1) && final(store).has_user(
                    old(store).next_user_id as int,
                ))
            },
        },
{
    let user = match User::create(store, u) {
        Ok(user) => user,
        Err(e) => {
            return Err(e);
        },
    };
    let ghost mids = *store;
    proof {
        assert(!mids.has_member(user.id as int, 1)) by {
            if mids.has_member(user.id as int, 1) {
                let w = choose|k: int|
                    0 <= k < mids.memberships@.len()
                        && (#[trigger] mids.memberships@[k]).user_id as int == user.id as int
                        && mids.memberships@[k].group_id as int == 1;
                assert(old(store).has_user(old(store).memberships@[w].user_id as int));
                let wu = old(store).user_idx(old(store).memberships@[w].user_id as int);
                assert(old(store).users@[wu].id < old(store).next_user_id);
            }
        }
        assert(mids.has_group(1) == old(store).has_group(1)) by {
            if old(store).has_group(1) {
                let w = old(store).group_idx(1);
                assert(mids.groups@[w].id as int == 1);
            }
            if mids.has_group(1) {
                let w = mids.group_idx(1);
                assert(old(store).groups@[w].id as int == 1);
            }
        }
    }
    let public_group = match Group::read_by_id(store, 1) {
        Ok(g) => g,
        Err(_) => {
            return Err(ApiError::Group);
        },
    };
    match GroupUser::add_user_to_group(store, reg, &user, &public_group) {
        Ok(()) => {
            proof {
                assert(store.has_user(user.id as int)) by {
                    assert(mids.has_user(user.id as int));
                    let w = mids.user_idx(user.id as int);
                    mids.lemma_user_found(w, user.id as int);
                    assert(store.users@[w].id as int == user.id as int);
                }
                assert(store.has_role(user.id as int) && store.role_of(user.id as int)
                    == Role::User) by {
                    assert(mids.has_role(user.id as int));
                    let w = mids.role_idx(user.id as int);
                    mids.lemma_role_found(w, user.id as int);
                    assert(store.role_assignments@[w].user_id as int == user.id as int);
                    store.lemma_role_found(w, user.id as int);
                }
            }
            Ok(user)
        },
        Err(e) => Err(e),
    }
}

/// The role a caller without any credential is treated under.
pub fn visitor_role() -> (r: Role)
    ensures
        r == Role::Visitor,
{
    Role::Visitor
}

/// Account deletion locks the user out: once every live token of the
/// user is gone from the registry — the shape `delete_user_account`
/// leaves — no token that was live for that user validates any more,
/// whatever time remains on it.
pub proof fn lemma_deleted_users_token_rejected(
    before: TokenRegistry,
    after: TokenRegistry,
    pub_key: Seq<u8>,
    t: Seq<char>,
    now: int,
    uid: int,
)
    requires
        forall|x: Seq<char>| after.contains_jti(x) == (before.contains_jti(x)
            && before.owner_of(x) != uid),
    ensures
        match spec_validate(after, pub_key, t, now) {
            Some(cv) => !(before.contains_jti(cv.jti) && before.owner_of(cv.jti) == uid),
            None => true,
        },
{
    if spec_validate(after, pub_key, t, now) is Some {
        let cv = spec_validate(after, pub_key, t, now)->Some_0;
        assert(after.contains_jti(cv.jti));
    }
}

/// What a caller is told about itself, from its resolved claims.
pub fn user_data_payload(claims: &Claims) -> (r: UserDataResponsePayload)
    ensures
        r.user.id == claims.user.id,
        r.user.login@ == claims.user.login@,
        r.role == claims.role,
        r.groups@.map_values(|g: Group| g@) == claims.groups@.map_values(|g: Group| g@),
{
    let u = claims.user.clone();
    UserDataResponsePayload {
        user: SafeUser::from(u),
        role: claims.role,
        groups: crate::models::clone_groups(&claims.groups),
    }
}

/// The default group an unauthenticated caller is treated under.
pub fn public_group() -> (g: Group)
    ensures
        g.id == 1,
        g.name@ == "public"@,
{
    Group { id: 1, name: String::from_str("public") }
}

/// The page fragment served after a browser-driven login or logout.
pub fn add_close_window_js_script_to_response() -> (r: String)
    ensures
        r@ == "\n    you can now close this window.\n    <script>\n    window.close();\n    </script>\n    "@,
{
    String::from_str(
        "\n    you can now close this window.\n    <script>\n    window.close();\n    </script>\n    ",
    )
}

} // verus!
