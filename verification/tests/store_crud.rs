use domain_auth::errors::ApiError;
use domain_auth::models::{DomainRule, Group, GroupUser, NewDomainRule, NewGroup, NewGroupUser,
    NewURLRule, NewUser, RoleUser, SafeUser, URLRule, User};
use domain_auth::pipeline::{bearer_token, public_group, require_super_user,
    require_target_user_or_super_user, user_data_payload,
    add_close_window_js_script_to_response};
use domain_auth::registry::TokenRegistry;
use domain_auth::roles::Role;
use domain_auth::stores::Store;

fn store_with_users() -> (Store, User, User) {
    let mut store = Store::new();
    let a = User::create(&mut store, &NewUser { login: "a".to_string(), hash: "aaaa".to_string() })
        .unwrap();
    let b = User::create(&mut store, &NewUser { login: "b".to_string(), hash: "bbbb".to_string() })
        .unwrap();
    (store, a, b)
}

#[test]
fn user_crud() {
    let (mut store, a, b) = store_with_users();
    assert_eq!(a.id, 1);
    assert_eq!(b.id, 2);
    assert_eq!(User::get_all(&store).unwrap().len(), 2);
    assert_eq!(User::get(&store, a.id).unwrap().login, "a");
    assert_eq!(User::get(&store, 77), Err(ApiError::UserNotFound));
    let renamed = User { id: a.id, login: "ada".to_string(), hash: a.hash.clone() };
    assert_eq!(User::update_user(&mut store, &renamed), Ok(()));
    assert_eq!(User::get(&store, a.id).unwrap().login, "ada");
}

#[test]
fn default_role_is_user_and_duplicates_are_refused() {
    let (mut store, a, _) = store_with_users();
    assert_eq!(RoleUser::roles_from_user(&store, &a), Ok(Role::User));
    assert_eq!(RoleUser::add_role_to_user(&mut store, &a, &Role::Super), Err(ApiError::Role));
    let ghost_user = User { id: 99, login: "x".to_string(), hash: "y".to_string() };
    assert_eq!(RoleUser::roles_from_user(&store, &ghost_user), Err(ApiError::Role));
    assert_eq!(
        RoleUser::add_role_to_user(&mut store, &ghost_user, &Role::User),
        Err(ApiError::Role)
    );
}

#[test]
fn group_membership_lifecycle() {
    let (mut store, a, b) = store_with_users();
    let mut reg = TokenRegistry::new();
    let g = Group::create_group(&mut store, &NewGroup { name: "g".to_string() }).unwrap();
    assert_eq!(Group::read_all(&store).unwrap().len(), 1);
    assert_eq!(Group::read_by_id(&store, g.id).unwrap().name, "g");
    assert_eq!(Group::read_by_id(&store, 55), Err(ApiError::Group));

    assert_eq!(GroupUser::add_user_to_group(&mut store, &mut reg, &a, &g), Ok(()));
    // duplicate membership is the group error
    assert_eq!(GroupUser::add_user_to_group(&mut store, &mut reg, &a, &g), Err(ApiError::Group));
    assert_eq!(GroupUser::add_user_to_group(&mut store, &mut reg, &b, &g), Ok(()));
    assert_eq!(Group::users_from_group(&store, &g).unwrap().len(), 2);
    assert_eq!(User::get_groups(&store, &a).unwrap(), vec![g.clone()]);

    assert_eq!(GroupUser::remove_user_from_group(&mut store, &mut reg, &a, &g), Ok(()));
    assert_eq!(
        GroupUser::remove_user_from_group(&mut store, &mut reg, &a, &g),
        Err(ApiError::Group)
    );
    assert_eq!(Group::users_from_group(&store, &g).unwrap().len(), 1);

    // deleting the group removes the remaining memberships
    assert_eq!(Group::delete_group(&mut store, &mut reg, &g), Ok(()));
    assert_eq!(Group::read_by_id(&store, g.id), Err(ApiError::Group));
    assert_eq!(User::get_groups(&store, &b).unwrap().len(), 0);
}

#[test]
fn group_update_and_creation_fault() {
    let (mut store, _, _) = store_with_users();
    let g = Group::create_group(&mut store, &NewGroup { name: "old".to_string() }).unwrap();
    let renamed = Group { id: g.id, name: "new".to_string() };
    assert_eq!(Group::update_group(&mut store, &renamed), Ok(()));
    assert_eq!(Group::read_by_id(&store, g.id).unwrap().name, "new");
    store.next_group_id = i32::MAX;
    let r = Group::create_group(&mut store, &NewGroup { name: "overflow".to_string() });
    assert_eq!(r.unwrap_err(), ApiError::GroupCreation);
}

#[test]
fn user_creation_fault_at_exhausted_ids() {
    let mut store = Store::new();
    store.next_user_id = i32::MAX;
    let r = User::create(&mut store, &NewUser { login: "x".to_string(), hash: "longenough".to_string() });
    assert_eq!(r.unwrap_err(), ApiError::UserCreation);
}

#[test]
fn rule_crud_and_queries() {
    let (mut store, a, _) = store_with_users();
    let mut reg = TokenRegistry::new();
    let g1 = Group::create_group(&mut store, &NewGroup { name: "g1".to_string() }).unwrap();
    let g2 = Group::create_group(&mut store, &NewGroup { name: "g2".to_string() }).unwrap();
    GroupUser::add_user_to_group(&mut store, &mut reg, &a, &g2).unwrap();

    let d1 = DomainRule::create(
        &mut store,
        &NewDomainRule { domain: "*.example.com".to_string(), group_id: g1.id },
    )
    .unwrap();
    let d2 = DomainRule::create(
        &mut store,
        &NewDomainRule { domain: "host.test".to_string(), group_id: g2.id },
    )
    .unwrap();
    assert_eq!(DomainRule::get_all(&store).unwrap().len(), 2);
    assert_eq!(DomainRule::get(&store, d1.id).unwrap().domain, "*.example.com");
    assert_eq!(DomainRule::get(&store, 99), Err(ApiError::Internal));
    assert_eq!(DomainRule::for_domain(&store, "host.test").unwrap(), vec![d2.clone()]);
    assert_eq!(DomainRule::for_group(&store, &g2).unwrap(), vec![d2.clone()]);
    assert_eq!(DomainRule::for_user(&store, &a).unwrap(), vec![d2.clone()]);
    assert_eq!(DomainRule::delete(&mut store, d1.id), Ok(()));
    assert_eq!(DomainRule::delete(&mut store, d1.id), Ok(()));
    assert_eq!(DomainRule::get_all(&store).unwrap().len(), 1);

    let u1 = URLRule::create(
        &mut store,
        &NewURLRule { url: "https://a.example/%".to_string(), group_id: g2.id },
    )
    .unwrap();
    assert_eq!(URLRule::get_all(&store).unwrap().len(), 1);
    assert_eq!(URLRule::get(&store, u1.id).unwrap().url, "https://a.example/%");
    assert_eq!(URLRule::get(&store, 99), Err(ApiError::Internal));
    assert_eq!(URLRule::for_url(&store, "https://a.example/%").unwrap(), vec![u1.clone()]);
    assert_eq!(URLRule::for_group(&store, &g2).unwrap(), vec![u1.clone()]);
    assert_eq!(URLRule::for_user(&store, &a).unwrap(), vec![u1.clone()]);
    assert_eq!(URLRule::delete(&mut store, u1.id), Ok(()));
    assert_eq!(URLRule::get_all(&store).unwrap().len(), 0);
}

#[test]
fn bearer_extraction() {
    assert_eq!(bearer_token("Bearer abc.def"), Some("abc.def".to_string()));
    assert_eq!(bearer_token("bearer abc"), Some("abc".to_string()));
    assert_eq!(bearer_token("Basic abc"), None);
    assert_eq!(bearer_token("Bearer"), None);
    assert_eq!(bearer_token(""), None);
    assert_eq!(bearer_token("Bearer "), Some(String::new()));
}

#[test]
fn role_gates() {
    let claims = |role: Role| domain_auth::models::Claims {
        company: "I.K.E".to_string(),
        exp: 0,
        jti: "j".to_string(),
        user: User { id: 5, login: "u".to_string(), hash: "h".to_string() },
        role,
        groups: vec![],
    };
    assert_eq!(require_super_user(None), Err(ApiError::Internal));
    assert_eq!(require_super_user(Some(&claims(Role::Root))), Ok(()));
    assert_eq!(require_super_user(Some(&claims(Role::Super))), Ok(()));
    assert_eq!(require_super_user(Some(&claims(Role::User))), Err(ApiError::Jwt));
    assert_eq!(require_super_user(Some(&claims(Role::Visitor))), Err(ApiError::Jwt));

    let c = claims(Role::User);
    assert_eq!(require_target_user_or_super_user(None, Some(5)), Err(ApiError::Internal));
    assert_eq!(require_target_user_or_super_user(Some(&c), None), Err(ApiError::Internal));
    assert_eq!(require_target_user_or_super_user(Some(&c), Some(5)), Ok(()));
    assert_eq!(require_target_user_or_super_user(Some(&c), Some(6)), Err(ApiError::Jwt));
    let s = claims(Role::Super);
    assert_eq!(require_target_user_or_super_user(Some(&s), Some(6)), Ok(()));
}

#[test]
fn payloads_and_fragments() {
    let g = public_group();
    assert_eq!(g.id, 1);
    assert_eq!(g.name, "public");

    let c = domain_auth::models::Claims {
        company: "I.K.E".to_string(),
        exp: 0,
        jti: "j".to_string(),
        user: User { id: 5, login: "u".to_string(), hash: "secret-hash".to_string() },
        role: Role::Super,
        groups: vec![Group { id: 1, name: "public".to_string() }],
    };
    let payload = user_data_payload(&c);
    assert_eq!(payload.user, SafeUser { id: 5, login: "u".to_string() });
    assert_eq!(payload.role, Role::Super);
    assert_eq!(payload.groups, c.groups);

    assert!(add_close_window_js_script_to_response().contains("window.close()"));

    let su: SafeUser = c.user.clone().into();
    assert_eq!(su.id, 5);
    assert_eq!(su.login, "u");
    let _ = NewGroupUser { group_id: 1, user_id: 5 };
}

#[test]
fn profile_update_changes_login_and_rehashes_password() {
    let (mut store, a, _) = store_with_users();
    assert_eq!(
        domain_auth::pipeline::update_user_profile(&mut store, a.id, Some("ada"), None),
        Ok(())
    );
    assert_eq!(User::get(&store, a.id).unwrap().login, "ada");
    // password material shorter than four bytes is refused
    assert_eq!(
        domain_auth::pipeline::update_user_profile(&mut store, a.id, None, Some("abc")),
        Err(ApiError::User)
    );
    assert_eq!(
        domain_auth::pipeline::update_user_profile(&mut store, a.id, None, Some("new password")),
        Ok(())
    );
    // a missing account reports not-found
    assert_eq!(
        domain_auth::pipeline::update_user_profile(&mut store, 404, Some("x"), None),
        Err(ApiError::UserNotFound)
    );
}

#[test]
fn signup_assigns_the_public_group() {
    let mut store = Store::new();
    let mut reg = TokenRegistry::new();
    // without the public group the account is created but the membership fails
    let r = domain_auth::pipeline::signup(
        &mut store,
        &mut reg,
        &NewUser { login: "early".to_string(), hash: "longenough".to_string() },
    );
    assert_eq!(r.unwrap_err(), ApiError::Group);

    let public = Group::create_group(&mut store, &NewGroup { name: "public".to_string() })
        .unwrap();
    assert_eq!(public.id, 1);
    let user = domain_auth::pipeline::signup(
        &mut store,
        &mut reg,
        &NewUser { login: "ada".to_string(), hash: "longenough".to_string() },
    )
    .expect("signup");
    assert_eq!(User::get_groups(&store, &user).unwrap(), vec![public]);
    assert_eq!(RoleUser::roles_from_user(&store, &user), Ok(Role::User));
    // the short-password refusal still reaches the caller
    let short = domain_auth::pipeline::signup(
        &mut store,
        &mut reg,
        &NewUser { login: "x".to_string(), hash: "abc".to_string() },
    );
    assert_eq!(short.unwrap_err(), ApiError::User);
}

#[test]
fn visitor_is_the_credential_less_default() {
    assert_eq!(domain_auth::pipeline::visitor_role(), Role::Visitor);
}
