use domain_auth::errors::ApiError;
use domain_auth::roles::Role;

#[test]
fn superior_to_orders_the_hierarchy() {
    assert_eq!(Role::superior_to(&Role::Root, &Role::Visitor), Ok(true));
    assert_eq!(Role::superior_to(&Role::Visitor, &Role::Root), Ok(false));
    assert_eq!(Role::superior_to(&Role::User, &Role::User), Ok(false));
    assert_eq!(Role::superior_to(&Role::Root, &Role::Super), Ok(true));
    assert_eq!(Role::superior_to(&Role::Super, &Role::User), Ok(true));
    assert_eq!(Role::superior_to(&Role::User, &Role::Visitor), Ok(true));
    assert_eq!(Role::superior_to(&Role::Super, &Role::Root), Ok(false));
}

#[test]
fn superior_to_is_asymmetric_on_all_pairs() {
    let roles = [Role::Root, Role::Super, Role::User, Role::Visitor];
    for a in roles {
        for b in roles {
            let ab = Role::superior_to(&a, &b).unwrap();
            let ba = Role::superior_to(&b, &a).unwrap();
            assert!(!(ab && ba));
            if a != b {
                assert!(ab || ba);
            } else {
                assert!(!ab && !ba);
            }
        }
    }
}

#[test]
fn role_parsing_accepts_exactly_the_closed_set() {
    assert_eq!(Role::from("root"), Ok(Role::Root));
    assert_eq!(Role::from("super"), Ok(Role::Super));
    assert_eq!(Role::from("user"), Ok(Role::User));
    assert_eq!(Role::from("visitor"), Ok(Role::Visitor));
    assert_eq!(Role::from("admin"), Err(ApiError::Role));
    assert_eq!(Role::from(""), Err(ApiError::Role));
    assert_eq!(Role::from("Root"), Err(ApiError::Role));
}

#[test]
fn role_names_round_trip() {
    for r in [Role::Root, Role::Super, Role::User, Role::Visitor] {
        assert_eq!(Role::from(r.name().as_str()), Ok(r));
    }
}

#[test]
fn error_status_codes() {
    assert_eq!(ApiError::GroupCreation.status_code(), 400);
    assert_eq!(ApiError::Group.status_code(), 400);
    assert_eq!(ApiError::UserCreation.status_code(), 400);
    assert_eq!(ApiError::User.status_code(), 400);
    assert_eq!(ApiError::UserNotFound.status_code(), 404);
    assert_eq!(ApiError::DomainRule.status_code(), 400);
    assert_eq!(ApiError::URLRule.status_code(), 400);
    assert_eq!(ApiError::Role.status_code(), 400);
    assert_eq!(ApiError::Internal.status_code(), 500);
    assert_eq!(ApiError::Jwt.status_code(), 403);
    assert_eq!(ApiError::CantDeleteRoot.status_code(), 422);
}

#[test]
fn error_messages() {
    assert_eq!(ApiError::Jwt.message(), "Couldn't validate jwt");
    assert_eq!(ApiError::Internal.message(), "Internal server error");
    assert_eq!(ApiError::CantDeleteRoot.message(), "Cannot delete root user !");
    assert_eq!(ApiError::UserNotFound.message(), "User not found.");
    assert_eq!(ApiError::DomainRule.message(), "Error with domain rule.");
    assert_eq!(ApiError::URLRule.message(), "Error with url rule.");
}
