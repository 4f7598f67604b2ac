use domain_auth::codec::{decode_claims, encode_claims};
use domain_auth::errors::ApiError;
use domain_auth::jwt::{JWTInternal, KeySet};
use domain_auth::models::{Claims, Group, NewGroup, NewUser, User};
use domain_auth::pipeline::{authenticate, delete_user_account, is_auth, issue_session,
    logout_session};
use domain_auth::registry::TokenRegistry;
use domain_auth::roles::Role;
use domain_auth::stores::Store;
use domain_auth::trusted::now_ts;
use ed25519_dalek::pkcs8::spki::der::pem::LineEnding;
use ed25519_dalek::pkcs8::EncodePrivateKey;

/// A fresh Ed25519 keypair, PEM-encoded, for one test's key set.
fn keys() -> KeySet {
    let signing = ed25519_dalek::SigningKey::generate(&mut rand_core::OsRng);
    let priv_pem = signing.to_pkcs8_pem(LineEnding::LF).expect("private pem");
    KeySet {
        encoding: priv_pem.as_bytes().to_vec(),
        decoding: signing.verifying_key().to_bytes().to_vec(),
    }
}

fn sample_claims() -> Claims {
    Claims {
        company: "I.K.E".to_string(),
        exp: 4102444800,
        jti: "8c7f0a52-0000-4000-8000-abcdefabcdef".to_string(),
        user: User { id: 42, login: "ada".to_string(), hash: "h".to_string() },
        role: Role::Super,
        groups: vec![
            Group { id: 1, name: "public".to_string() },
            Group { id: 2, name: "staff".to_string() },
        ],
    }
}

#[test]
fn claims_codec_round_trips() {
    let c = sample_claims();
    let bytes = encode_claims(&c);
    let back = decode_claims(&bytes).expect("decodes");
    assert_eq!(back, c);
}

#[test]
fn claims_codec_round_trips_unicode_and_negatives() {
    let c = Claims {
        company: "üñïçødé ✓".to_string(),
        exp: -7,
        jti: String::new(),
        user: User { id: -2147483648, login: "héllo.world".to_string(), hash: String::new() },
        role: Role::Visitor,
        groups: vec![],
    };
    let bytes = encode_claims(&c);
    let back = decode_claims(&bytes).expect("decodes");
    assert_eq!(back, c);
}

#[test]
fn decode_rejects_mangled_bytes() {
    let c = sample_claims();
    let mut bytes = encode_claims(&c);
    bytes.push(0);
    assert!(decode_claims(&bytes).is_none());
    assert!(decode_claims(&Vec::new()).is_none());
}

#[test]
fn sign_validate_round_trip() {
    let key = keys();
    let mut reg = TokenRegistry::new();
    let c = sample_claims();
    let token = JWTInternal::from(&c, &key).expect("signs");
    assert!(token.token.starts_with("eddsa."));
    assert_eq!(token.token.matches('.').count(), 2);
    JWTInternal::register(&mut reg, &token).expect("registers");
    let now = now_ts();
    let validated = JWTInternal::validate_jwt(&reg, &token.token, &key, now).expect("validates");
    assert_eq!(validated, c);
}

#[test]
fn token_carries_the_issue_time_expiry() {
    let key = keys();
    let (store, _user) = populated_store();
    let mut reg = TokenRegistry::new();
    let now = now_ts();
    let jwt = issue_session(&store, &mut reg, "ada", "correct horse", &key, now)
        .expect("session");
    assert_eq!(jwt.claims.exp, now + domain_auth::jwt::TOKEN_LIFETIME);
}

#[test]
fn validation_rejects_a_mangled_header() {
    let key = keys();
    let mut reg = TokenRegistry::new();
    let c = sample_claims();
    let token = JWTInternal::from(&c, &key).expect("signs");
    JWTInternal::register(&mut reg, &token).expect("registers");
    let mut mangled = token.token.clone();
    mangled.replace_range(0..5, "edxsa");
    assert_eq!(JWTInternal::validate_jwt(&reg, &mangled, &key, now_ts()), Err(ApiError::Jwt));
}

#[test]
fn validation_rejects_bad_signature_expiry_and_garbage() {
    let key = keys();
    let mut reg = TokenRegistry::new();
    let now = now_ts();
    assert_eq!(JWTInternal::validate_jwt(&reg, "garbage", &key, now), Err(ApiError::Jwt));
    assert_eq!(JWTInternal::validate_jwt(&reg, "", &key, now), Err(ApiError::Jwt));

    // expired claims fail even when signed and registered
    let mut expired = sample_claims();
    expired.exp = now - 10;
    let token = JWTInternal::from(&expired, &key).expect("signs");
    JWTInternal::register(&mut reg, &token).expect("registers");
    assert_eq!(JWTInternal::validate_jwt(&reg, &token.token, &key, now), Err(ApiError::Jwt));

    // a tampered payload fails the signature check
    let mut fresh = sample_claims();
    fresh.jti = "11111111-2222-4333-8444-555555555555".to_string();
    let token2 = JWTInternal::from(&fresh, &key).expect("signs");
    JWTInternal::register(&mut reg, &token2).expect("registers");
    let mut tampered = token2.token.clone();
    tampered.replace_range(10..12, "00");
    assert_eq!(JWTInternal::validate_jwt(&reg, &tampered, &key, now), Err(ApiError::Jwt));
}

#[test]
fn revocation_kills_a_token_before_expiry() {
    let key = keys();
    let mut reg = TokenRegistry::new();
    let c = sample_claims();
    let token = JWTInternal::from(&c, &key).expect("signs");
    JWTInternal::register(&mut reg, &token).expect("registers");
    let now = now_ts();
    assert!(JWTInternal::validate_jwt(&reg, &token.token, &key, now).is_ok());
    JWTInternal::delete(&mut reg, &c.jti).expect("revokes");
    assert_eq!(JWTInternal::validate_jwt(&reg, &token.token, &key, now), Err(ApiError::Jwt));
}

/// A store with the public group, one signed-up user in it, and one more
/// group the user belongs to.
fn populated_store() -> (Store, User) {
    let mut store = Store::new();
    let public = Group::create_group(&mut store, &NewGroup { name: "public".to_string() })
        .expect("group");
    let staff =
        Group::create_group(&mut store, &NewGroup { name: "staff".to_string() }).expect("group");
    let user = User::create(
        &mut store,
        &NewUser { login: "ada".to_string(), hash: "correct horse".to_string() },
    )
    .expect("user");
    let mut reg = TokenRegistry::new();
    domain_auth::models::GroupUser::add_user_to_group(&mut store, &mut reg, &user, &public)
        .expect("membership");
    domain_auth::models::GroupUser::add_user_to_group(&mut store, &mut reg, &user, &staff)
        .expect("membership");
    (store, user)
}

#[test]
fn session_issue_refuses_bad_credentials() {
    let key = keys();
    let (store, _user) = populated_store();
    let mut reg = TokenRegistry::new();

    // wrong password is refused
    assert_eq!(
        issue_session(&store, &mut reg, "ada", "wrong", &key, now_ts()).unwrap_err(),
        ApiError::User
    );
    // unknown login is refused
    assert_eq!(
        issue_session(&store, &mut reg, "nobody", "x", &key, now_ts()).unwrap_err(),
        ApiError::User
    );
}

#[test]
fn session_issue_and_authenticate() {
    let key = keys();
    let (store, user) = populated_store();
    let mut reg = TokenRegistry::new();
    let jwt = issue_session(&store, &mut reg, "ada", "correct horse", &key, now_ts()).expect("session");
    assert_eq!(jwt.claims.user.id, user.id);
    assert_eq!(jwt.claims.role, Role::User);
    assert_eq!(jwt.claims.groups.len(), 2);

    let now = now_ts();
    assert!(is_auth(&reg, &jwt.token, &key, now).is_ok());

    // a fresh token authenticates without rotation
    let outcome = authenticate(&store, &mut reg, &jwt.token, &key, now).expect("authenticates");
    assert!(!outcome.rotated);
    assert_eq!(outcome.token.claims, jwt.claims);
}

#[test]
fn lazy_rotation_swaps_the_token_and_picks_up_changes() {
    let key = keys();
    let (mut store, user) = populated_store();
    let mut reg = TokenRegistry::new();
    let jwt = issue_session(&store, &mut reg, "ada", "correct horse", &key, now_ts()).expect("session");

    // a membership change flags the live token for rotation
    let staff = Group::read_by_id(&store, 2).expect("group");
    domain_auth::models::GroupUser::remove_user_from_group(&mut store, &mut reg, &user, &staff)
        .expect("removal");
    assert_eq!(JWTInternal::needs_refresh(&reg, &jwt.claims), Ok(true));

    // the next authenticated request is transparently upgraded
    let now = now_ts();
    let outcome = authenticate(&store, &mut reg, &jwt.token, &key, now).expect("rotates");
    assert!(outcome.rotated);
    assert_ne!(outcome.token.claims.jti, jwt.claims.jti);
    assert_eq!(outcome.token.claims.groups.len(), 1);
    assert_eq!(outcome.token.claims.groups[0].name, "public");

    // the original token id is no longer registered
    assert_eq!(JWTInternal::validate_jwt(&reg, &jwt.token, &key, now), Err(ApiError::Jwt));
    // the replacement validates and is unflagged
    let v = JWTInternal::validate_jwt(&reg, &outcome.token.token, &key, now).expect("new token");
    assert_eq!(v.jti, outcome.token.claims.jti);
    assert_eq!(JWTInternal::needs_refresh(&reg, &outcome.token.claims), Ok(false));
}

#[test]
fn logout_revokes_the_presented_token() {
    let key = keys();
    let (store, _user) = populated_store();
    let mut reg = TokenRegistry::new();
    let jwt = issue_session(&store, &mut reg, "ada", "correct horse", &key, now_ts()).expect("session");
    let now = now_ts();
    assert_eq!(logout_session(&mut reg, &jwt.token, &key, now), Ok(()));
    assert_eq!(is_auth(&reg, &jwt.token, &key, now), Err(ApiError::Jwt));
    // a second logout with the dead token is the internal fault the route raised
    assert_eq!(logout_session(&mut reg, &jwt.token, &key, now), Err(ApiError::Internal));
}

#[test]
fn deleting_root_is_refused_and_deleting_a_user_purges_everything() {
    let key = keys();
    let (mut store, user) = populated_store();
    let mut reg = TokenRegistry::new();

    // a root user cannot be deleted through this path
    let boss = User::create(
        &mut store,
        &NewUser { login: "boss".to_string(), hash: "rootpasswd".to_string() },
    )
    .expect("user");
    // promote: replace the default role row by hand
    let idx = store.role_assignments.iter().position(|r| r.user_id == boss.id).unwrap();
    store.role_assignments[idx].role = Role::Root;
    assert_eq!(delete_user_account(&mut store, &mut reg, boss.id), Err(ApiError::CantDeleteRoot));
    assert!(User::get(&store, boss.id).is_ok());

    // an ordinary user loses tokens, memberships and its row
    let jwt = issue_session(&store, &mut reg, "ada", "correct horse", &key, now_ts()).expect("session");
    assert_eq!(delete_user_account(&mut store, &mut reg, user.id), Ok(()));
    assert_eq!(User::get(&store, user.id), Err(ApiError::UserNotFound));
    assert_eq!(User::get_groups(&store, &user).unwrap().len(), 0);
    let now = now_ts();
    assert_eq!(JWTInternal::validate_jwt(&reg, &jwt.token, &key, now), Err(ApiError::Jwt));

    // a missing user reports not-found
    assert_eq!(delete_user_account(&mut store, &mut reg, 9999), Err(ApiError::UserNotFound));
}

#[test]
fn signup_validates_password_material() {
    let mut store = Store::new();
    let r = User::create(&mut store, &NewUser { login: "x".to_string(), hash: "abc".to_string() });
    assert_eq!(r.unwrap_err(), ApiError::User);
}

#[test]
fn registering_the_same_jti_twice_is_the_store_uniqueness_fault() {
    let key = keys();
    let mut reg = TokenRegistry::new();
    let c = sample_claims();
    let token = JWTInternal::from(&c, &key).expect("signs");
    assert_eq!(JWTInternal::register(&mut reg, &token), Ok(()));
    assert_eq!(JWTInternal::register(&mut reg, &token), Err(ApiError::Internal));
}
