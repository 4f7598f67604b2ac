use domain_auth::errors::ApiError;
use domain_auth::models::{DomainRule, URLRule};
use domain_auth::origin::{decide_origin_access, like_match_str, user_allowed_to_origin};
use domain_auth::roles::Role;

fn domain_rule(id: i32, pattern: &str, group: i32) -> DomainRule {
    DomainRule { id, domain: pattern.to_string(), group_id: group }
}

fn url_rule(id: i32, pattern: &str, group: i32) -> URLRule {
    URLRule { id, url: pattern.to_string(), group_id: group }
}

#[test]
fn wildcard_matching() {
    assert!(like_match_str("*.example.com", "api.example.com"));
    assert!(like_match_str("%.example.com", "api.example.com"));
    assert!(like_match_str("api.example.com", "api.example.com"));
    assert!(like_match_str("ap_.example.com", "api.example.com"));
    assert!(like_match_str("*", "anything.at.all"));
    assert!(like_match_str("", ""));
    assert!(!like_match_str("", "x"));
    assert!(!like_match_str("*.example.com", "example.org"));
    assert!(!like_match_str("api.example.com", "api.example.org"));
    assert!(!like_match_str("_", ""));
    assert!(like_match_str("a*b", "aqqqb"));
    assert!(!like_match_str("a*b", "aqqqc"));
}

#[test]
fn scenario_group_rule_grants_and_denies() {
    // user U in group 2; DomainRule("*.example.com", group 2) exists
    let drules = vec![domain_rule(1, "*.example.com", 2)];
    let urules: Vec<URLRule> = vec![];
    let groups = vec![2];
    let allowed =
        decide_origin_access(Role::User, &groups, "https://api.example.com/x", &drules, &urules);
    assert_eq!(allowed, Ok(()));
    let denied = decide_origin_access(Role::User, &groups, "https://other.test", &drules, &urules);
    assert_eq!(denied, Err(ApiError::Group));
}

#[test]
fn root_bypasses_all_rules() {
    let drules: Vec<DomainRule> = vec![];
    let urules: Vec<URLRule> = vec![];
    let groups: Vec<i32> = vec![];
    let r = decide_origin_access(Role::Root, &groups, "https://anywhere.example", &drules, &urules);
    assert_eq!(r, Ok(()));
}

#[test]
fn unparsable_origin_is_caller_input_error_even_for_root() {
    let drules: Vec<DomainRule> = vec![];
    let urules: Vec<URLRule> = vec![];
    let groups: Vec<i32> = vec![];
    let r = decide_origin_access(Role::Root, &groups, "not a url at all", &drules, &urules);
    assert_eq!(r, Err(ApiError::User));
}

#[test]
fn deny_is_stable_across_evaluations() {
    let drules = vec![domain_rule(1, "allowed.example", 7)];
    let urules = vec![url_rule(1, "https://exact.example/path", 7)];
    let groups = vec![3];
    for _ in 0..3 {
        let r =
            decide_origin_access(Role::User, &groups, "https://denied.example", &drules, &urules);
        assert_eq!(r, Err(ApiError::Group));
    }
}

#[test]
fn url_rule_matches_full_origin() {
    let drules: Vec<DomainRule> = vec![];
    let urules = vec![url_rule(1, "https://exact.example/path%", 4)];
    let groups = vec![4];
    let r = decide_origin_access(
        Role::User,
        &groups,
        "https://exact.example/path/deeper",
        &drules,
        &urules,
    );
    assert_eq!(r, Ok(()));
}

#[test]
fn group_membership_is_required_for_a_rule_to_apply() {
    let drules = vec![domain_rule(1, "host.example", 2)];
    let urules: Vec<URLRule> = vec![];
    let wrong_group = vec![3];
    let r = user_allowed_to_origin(&drules, &urules, "https://host.example/", "host.example",
        &wrong_group);
    assert_eq!(r, Err(ApiError::Group));
    let right_group = vec![2, 3];
    let r2 = user_allowed_to_origin(&drules, &urules, "https://host.example/", "host.example",
        &right_group);
    assert_eq!(r2, Ok(()));
}
