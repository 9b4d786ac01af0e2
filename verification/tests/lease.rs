use better_awake::backend::{
    BackendError, LeaseCheck, LeaseHealth, LeasePlan, LeaseRequest, after_lease_check, plan_lease,
};
use better_awake::session::SessionPolicy;

fn request(why: &str) -> LeaseRequest {
    LeaseRequest::from_policy(&SessionPolicy::quick_default(), "Better Awake", why)
        .expect("a quick session asks for a lease")
}

#[test]
fn holding_exactly_what_is_wanted_churns_nothing() {
    assert_eq!(plan_lease(Some(request("Build")), &Some(request("Build"))), LeasePlan::Keep);
    assert_eq!(plan_lease(None, &None), LeasePlan::Keep);
}

#[test]
fn a_new_reason_text_replaces_the_held_lease() {
    assert_eq!(
        plan_lease(Some(request("Build, Video call")), &Some(request("Build"))),
        LeasePlan::Replace { release_held: true, acquire: Some(request("Build, Video call")) }
    );
}

#[test]
fn a_wider_policy_replaces_the_held_lease() {
    let mut policy = SessionPolicy::none();
    policy.prevent_idle = true;
    let idle_only = LeaseRequest::from_policy(&policy, "Better Awake", "Build").unwrap();
    assert_eq!(
        plan_lease(Some(request("Build")), &Some(idle_only)),
        LeasePlan::Replace { release_held: true, acquire: Some(request("Build")) }
    );
}

#[test]
fn nothing_wanted_releases_what_is_held_and_takes_nothing() {
    assert_eq!(
        plan_lease(None, &Some(request("Build"))),
        LeasePlan::Replace { release_held: true, acquire: None }
    );
    assert_eq!(
        plan_lease(Some(request("Build")), &None),
        LeasePlan::Replace { release_held: false, acquire: Some(request("Build")) }
    );
}

#[test]
fn a_lost_lease_is_retaken_and_a_failed_check_is_reported() {
    assert_eq!(after_lease_check(Ok(LeaseHealth::Held)), LeaseCheck::Nothing);
    assert_eq!(after_lease_check(Ok(LeaseHealth::Lost)), LeaseCheck::RetakeLost);
    assert_eq!(
        after_lease_check(Err(BackendError::Unavailable("no system bus".to_string()))),
        LeaseCheck::Report("awake.backend.unavailable:no system bus".to_string())
    );
}
