use inertia::adapter::{guard_rejection, GuardFailure, ignite_check, is_inertia_protocol_header, is_mountable_public_path, response_step, InertiaFairing, ResponseStep};

#[test]
fn protocol_headers_are_recognized() {
    for name in ["x-inertia", "x-inertia-partial-data", "accept", "purpose", "x-requested-with"] {
        assert!(is_inertia_protocol_header(name), "{name}");
    }
    for name in ["content-type", "x-inerti", "accept-encoding", "cookie"] {
        assert!(!is_inertia_protocol_header(name), "{name}");
    }
}

#[test]
fn public_paths_must_be_mountable() {
    assert!(is_mountable_public_path("/build"));
    assert!(is_mountable_public_path("/"));
    assert!(!is_mountable_public_path("build"));
    assert!(!is_mountable_public_path(""));
    assert!(!is_mountable_public_path("/build?x"));
    assert!(!is_mountable_public_path("/build#x"));
}

#[test]
fn ignition_refuses_double_installation_and_bad_paths() {
    assert_eq!(ignite_check(false, "/build"), Ok(()));
    assert_eq!(
        ignite_check(true, "/build").unwrap_err(),
        "inertia-rocket is installed more than once; attach exactly one InertiaFairing"
    );
    assert_eq!(ignite_check(false, "build").unwrap_err(), "invalid Inertia asset public path for Rocket: build");
}

#[test]
fn response_hook_prefers_early_responses() {
    assert_eq!(response_step(true, true), ResponseStep::UseEarly);
    assert_eq!(response_step(false, true), ResponseStep::Finalize);
    assert_eq!(response_step(false, false), ResponseStep::Keep);
}

#[test]
fn fairing_holds_its_application() {
    let fairing = InertiaFairing::new("app");
    assert_eq!(*fairing.app(), "app");
}

#[test]
fn guard_failures_have_fixed_statuses() {
    assert_eq!(guard_rejection(&GuardFailure::NotInstalled), (500, "inertia-rocket is not installed; attach InertiaFairing".to_owned()));
    assert_eq!(guard_rejection(&GuardFailure::BadRequest("bad uri".to_owned())), (400, "bad uri".to_owned()));
    assert_eq!(guard_rejection(&GuardFailure::VersionMismatch), (409, "Inertia asset version mismatch".to_owned()));
    assert_eq!(guard_rejection(&GuardFailure::PrepareFailed), (500, "failed to prepare Inertia request".to_owned()));
}
