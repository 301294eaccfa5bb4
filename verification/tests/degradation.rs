use ethos_protocol::degradation::{
    capability_fallback, list_capabilities, negotiate_capabilities, set_capability, DegradationError,
    DegradationLevel, DegradationState, FallbackError, NegotiateRequest, SetCapabilityRequest,
};

#[test]
fn unregistered_capability_defaults_to_full() {
    let state = DegradationState::new();
    let status = state.check("payments");
    assert_eq!(status.level, DegradationLevel::Full);
}

#[test]
fn negotiate_allows_proceeding_with_fallback() {
    let mut state = DegradationState::new();
    state.set_status("search", DegradationLevel::Unavailable, Some("index rebuilding".to_string()), true);
    let result = state.negotiate(&["search".to_string()]);
    assert!(result.can_proceed);
    assert!(result.capabilities[0].use_fallback);
}

#[test]
fn negotiate_blocks_without_fallback() {
    let mut state = DegradationState::new();
    state.set_status("search", DegradationLevel::Unavailable, None, false);
    let result = state.negotiate(&["search".to_string()]);
    assert!(!result.can_proceed);
}

#[test]
fn degraded_capability_can_proceed() {
    let mut state = DegradationState::new();
    state.set_status(
        "recommendations",
        DegradationLevel::Degraded,
        Some("stale cache".to_string()),
        false,
    );
    let result = state.negotiate(&["recommendations".to_string()]);
    assert!(result.can_proceed);
}

#[test]
fn check_returns_what_was_set_and_names_default_statuses() {
    let mut state = DegradationState::new();
    let set = state.set_status("search", DegradationLevel::Degraded, Some("slow".to_string()), true);
    assert_eq!(set.name, "search");
    let status = state.check("search");
    assert_eq!(status.level, DegradationLevel::Degraded);
    assert_eq!(status.reason, Some("slow".to_string()));
    assert!(status.fallback_available);
    let default = state.check("payments");
    assert_eq!(default.name, "payments");
    assert_eq!(default.reason, None);
    assert!(!default.fallback_available);
}

#[test]
fn negotiation_reports_each_requested_capability_in_order() {
    let mut state = DegradationState::new();
    state.set_status("a", DegradationLevel::Degraded, None, true);
    state.set_status("b", DegradationLevel::Unavailable, Some("down".to_string()), true);
    let result = negotiate_capabilities(
        &state,
        &NegotiateRequest { requested: vec!["a".to_string(), "x".to_string(), "b".to_string()] },
    );
    assert_eq!(result.capabilities.len(), 3);
    assert_eq!(result.capabilities[0].name, "a");
    assert!(result.capabilities[0].use_fallback);
    assert_eq!(result.capabilities[1].level, DegradationLevel::Full);
    assert!(!result.capabilities[1].use_fallback);
    assert_eq!(result.capabilities[2].reason, Some("down".to_string()));
    assert!(result.can_proceed);
}

#[test]
fn set_capability_refuses_blank_names() {
    let mut state = DegradationState::new();
    let body = SetCapabilityRequest {
        name: "  ".to_string(),
        level: DegradationLevel::Degraded,
        reason: None,
        fallback_available: false,
    };
    let err = set_capability(&mut state, body).unwrap_err();
    assert_eq!(err, DegradationError::EmptyName);
    assert_eq!(err.status(), 422);
    assert_eq!(err.message(), "name must not be empty");
    assert!(list_capabilities(&state).is_empty());
    let body = SetCapabilityRequest {
        name: "search".to_string(),
        level: DegradationLevel::Unavailable,
        reason: None,
        fallback_available: true,
    };
    assert_eq!(set_capability(&mut state, body).unwrap().level, DegradationLevel::Unavailable);
    assert_eq!(list_capabilities(&state).len(), 1);
}

#[test]
fn list_holds_each_registered_capability_once() {
    let mut state = DegradationState::new();
    state.set_status("a", DegradationLevel::Degraded, None, false);
    state.set_status("b", DegradationLevel::Unavailable, None, false);
    state.set_status("a", DegradationLevel::Unavailable, None, true);
    let mut names: Vec<String> = state.list().into_iter().map(|s| s.name).collect();
    names.sort();
    assert_eq!(names, vec!["a".to_string(), "b".to_string()]);
}

#[test]
fn fallback_is_served_only_for_degraded_capabilities_with_one() {
    let mut state = DegradationState::new();
    assert_eq!(capability_fallback(&state, "x").unwrap_err(), FallbackError::NotDegraded);
    assert_eq!(FallbackError::NotDegraded.status(), 404);
    state.set_status("x", DegradationLevel::Degraded, None, false);
    assert_eq!(capability_fallback(&state, "x").unwrap_err(), FallbackError::NoFallback);
    assert_eq!(FallbackError::NoFallback.status(), 503);
    state.set_status("x", DegradationLevel::Unavailable, Some("maintenance".to_string()), true);
    let resp = capability_fallback(&state, "x").unwrap();
    assert_eq!(resp.capability, "x");
    assert_eq!(resp.level, DegradationLevel::Unavailable);
    assert_eq!(resp.reason, Some("maintenance".to_string()));
    assert_eq!(resp.message, "serving reduced-functionality fallback response");
}
