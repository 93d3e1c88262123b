use vmfleet::engine::{EnginePass, FailurePolicy, VmStatus};
use vmfleet::inventory::decode_inventory;
use vmfleet::json::decode_token;
use vmfleet::plan::{build_plan, DesiredStates, PlannedAction};
use vmfleet::query::{encode_filter, encode_value, list_all_url, list_url, power_action_url};
use vmfleet::session::{
    basic_auth_value, connect_outcome, interpret_action_response, session_url, CallResult,
    SessionGuard,
};
use vmfleet::types::{
    ActionOutcome, AuthError, ErrorKind, PowerAction, PowerState, QueryError, RunMode, VMListFilter,
    VMSummary,
};

fn vm(id: &str, name: &str, state: PowerState) -> VMSummary {
    VMSummary {
        id: String::from(id),
        name: String::from(name),
        power_state: state,
        cpu_count: None,
        memory_size_mib: None,
    }
}

#[test]
fn shutdown_plan_targets_only_powered_on() {
    // Scenario: 3 VMs, states [PoweredOn, PoweredOn, PoweredOff], Shutdown mode.
    let vms = vec![
        vm("vm-1", "one", PowerState::PoweredOn),
        vm("vm-2", "two", PowerState::PoweredOn),
        vm("vm-3", "three", PowerState::PoweredOff),
    ];
    let des = DesiredStates::new();
    let plan = build_plan(RunMode::Shutdown, &vms, &des);
    assert_eq!(plan.len(), 2);
    assert_eq!(plan[0].vm_id, "vm-1");
    assert!(matches!(plan[0].action, PowerAction::Shutdown));
    assert_eq!(plan[1].vm_id, "vm-2");
    assert!(matches!(plan[1].action, PowerAction::Shutdown));
}

#[test]
fn shutdown_plan_idempotent_once_all_off() {
    let vms = vec![
        vm("vm-1", "one", PowerState::PoweredOff),
        vm("vm-2", "two", PowerState::Suspended),
    ];
    let des = DesiredStates::new();
    let plan = build_plan(RunMode::Shutdown, &vms, &des);
    assert_eq!(plan.len(), 0);
}

#[test]
fn start_plan_targets_off_and_suspended() {
    let vms = vec![
        vm("vm-1", "one", PowerState::PoweredOff),
        vm("vm-2", "two", PowerState::PoweredOn),
        vm("vm-3", "three", PowerState::Suspended),
    ];
    let des = DesiredStates::new();
    let plan = build_plan(RunMode::Start, &vms, &des);
    assert_eq!(plan.len(), 2);
    assert_eq!(plan[0].vm_id, "vm-1");
    assert!(matches!(plan[0].action, PowerAction::Start));
    assert_eq!(plan[1].vm_id, "vm-3");
    assert!(matches!(plan[1].action, PowerAction::Start));
}

#[test]
fn auto_plan_follows_desired_state_map() {
    let vms = vec![
        vm("vm-1", "one", PowerState::PoweredOff),
        vm("vm-2", "two", PowerState::PoweredOn),
        vm("vm-3", "three", PowerState::PoweredOn),
        vm("vm-4", "four", PowerState::PoweredOn),
    ];
    let mut des = DesiredStates::new();
    des.push(String::from("vm-1"), PowerState::PoweredOn);
    des.push(String::from("vm-3"), PowerState::PoweredOn);
    des.push(String::from("vm-4"), PowerState::Suspended);
    let plan = build_plan(RunMode::Auto, &vms, &des);
    // vm-1 disagrees: Start; vm-2 has no entry: skipped; vm-3 agrees: skipped;
    // vm-4 disagrees towards Suspended: Standby.
    assert_eq!(plan.len(), 2);
    assert_eq!(plan[0].vm_id, "vm-1");
    assert!(matches!(plan[0].action, PowerAction::Start));
    assert_eq!(plan[1].vm_id, "vm-4");
    assert!(matches!(plan[1].action, PowerAction::Standby));
}

fn planned(id: &str, action: PowerAction) -> PlannedAction {
    PlannedAction { vm_id: String::from(id), action }
}

#[test]
fn engine_runs_one_group_and_records_outcomes() {
    let groups = vec![vec![
        planned("vm-1", PowerAction::Shutdown),
        planned("vm-2", PowerAction::Shutdown),
    ]];
    let mut pass = EnginePass::new(groups, FailurePolicy::BestEffort);
    let (g1, i1) = pass.next_dispatch().unwrap();
    pass.record_outcome(i1, true, None);
    let (g2, i2) = pass.next_dispatch().unwrap();
    assert_eq!((g1, g2), (0, 0));
    assert_ne!(i1, i2);
    pass.record_outcome(i2, false, Some(ErrorKind::Timeout));
    assert!(pass.next_dispatch().is_none());
    assert!(pass.try_advance());
    assert!(pass.is_complete());
    let outs = pass.outcomes_so_far();
    assert_eq!(outs.len(), 2);
    assert_eq!(outs[0].vm_id, "vm-1");
    assert!(outs[0].success);
    assert!(outs[0].error.is_none());
    assert_eq!(outs[1].vm_id, "vm-2");
    assert!(!outs[1].success);
    assert!(matches!(outs[1].error, Some(ErrorKind::Timeout)));
}

#[test]
fn failed_vm_does_not_block_peers_in_same_group() {
    let groups = vec![vec![
        planned("vm-1", PowerAction::Shutdown),
        planned("vm-2", PowerAction::Shutdown),
        planned("vm-3", PowerAction::Shutdown),
    ]];
    let mut pass = EnginePass::new(groups, FailurePolicy::FailFast);
    let (_, i1) = pass.next_dispatch().unwrap();
    pass.record_outcome(i1, false, Some(ErrorKind::Rejected));
    // The failure above must not prevent the remaining two dispatches.
    let (_, i2) = pass.next_dispatch().unwrap();
    pass.record_outcome(i2, true, None);
    let (_, i3) = pass.next_dispatch().unwrap();
    pass.record_outcome(i3, true, None);
    assert_eq!(pass.outcomes_so_far().len(), 3);
}

#[test]
fn next_group_waits_for_previous_group_to_finish() {
    let groups = vec![
        vec![planned("data-tier", PowerAction::Shutdown)],
        vec![planned("app-tier", PowerAction::Shutdown)],
    ];
    let mut pass = EnginePass::new(groups, FailurePolicy::BestEffort);
    let (g1, i1) = pass.next_dispatch().unwrap();
    assert_eq!(g1, 0);
    // The first group's VM is still in flight: nothing further may be
    // dispatched, from either group.
    assert!(pass.next_dispatch().is_none());
    assert!(!pass.try_advance());
    pass.record_outcome(i1, true, None);
    assert!(pass.try_advance());
    let (g2, _) = pass.next_dispatch().unwrap();
    assert_eq!(g2, 1);
}

#[test]
fn fail_fast_halts_between_groups_until_overridden() {
    let groups = vec![
        vec![planned("vm-1", PowerAction::Shutdown)],
        vec![planned("vm-2", PowerAction::Shutdown)],
    ];
    let mut pass = EnginePass::new(groups, FailurePolicy::FailFast);
    let (_, i1) = pass.next_dispatch().unwrap();
    pass.record_outcome(i1, false, Some(ErrorKind::TransportFailure));
    assert!(!pass.try_advance());
    assert!(pass.is_halted());
    assert!(pass.next_dispatch().is_none());
    pass.override_halt();
    let (g2, _) = pass.next_dispatch().unwrap();
    assert_eq!(g2, 1);
}

#[test]
fn failed_listing_aborts_before_any_action() {
    let listing: Result<Vec<VMSummary>, QueryError> = Err(QueryError::DecodeFailure);
    let groups = vec![vec![planned("vm-1", PowerAction::Shutdown)]];
    match EnginePass::begin(listing, groups, FailurePolicy::BestEffort) {
        Ok(_) => panic!("a failed listing must abort the pass"),
        Err(e) => assert!(matches!(e, QueryError::DecodeFailure)),
    }
}

#[test]
fn reauthentication_is_single_flight() {
    let mut guard = SessionGuard::new();
    assert!(guard.begin_refresh());
    // A second caller discovering expiry concurrently is denied.
    assert!(!guard.begin_refresh());
    assert!(!guard.begin_refresh());
    guard.end_refresh();
    assert!(guard.begin_refresh());
}

#[test]
fn empty_filter_requests_the_plain_listing() {
    let f = VMListFilter::none();
    assert_eq!(encode_filter(&f), "");
    assert_eq!(
        list_url("https://vc.example", &f),
        list_all_url("https://vc.example")
    );
    assert_eq!(list_all_url("https://vc.example"), "https://vc.example/api/vcenter/vm");
}

#[test]
fn filter_serializes_repeated_parameters_in_order() {
    let mut f = VMListFilter::none();
    f.clusters = Some(vec![String::from("c1"), String::from("c2")]);
    f.power_states = Some(vec![PowerState::PoweredOn, PowerState::Suspended]);
    f.vms = Some(vec![String::from("vm-7")]);
    let q = encode_filter(&f);
    assert_eq!(
        q,
        "clusters=c1&clusters=c2&power_states=POWERED_ON&power_states=SUSPENDED&vms=vm-7"
    );
    let url = list_url("https://vc.example", &f);
    assert_eq!(
        url,
        "https://vc.example/api/vcenter/vm?clusters=c1&clusters=c2&power_states=POWERED_ON&power_states=SUSPENDED&vms=vm-7"
    );
}

#[test]
fn filter_values_are_percent_encoded_losslessly() {
    // Values carrying the separator characters survive the query string:
    // they are escaped on the way out, so decoding the parameters yields
    // the original values back.
    assert_eq!(encode_value("a b"), "a%20b");
    assert_eq!(encode_value("c&d=e"), "c%26d%3De");
    assert_eq!(encode_value("plain-name_1.~"), "plain-name_1.~");
    assert_eq!(encode_value("caf\u{e9}"), "caf%C3%A9");
    let mut f = VMListFilter::none();
    f.names = Some(vec![String::from("a&b"), String::from("x=y")]);
    assert_eq!(encode_filter(&f), "names=a%26b&names=x%3Dy");
}

#[test]
fn value_encoding_round_trips() {
    for v in [
        "plain",
        "a b",
        "c&d=e",
        "100%",
        "caf\u{e9}",
        "snowman \u{2603} end",
        "-._~",
        "",
    ] {
        let encoded = encode_value(v);
        assert_eq!(
            vmfleet::decode::decode_value(&encoded).as_deref(),
            Some(v),
            "value {v:?} did not survive the query string"
        );
    }
    // A stray escape or a reserved character is not a valid value text.
    assert!(vmfleet::decode::decode_value("%2").is_none());
    assert!(vmfleet::decode::decode_value("%zz").is_none());
    assert!(vmfleet::decode::decode_value("a&b").is_none());
}

#[test]
fn filter_for_ids_constrains_the_vms_dimension() {
    let f = VMListFilter::for_ids(vec![String::from("vm-1"), String::from("vm-2")]);
    assert_eq!(encode_filter(&f), "vms=vm-1&vms=vm-2");
}

#[test]
fn inventory_decodes_summaries_with_optional_fields() {
    let body = r#" [
        {"name": "alpha", "power_state": "POWERED_ON", "vm": "vm-1",
         "cpu_count": 4, "memory_size_mib": 2048},
        {"name": "beta", "power_state": "POWERED_OFF", "vm": "vm-2",
         "cpu_count": null, "unknown_field": true},
        {"vm": "vm-3", "name": "gamma", "power_state": "SUSPENDED"}
    ] "#;
    let vms = decode_inventory(body).unwrap();
    assert_eq!(vms.len(), 3);
    assert_eq!(vms[0].id, "vm-1");
    assert_eq!(vms[0].name, "alpha");
    assert!(matches!(vms[0].power_state, PowerState::PoweredOn));
    assert_eq!(vms[0].cpu_count, Some(4));
    assert_eq!(vms[0].memory_size_mib, Some(2048));
    assert_eq!(vms[1].id, "vm-2");
    assert_eq!(vms[1].cpu_count, None);
    assert_eq!(vms[1].memory_size_mib, None);
    assert!(matches!(vms[2].power_state, PowerState::Suspended));
}

#[test]
fn inventory_decodes_escaped_names() {
    let body = "[{\"name\": \"a\\\"b\\nc\", \"power_state\": \"POWERED_ON\", \"vm\": \"vm-9\"}]";
    let vms = decode_inventory(body).unwrap();
    assert_eq!(vms[0].name, "a\"b\nc");
}

#[test]
fn malformed_inventory_is_a_decode_failure() {
    // Scenario: malformed JSON inventory response.
    for bad in [
        "not json at all",
        "{\"name\": \"alpha\"}",
        "[{\"name\": \"alpha\"}]",
        "[{\"name\": \"alpha\", \"power_state\": \"ON\", \"vm\": \"vm-1\"}]",
        "[{\"name\": \"alpha\", \"power_state\": \"POWERED_ON\", \"vm\": \"vm-1\"}] trailing",
        "[{\"name\": \"alpha\", \"power_state\": \"POWERED_ON\", \"vm\": 3}]",
        "[",
        "",
    ] {
        match decode_inventory(bad) {
            Err(QueryError::DecodeFailure) => {},
            other => panic!("expected a decode failure for {:?}, got {:?}", bad, other.is_ok()),
        }
    }
}

#[test]
fn empty_inventory_decodes_to_no_vms() {
    assert_eq!(decode_inventory("[]").unwrap().len(), 0);
    assert_eq!(decode_inventory("  [ ]  ").unwrap().len(), 0);
}

#[test]
fn session_token_is_the_bare_json_string() {
    assert_eq!(decode_token("\"abc-123\"").unwrap(), "abc-123");
    assert_eq!(decode_token("  \"t\"  ").unwrap(), "t");
    assert!(decode_token("abc").is_none());
    assert!(decode_token("\"a\" trailing").is_none());
    assert!(decode_token("").is_none());
}

#[test]
fn connect_interprets_the_session_exchange() {
    // Scenario: authentication returns HTTP 401.
    match connect_outcome(String::from("https://vc"), Some((401, String::from("\"t\"")))) {
        Err(AuthError::Rejected) => {},
        other => panic!("expected rejection, got ok={}", other.is_ok()),
    }
    match connect_outcome(String::from("https://vc"), None) {
        Err(AuthError::TransportFailure) => {},
        other => panic!("expected transport failure, got ok={}", other.is_ok()),
    }
    match connect_outcome(String::from("https://vc"), Some((200, String::from("nonsense")))) {
        Err(AuthError::MalformedResponse) => {},
        other => panic!("expected malformed response, got ok={}", other.is_ok()),
    }
    let s = connect_outcome(String::from("https://vc"), Some((200, String::from("\"tok-9\""))))
        .unwrap();
    assert_eq!(s.base_url, "https://vc");
    assert_eq!(s.token, "tok-9");
}

#[test]
fn basic_auth_header_is_the_base64_of_the_credentials() {
    // base64("user:password") under the standard alphabet with padding.
    assert_eq!(basic_auth_value("user", "password").unwrap(), "Basic dXNlcjpwYXNzd29yZA==");
    // One and two bytes of padding.
    assert_eq!(basic_auth_value("a", "b").unwrap(), "Basic YTpi");
    assert_eq!(basic_auth_value("ab", "cd").unwrap(), "Basic YWI6Y2Q=");
}

#[test]
fn session_url_targets_the_session_endpoint() {
    assert_eq!(session_url("https://vc.example"), "https://vc.example/api/session");
}

#[test]
fn power_action_urls_carry_the_wire_action_names() {
    assert_eq!(
        power_action_url("https://vc", "vm-1", PowerAction::Shutdown),
        "https://vc/api/vcenter/vm/vm-1/guest/power?action=shutdown"
    );
    assert_eq!(
        power_action_url("https://vc", "vm-1", PowerAction::Reboot),
        "https://vc/api/vcenter/vm/vm-1/guest/power?action=reboot"
    );
    assert_eq!(
        power_action_url("https://vc", "vm-1", PowerAction::Standby),
        "https://vc/api/vcenter/vm/vm-1/guest/power?action=standby"
    );
    assert_eq!(
        power_action_url("https://vc", "vm-1", PowerAction::Start),
        "https://vc/api/vcenter/vm/vm-1/power?action=start"
    );
}

#[test]
fn action_results_map_to_per_vm_outcomes() {
    let ok: ActionOutcome =
        interpret_action_response(String::from("vm-1"), PowerAction::Shutdown, CallResult::Status(204))
            .unwrap();
    assert!(ok.success);
    assert!(ok.error.is_none());
    assert_eq!(ok.vm_id, "vm-1");

    let rejected =
        interpret_action_response(String::from("vm-1"), PowerAction::Shutdown, CallResult::Status(500))
            .unwrap();
    assert!(!rejected.success);
    assert!(matches!(rejected.error, Some(ErrorKind::Rejected)));

    let timeout =
        interpret_action_response(String::from("vm-1"), PowerAction::Reboot, CallResult::TimedOut)
            .unwrap();
    assert!(matches!(timeout.error, Some(ErrorKind::Timeout)));

    let transport =
        interpret_action_response(String::from("vm-1"), PowerAction::Standby, CallResult::NetworkError)
            .unwrap();
    assert!(matches!(transport.error, Some(ErrorKind::TransportFailure)));

    // 401 alone signals the expired session instead of a per-VM outcome.
    assert!(
        interpret_action_response(String::from("vm-1"), PowerAction::Shutdown, CallResult::Status(401))
            .is_err()
    );
}

#[test]
fn wire_names_are_verbatim() {
    assert_eq!(PowerState::PoweredOff.wire_name(), "POWERED_OFF");
    assert_eq!(PowerState::PoweredOn.wire_name(), "POWERED_ON");
    assert_eq!(PowerState::Suspended.wire_name(), "SUSPENDED");
    assert_eq!(PowerAction::Shutdown.wire_name(), "shutdown");
    assert_eq!(PowerAction::Reboot.wire_name(), "reboot");
    assert_eq!(PowerAction::Standby.wire_name(), "standby");
    assert_eq!(PowerAction::Start.wire_name(), "start");
}

#[test]
fn full_pass_over_a_shutdown_plan() {
    // End to end over the verified pieces: decode an inventory, build the
    // plan, run the pass, read the report.
    let body = r#"[
        {"name": "one", "power_state": "POWERED_ON", "vm": "vm-1"},
        {"name": "two", "power_state": "POWERED_ON", "vm": "vm-2"},
        {"name": "three", "power_state": "POWERED_OFF", "vm": "vm-3"}
    ]"#;
    let listing = decode_inventory(body);
    let vms = listing.as_ref().unwrap();
    let plan = build_plan(RunMode::Shutdown, vms, &DesiredStates::new());
    let groups = vec![plan];
    let mut pass = EnginePass::begin(listing, groups, FailurePolicy::BestEffort).unwrap();
    let mut dispatched = 0;
    while let Some((_, i)) = pass.next_dispatch() {
        pass.record_outcome(i, true, None);
        dispatched += 1;
    }
    assert!(pass.try_advance());
    assert!(pass.is_complete());
    assert_eq!(dispatched, 2);
    let outs = pass.outcomes_so_far();
    assert_eq!(outs.len(), 2);
    assert_eq!(outs[0].vm_id, "vm-1");
    assert_eq!(outs[1].vm_id, "vm-2");
    assert!(outs.iter().all(|o| o.success));
}

#[test]
fn summary_counts_successes_and_failures() {
    let outcomes = vec![
        ActionOutcome {
            vm_id: String::from("vm-1"),
            requested_action: PowerAction::Shutdown,
            success: true,
            error: None,
        },
        ActionOutcome {
            vm_id: String::from("vm-2"),
            requested_action: PowerAction::Shutdown,
            success: false,
            error: Some(ErrorKind::Timeout),
        },
        ActionOutcome {
            vm_id: String::from("vm-3"),
            requested_action: PowerAction::Start,
            success: true,
            error: None,
        },
    ];
    assert_eq!(vmfleet::engine::summarize(&outcomes), (2, 1));
    let none: Vec<ActionOutcome> = Vec::new();
    assert_eq!(vmfleet::engine::summarize(&none), (0, 0));
}

#[test]
fn engine_statuses_are_observable() {
    // The status table itself is public state: check the terminal marking.
    let groups = vec![vec![planned("vm-1", PowerAction::Shutdown)]];
    let mut pass = EnginePass::new(groups, FailurePolicy::BestEffort);
    assert!(matches!(pass.status[0][0], VmStatus::Pending));
    let (_, i) = pass.next_dispatch().unwrap();
    assert!(matches!(pass.status[0][i], VmStatus::ActionIssued));
    pass.record_outcome(i, false, Some(ErrorKind::Rejected));
    assert!(matches!(pass.status[0][i], VmStatus::Failed));
}
