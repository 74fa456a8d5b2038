use memhold::api::{
    bad_request, meminfo, memhold, not_a_number_error, out_of_range_error, refuse, report_hold,
    report_info, Action, Amount, ErrorBody, HoldBody, HoldReply, Status,
};
use memhold::mem::{current_state, set_memory, HoldOutcome, MemState};

fn amount(gib: f64) -> Option<Amount> {
    Some(Amount { bits: gib.to_bits(), text: gib.to_string() })
}

fn held(reply: (Status, HoldReply)) -> HoldBody {
    assert_eq!(reply.0, Status::Success);
    match reply.1 {
        HoldReply::Held(body) => body,
        HoldReply::Refused(body) => panic!("refused: {}", body.error),
    }
}

fn refused(reply: (Status, HoldReply)) -> ErrorBody {
    assert_eq!(reply.0, Status::BadRequest);
    match reply.1 {
        HoldReply::Held(_) => panic!("held"),
        HoldReply::Refused(body) => body,
    }
}

#[test]
fn status_codes() {
    assert_eq!(Status::Success.code(), 200);
    assert_eq!(Status::BadRequest.code(), 400);
}

#[test]
fn holds_a_fraction_of_a_gib() {
    let mut state = MemState::new();
    let body = held(memhold(&mut state, "0.001", amount(0.001)));
    assert!(body.ok && body.holding && !body.degraded);
    assert_eq!(body.action, Action::Allocated);
    assert_eq!(body.requested_gib, 0.001f64.to_bits());
    assert_eq!(body.requested_bytes, 1_073_741);
    assert_eq!(body.target_bytes, 1_073_741);
    assert_eq!(body.held_bytes, 1_073_741);
    assert_eq!(body.held_mib, 1);
    assert_eq!(body.time.len(), 19);
    assert_eq!(current_state(&state), (1_073_741, 1_073_741));
}

#[test]
fn zero_releases_and_then_does_nothing() {
    let mut state = MemState::new();
    set_memory(&mut state, 100);
    let first = held(memhold(&mut state, "0", amount(0.0)));
    assert_eq!((first.action, first.holding, first.held_bytes), (Action::Released, false, 0));
    let second = held(memhold(&mut state, "-0", amount(-0.0)));
    assert_eq!((second.action, second.degraded, second.requested_bytes), (Action::Noop, false, 0));
}

#[test]
fn what_is_no_number_is_refused() {
    let mut state = MemState::new();
    set_memory(&mut state, 100);
    let body = refused(memhold(&mut state, "a\"b\n", None));
    assert!(!body.ok);
    assert_eq!(body.error, "gb 不是合法数字: \"a\\\"b\\n\"");
    assert_eq!(body.max_gib, 6);
    assert_eq!(body.time.len(), 19);
    assert_eq!(current_state(&state), (100, 100));
}

#[test]
fn numbers_out_of_range_are_refused() {
    for (gib, shown) in [
        (6.5, "6.5"),
        (-1.0, "-1"),
        (f64::NAN, "NaN"),
        (f64::INFINITY, "inf"),
        (f64::NEG_INFINITY, "-inf"),
    ] {
        let mut state = MemState::new();
        set_memory(&mut state, 100);
        let body = refused(memhold(&mut state, shown, amount(gib)));
        assert_eq!(body.error, format!("gb 必须是 0 ~ 6 之间的数字（单位 GiB），收到 {}", shown));
        assert_eq!(current_state(&state), (100, 100));
    }
}

#[test]
fn refusing_needs_no_state() {
    assert!(refuse("6", &amount(6.0)).is_none());
    assert!(refuse("0", &amount(0.0)).is_none());
    let (status, body) = refuse("abc", &None).unwrap();
    assert_eq!(status, Status::BadRequest);
    assert_eq!((body.ok, body.error.as_str(), body.max_gib), (false, "gb 不是合法数字: \"abc\"", 6));
    let (status, body) = refuse("7", &amount(7.0)).unwrap();
    assert_eq!(status, Status::BadRequest);
    assert_eq!(body.error, "gb 必须是 0 ~ 6 之间的数字（单位 GiB），收到 7");
}

#[test]
fn refusals_have_one_form() {
    let (status, body) = bad_request("why".to_string());
    assert_eq!(status, Status::BadRequest);
    assert_eq!((body.ok, body.error.as_str(), body.max_gib), (false, "why", 6));
}

#[test]
fn info_reads_back_what_was_set() {
    let mut state = MemState::new();
    let (_, first) = meminfo(&state);
    assert_eq!((first.holding, first.target_bytes, first.held_bytes), (false, 1536 * 1024 * 1024, 0));
    let body = held(memhold(&mut state, "0.002", amount(0.002)));
    let (status, info) = meminfo(&state);
    assert_eq!(status, Status::Success);
    assert_eq!(info.holding, body.holding);
    assert_eq!(info.target_bytes, body.target_bytes);
    assert_eq!(info.held_bytes, body.held_bytes);
    assert_eq!(info.held_mib, 2);
    assert_eq!(info.time.len(), 19);
}

#[test]
fn reports_tell_a_failure_and_a_shortfall() {
    let failed =
        HoldOutcome { holding: false, degraded: true, requested: 9_000_000, held: 0, released: true };
    let body = report_hold(7, &failed, "then".to_string());
    assert_eq!((body.action, body.degraded, body.held_mib), (Action::Failed, true, 0));
    let short = HoldOutcome { holding: true, held: 4_500_000, ..failed };
    let body = report_hold(7, &short, "then".to_string());
    assert_eq!((body.action, body.held_bytes, body.held_mib), (Action::Allocated, 4_500_000, 4));
    assert_eq!((body.requested_gib, body.target_bytes, body.time.as_str()), (7, 9_000_000, "then"));
    let info = report_info(9_000_000, 4_500_000, "then".to_string());
    assert_eq!((info.holding, info.target_bytes, info.held_mib), (true, 9_000_000, 4));
}

#[test]
fn action_names() {
    assert_eq!(Action::Allocated.name(), "allocated");
    assert_eq!(Action::Failed.name(), "failed");
    assert_eq!(Action::Released.name(), "released");
    assert_eq!(Action::Noop.name(), "noop");
}

#[test]
fn error_texts() {
    assert_eq!(not_a_number_error("\"x\""), "gb 不是合法数字: \"x\"");
    assert_eq!(out_of_range_error("9"), "gb 必须是 0 ~ 6 之间的数字（单位 GiB），收到 9");
}
