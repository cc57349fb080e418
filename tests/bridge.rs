use wrpc_dynamic::bridge::{call_start, call_step, CallEvent, CallFailure, CallState};

fn run(events: &[CallEvent], declared: usize, slots: usize) -> CallState {
    let mut s = call_start();
    for e in events {
        s = call_step(s, *e, declared, slots);
    }
    s
}

#[test]
fn call_completes_after_results_and_completion() {
    let events = [
        CallEvent::ParamsConverted(true),
        CallEvent::Invoked { ok: true, results: 2 },
        CallEvent::ResultConverted(true),
    ];
    assert_eq!(run(&events, 2, 2), CallState::ConvertingResults { next: 1, total: 2 });
    let events = [
        CallEvent::ParamsConverted(true),
        CallEvent::Invoked { ok: true, results: 2 },
        CallEvent::ResultConverted(true),
        CallEvent::ResultConverted(true),
    ];
    assert_eq!(run(&events, 2, 2), CallState::AwaitingCompletion);
    let mut all = events.to_vec();
    all.push(CallEvent::Completed(true));
    assert_eq!(run(&all, 2, 2), CallState::Done);
}

#[test]
fn call_without_results_still_awaits_completion() {
    let events = [CallEvent::ParamsConverted(true), CallEvent::Invoked { ok: true, results: 0 }];
    assert_eq!(run(&events, 0, 0), CallState::AwaitingCompletion);
    let events = [
        CallEvent::ParamsConverted(true),
        CallEvent::Invoked { ok: true, results: 3 },
    ];
    assert_eq!(run(&events, 0, 0), CallState::AwaitingCompletion);
}

#[test]
fn call_failures_propagate() {
    assert_eq!(
        run(&[CallEvent::ParamsConverted(false), CallEvent::Completed(true)], 1, 1),
        CallState::Failed(CallFailure::Conversion)
    );
    assert_eq!(
        run(&[CallEvent::ParamsConverted(true), CallEvent::Invoked { ok: false, results: 0 }], 1, 1),
        CallState::Failed(CallFailure::Invocation)
    );
    let events = [
        CallEvent::ParamsConverted(true),
        CallEvent::Invoked { ok: true, results: 2 },
        CallEvent::ResultConverted(true),
        CallEvent::ResultConverted(true),
    ];
    assert_eq!(run(&events, 2, 1), CallState::Failed(CallFailure::ResultSlots));
    let events = [
        CallEvent::ParamsConverted(true),
        CallEvent::Invoked { ok: true, results: 1 },
        CallEvent::ResultConverted(false),
    ];
    assert_eq!(run(&events, 1, 1), CallState::Failed(CallFailure::Conversion));
    let events = [
        CallEvent::ParamsConverted(true),
        CallEvent::Invoked { ok: true, results: 0 },
        CallEvent::Completed(false),
    ];
    assert_eq!(run(&events, 0, 0), CallState::Failed(CallFailure::Transmission));
}

#[test]
fn unexpected_event_leaves_state() {
    assert_eq!(run(&[CallEvent::Completed(true)], 0, 0), CallState::ConvertingParams);
}
