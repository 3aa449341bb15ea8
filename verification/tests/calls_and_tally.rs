use prestate_rw::json::JsonValue;
use prestate_rw::rpc::{
    after_attempt, debug_probe_attempts, first_step, mode_prestate_attempts, prestate_attempts, trace_params,
    tracer_options, FallbackStep,
};
use prestate_rw::stats::DownloadTally;

fn s(x: &str) -> String {
    x.to_string()
}

fn obj(fields: Vec<(&str, JsonValue)>) -> JsonValue {
    JsonValue::Object(fields.into_iter().map(|(k, v)| (s(k), v)).collect())
}

fn tracer() -> (&'static str, JsonValue) {
    ("tracer", JsonValue::Str(s("prestateTracer")))
}

#[test]
fn tracer_options_with_and_without_diff_mode() {
    assert_eq!(tracer_options(None), obj(vec![tracer()]));
    assert_eq!(
        tracer_options(Some(true)),
        obj(vec![tracer(), ("tracerConfig", obj(vec![("diffMode", JsonValue::Bool(true))]))])
    );
}

#[test]
fn trace_params_are_tag_then_options() {
    assert_eq!(
        trace_params(&s("0xb443"), Some(false)),
        JsonValue::Array(vec![
            JsonValue::Str(s("0xb443")),
            obj(vec![tracer(), ("tracerConfig", obj(vec![("diffMode", JsonValue::Bool(false))]))]),
        ])
    );
}

#[test]
fn prestate_attempts_in_order() {
    let calls = prestate_attempts(&s("0x11b8a5e"));
    let methods: Vec<&str> = calls.iter().map(|c| c.method.as_str()).collect();
    assert_eq!(methods, vec!["debug_traceBlockByNumber", "debug_traceBlock", "debug_traceBlockByNumber"]);
    assert_eq!(calls[0].params, trace_params(&s("0x11b8a5e"), Some(false)));
    assert_eq!(calls[1].params, trace_params(&s("0x11b8a5e"), Some(false)));
    assert_eq!(calls[2].params, trace_params(&s("0x11b8a5e"), None));
}

#[test]
fn mode_attempts_and_probe() {
    let calls = mode_prestate_attempts(&s("0x1"), true);
    assert_eq!(calls.len(), 2);
    assert_eq!(calls[0].method, "debug_traceBlockByNumber");
    assert_eq!(calls[1].method, "debug_traceBlock");
    assert_eq!(calls[1].params, trace_params(&s("0x1"), Some(true)));
    let probe = debug_probe_attempts();
    assert_eq!(probe.len(), 2);
    assert_eq!(probe[0].params, trace_params(&s("0xb443"), None));
    assert_eq!(probe[1].method, "debug_traceBlock");
}

#[test]
fn fallback_tries_in_order_until_an_answer() {
    assert_eq!(first_step(3), FallbackStep::Call(0));
    assert_eq!(first_step(0), FallbackStep::Exhausted);
    assert_eq!(after_attempt(3, 0, false), FallbackStep::Call(1));
    assert_eq!(after_attempt(3, 1, true), FallbackStep::Done(1));
    assert_eq!(after_attempt(3, 2, false), FallbackStep::Exhausted);
    // a run where only the last call answers
    let outcomes = [false, false, true];
    let mut step = first_step(outcomes.len());
    while let FallbackStep::Call(i) = step {
        step = after_attempt(outcomes.len(), i, outcomes[i]);
    }
    assert_eq!(step, FallbackStep::Done(2));
}

#[test]
fn tally_counts_each_block_once() {
    let mut t = DownloadTally::new();
    for ok in [true, false, true, true] {
        t.record(ok);
    }
    assert_eq!(t, DownloadTally { successful: 3, failed: 1 });
}

#[test]
fn json_get_copy_and_counts() {
    let v = obj(vec![("a", JsonValue::Number(s("1"))), ("b", JsonValue::Array(vec![JsonValue::Null]))]);
    assert_eq!(v.get(&s("a")), Some(&JsonValue::Number(s("1"))));
    assert_eq!(v.get(&s("c")), None);
    assert_eq!(JsonValue::Null.get(&s("a")), None);
    assert_eq!(v.copy_value(), v);
    assert_eq!(v.member_count(), 2);
    assert_eq!(JsonValue::Bool(true).member_count(), 0);
    assert!(v.as_object().is_some() && v.as_array().is_none());
}
