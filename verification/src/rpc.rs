//! The debug-API calls that fetch a block's pre-state, and the order in which
//! they are tried: each in turn until one answers.
use vstd::prelude::*;
use crate::json::{JsonValue, JsonModel, fields_model, items_model, push_member, object_of, array_of};

verus! {

/// A JSON-RPC call: the method name and its parameters.
#[derive(Debug)]
pub struct RpcCall {
    pub method: String,
    pub params: JsonValue,
}

/// The tracer options: the pre-state tracer, with `diffMode` set where given.
pub open spec fn tracer_options_model(diff_mode: Option<bool>) -> JsonModel {
    match diff_mode {
        Some(b) => JsonModel::Object(
            seq![
                ("tracer"@, JsonModel::Str("prestateTracer"@)),
                ("tracerConfig"@, JsonModel::Object(seq![("diffMode"@, JsonModel::Bool(b))])),
            ],
        ),
        None => JsonModel::Object(seq![("tracer"@, JsonModel::Str("prestateTracer"@))]),
    }
}

/// The parameters of a trace call: the block tag, then the tracer options.
pub open spec fn trace_params_model(block_tag: Seq<char>, diff_mode: Option<bool>) -> JsonModel {
    JsonModel::Array(seq![JsonModel::Str(block_tag), tracer_options_model(diff_mode)])
}

/// A trace call by its method and the model of its parameters.
pub open spec fn call_is(c: RpcCall, method: Seq<char>, params: JsonModel) -> bool {
    c.method@ == method && c.params.model() == params
}

/// The tracer options (see `tracer_options_model`).
pub fn tracer_options(diff_mode: Option<bool>) -> (r: JsonValue)
    ensures
        r.model() == tracer_options_model(diff_mode),
{
    let mut fields: Vec<(String, JsonValue)> = Vec::new();
    push_member(&mut fields, "tracer", JsonValue::Str("prestateTracer".to_owned()));
    match diff_mode {
        Some(b) => {
            let mut config: Vec<(String, JsonValue)> = Vec::new();
            push_member(&mut config, "diffMode", JsonValue::Bool(b));
            assert(fields_model(config@) =~= seq![("diffMode"@, JsonModel::Bool(b))]);
            push_member(&mut fields, "tracerConfig", object_of(config));
        },
        None => {},
    }
    assert(fields_model(fields@) =~= tracer_options_model(diff_mode)->Object_0);
    object_of(fields)
}

/// The parameters of a trace call (see `trace_params_model`).
pub fn trace_params(block_tag: &String, diff_mode: Option<bool>) -> (r: JsonValue)
    ensures
        r.model() == trace_params_model(block_tag@, diff_mode),
{
    let mut items: Vec<JsonValue> = Vec::new();
    items.push(JsonValue::Str(block_tag.clone()));
    items.push(tracer_options(diff_mode));
    assert(items_model(items@) =~= trace_params_model(block_tag@, diff_mode)->Array_0);
    array_of(items)
}

fn trace_call(method: &str, block_tag: &String, diff_mode: Option<bool>) -> (r: RpcCall)
    ensures
        call_is(r, method@, trace_params_model(block_tag@, diff_mode)),
{
    RpcCall { method: method.to_owned(), params: trace_params(block_tag, diff_mode) }
}

/// The calls that fetch a block's pre-state, in the order they are tried:
/// `debug_traceBlockByNumber` and `debug_traceBlock` with `diffMode: false`,
/// then `debug_traceBlockByNumber` with the tracer alone.
pub fn prestate_attempts(block_tag: &String) -> (r: Vec<RpcCall>)
    ensures
        r@.len() == 3,
        call_is(
            r@[0],
            "debug_traceBlockByNumber"@,
            trace_params_model(block_tag@, Some(false)),
        ),
        call_is(r@[1], "debug_traceBlock"@, trace_params_model(block_tag@, Some(false))),
        call_is(r@[2], "debug_traceBlockByNumber"@, trace_params_model(block_tag@, None)),
{
    let mut calls: Vec<RpcCall> = Vec::new();
    calls.push(trace_call("debug_traceBlockByNumber", block_tag, Some(false)));
    calls.push(trace_call("debug_traceBlock", block_tag, Some(false)));
    calls.push(trace_call("debug_traceBlockByNumber", block_tag, None));
    calls
}

/// The calls that fetch a block's pre-state in the given diff mode, in the
/// order they are tried: `debug_traceBlockByNumber`, then `debug_traceBlock`.
pub fn mode_prestate_attempts(block_tag: &String, diff_mode: bool) -> (r: Vec<RpcCall>)
    ensures
        r@.len() == 2,
        call_is(
            r@[0],
            "debug_traceBlockByNumber"@,
            trace_params_model(block_tag@, Some(diff_mode)),
        ),
        call_is(r@[1], "debug_traceBlock"@, trace_params_model(block_tag@, Some(diff_mode))),
{
    let mut calls: Vec<RpcCall> = Vec::new();
    calls.push(trace_call("debug_traceBlockByNumber", block_tag, Some(diff_mode)));
    calls.push(trace_call("debug_traceBlock", block_tag, Some(diff_mode)));
    calls
}

/// The calls that probe whether the debug API is there, in the order they are
/// tried: both trace methods on block `0xb443` with the pre-state tracer.
pub fn debug_probe_attempts() -> (r: Vec<RpcCall>)
    ensures
        r@.len() == 2,
        call_is(r@[0], "debug_traceBlockByNumber"@, trace_params_model("0xb443"@, None)),
        call_is(r@[1], "debug_traceBlock"@, trace_params_model("0xb443"@, None)),
{
    let tag = "0xb443".to_owned();
    let mut calls: Vec<RpcCall> = Vec::new();
    calls.push(trace_call("debug_traceBlockByNumber", &tag, None));
    calls.push(trace_call("debug_traceBlock", &tag, None));
    calls
}

/// Where trying a list of calls in turn stands.
#[derive(Debug, Clone, Copy, PartialEq, Eq)]
pub enum FallbackStep {
    /// Make the call at this position next.
    Call(usize),
    /// The call at this position answered: its answer is the result.
    Done(usize),
    /// Every call failed.
    Exhausted,
}

/// The first step for a list of `count` calls.
pub open spec fn spec_first_step(count: nat) -> FallbackStep {
    if count > 0 {
        FallbackStep::Call(0)
    } else {
        FallbackStep::Exhausted
    }
}

/// The step after the call at `attempt` answered (`succeeded`) or failed.
pub open spec fn spec_after_attempt(count: nat, attempt: nat, succeeded: bool) -> FallbackStep {
    if succeeded {
        FallbackStep::Done(attempt as usize)
    } else if attempt + 1 < count {
        FallbackStep::Call((attempt + 1) as usize)
    } else {
        FallbackStep::Exhausted
    }
}

/// Where trying calls from position `i` on ends, given whether each answers.
pub open spec fn fallback_outcome(outcomes: Seq<bool>, i: nat) -> FallbackStep
    decreases outcomes.len() - i,
{
    if i >= outcomes.len() {
        FallbackStep::Exhausted
    } else if outcomes[i as int] {
        FallbackStep::Done(i as usize)
    } else {
        fallback_outcome(outcomes, i + 1)
    }
}

/// The first step for a list of `count` calls: the first call, or nothing to do.
pub fn first_step(count: usize) -> (r: FallbackStep)
    ensures
        r == spec_first_step(count as nat),
{
    if count > 0 {
        FallbackStep::Call(0)
    } else {
        FallbackStep::Exhausted
    }
}

/// The step after the call at `attempt` of `count` answered or failed: an
/// answer ends the search with that call; a failure moves on to the next call,
/// or ends it with nothing where that was the last.
pub fn after_attempt(count: usize, attempt: usize, succeeded: bool) -> (r: FallbackStep)
    requires
        attempt < count,
    ensures
        r == spec_after_attempt(count as nat, attempt as nat, succeeded),
{
    if succeeded {
        FallbackStep::Done(attempt)
    } else if attempt + 1 < count {
        FallbackStep::Call(attempt + 1)
    } else {
        FallbackStep::Exhausted
    }
}

/// Each step of the search keeps where it ends: after the call at `i`, the next
/// call is the one at `i + 1` and the search ends where it would have from `i`;
/// any other step is already that end.
pub proof fn law_fallback_step_keeps_outcome(outcomes: Seq<bool>, i: nat)
    requires
        i < outcomes.len() < usize::MAX,
    ensures
        match spec_after_attempt(outcomes.len(), i, outcomes[i as int]) {
            FallbackStep::Call(j) => j == i + 1 && fallback_outcome(outcomes, j as nat)
                == fallback_outcome(outcomes, i),
            s => s == fallback_outcome(outcomes, i),
        },
{
    reveal_with_fuel(fallback_outcome, 2);
}

/// The search starts at the first call and ends where `fallback_outcome` from
/// the start says.
pub proof fn law_fallback_start(outcomes: Seq<bool>)
    requires
        outcomes.len() < usize::MAX,
    ensures
        match spec_first_step(outcomes.len()) {
            FallbackStep::Call(j) => j == 0,
            s => s == fallback_outcome(outcomes, 0),
        },
{
}

/// The search ends with the first call that answers, and with nothing only
/// where no call answers.
pub proof fn law_fallback_first_answer_wins(outcomes: Seq<bool>, i: nat)
    requires
        outcomes.len() <= usize::MAX,
    ensures
        match fallback_outcome(outcomes, i) {
            FallbackStep::Done(k) => i <= k < outcomes.len() && outcomes[k as int] && forall|j: int|
                i <= j < k ==> !outcomes[j],
            FallbackStep::Exhausted => forall|j: int| i <= j < outcomes.len() ==> !outcomes[j],
            FallbackStep::Call(_) => false,
        },
    decreases outcomes.len() - i,
{
    if i < outcomes.len() && !outcomes[i as int] {
        law_fallback_first_answer_wins(outcomes, i + 1);
    }
}

} // verus!
