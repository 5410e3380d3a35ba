use vstd::prelude::*;

use crate::syntax::{parse_source, source_model, CallEvent, SourceFile};
use crate::text::str_equal;

verus! {

/// Edge representing a cross-contract call.
#[derive(Debug, Clone)]
pub struct ReentrancyEdge {
    pub caller_function: String,
    pub target_contract: String,
    pub target_function: String,
    pub function_expr: Option<String>,
}

/// Method names that call into another contract.
pub open spec fn is_cross_contract_method(method: Seq<char>) -> bool {
    method == "invoke_contract"@ || method == "call"@
}

/// The name of the function the walk is in (the last one begun; empty before any) and the
/// cross-contract calls met so far, each as (caller, call text).
pub open spec fn scan_calls(events: Seq<CallEvent>) -> (Seq<char>, Seq<(Seq<char>, Seq<char>)>)
    decreases events.len(),
{
    if events.len() == 0 {
        (Seq::empty(), Seq::empty())
    } else {
        let (current, edges) = scan_calls(events.drop_last());
        match events.last() {
            CallEvent::Function { name } => (name@, edges),
            CallEvent::MethodCall { method, text } => if is_cross_contract_method(method@) {
                (current, edges.push((current, text@)))
            } else {
                (current, edges)
            },
        }
    }
}

/// The cross-contract calls of a file (none when it did not parse).
pub open spec fn cross_contract_calls(parsed: Option<SourceFile>) -> Seq<(Seq<char>, Seq<char>)> {
    match parsed {
        Some(file) => scan_calls(file.call_events@).1,
        None => Seq::empty(),
    }
}

/// The edge reported for a call with text `call.1` made in the function `call.0`; the
/// target is not resolved.
pub open spec fn is_call_edge(e: ReentrancyEdge, call: (Seq<char>, Seq<char>)) -> bool {
    &&& e.caller_function@ == call.0
    &&& e.target_contract@ == "Unknown"@
    &&& e.target_function@ == "Unknown"@
    &&& e.function_expr matches Some(t) && t@ == call.1
}

/// Lists every `invoke_contract` or `call` method call of the file, in walk order, with the
/// function it was met in.
pub fn scan_invoke_contract_calls(source: &str) -> (edges: Vec<ReentrancyEdge>)
    ensures
        edges@.len() == cross_contract_calls(source_model(source@)).len(),
        forall|k: int|
            0 <= k < edges@.len() ==> is_call_edge(
                #[trigger] edges@[k],
                cross_contract_calls(source_model(source@))[k],
            ),
{
    let parsed = parse_source(source);
    scan_parsed_contract_calls(&parsed)
}

/// The cross-contract call edges of a parsed file, as `scan_invoke_contract_calls` gives them.
pub fn scan_parsed_contract_calls(parsed: &Option<SourceFile>) -> (edges: Vec<ReentrancyEdge>)
    ensures
        edges@.len() == cross_contract_calls(*parsed).len(),
        forall|k: int|
            0 <= k < edges@.len() ==> is_call_edge(
                #[trigger] edges@[k],
                cross_contract_calls(*parsed)[k],
            ),
{
    let mut edges: Vec<ReentrancyEdge> = Vec::new();
    let file = match parsed {
        Some(f) => f,
        None => {
            return edges;
        },
    };
    let events = &file.call_events;
    let mut current_fn = String::new();
    let mut i: usize = 0;
    assert(events@.take(0) =~= Seq::<CallEvent>::empty());
    while i < events.len()
        invariant
            events == &file.call_events,
            i <= events.len(),
            current_fn@ == scan_calls(events@.take(i as int)).0,
            edges@.len() == scan_calls(events@.take(i as int)).1.len(),
            forall|k: int|
                0 <= k < edges@.len() ==> is_call_edge(
                    #[trigger] edges@[k],
                    scan_calls(events@.take(i as int)).1[k],
                ),
        decreases events.len() - i,
    {
        assert(events@.take(i + 1).drop_last() =~= events@.take(i as int));
        match &events[i] {
            CallEvent::Function { name } => {
                current_fn = name.clone();
            },
            CallEvent::MethodCall { method, text } => {
                if str_equal(method.as_str(), "invoke_contract") || str_equal(
                    method.as_str(),
                    "call",
                ) {
                    edges.push(
                        ReentrancyEdge {
                            caller_function: current_fn.clone(),
                            target_contract: String::from_str("Unknown"),
                            target_function: String::from_str("Unknown"),
                            function_expr: Some(text.clone()),
                        },
                    );
                }
            },
        }
        i = i + 1;
    }
    assert(events@.take(events.len() as int) =~= events@);
    edges
}


/// The name of the last function begun in `events` (empty when none was).
pub open spec fn enclosing_function(events: Seq<CallEvent>) -> Seq<char>
    decreases events.len(),
{
    if events.len() == 0 {
        Seq::empty()
    } else {
        match events.last() {
            CallEvent::Function { name } => name@,
            _ => enclosing_function(events.drop_last()),
        }
    }
}

/// The event is a method call named `invoke_contract` or `call`.
pub open spec fn is_contract_call_event(e: CallEvent) -> bool {
    e matches CallEvent::MethodCall { method, .. } && (method@ == "invoke_contract"@ || method@
        == "call"@)
}

/// How many of `events` are `invoke_contract` or `call` method calls.
pub open spec fn contract_call_count(events: Seq<CallEvent>) -> nat
    decreases events.len(),
{
    if events.len() == 0 {
        0
    } else {
        contract_call_count(events.drop_last()) + if is_contract_call_event(events.last()) {
            1nat
        } else {
            0nat
        }
    }
}

proof fn lemma_scan_calls_current(events: Seq<CallEvent>)
    ensures
        scan_calls(events).0 == enclosing_function(events),
    decreases events.len(),
{
    if events.len() > 0 {
        lemma_scan_calls_current(events.drop_last());
    }
}

/// Each further event of the walk adds exactly one edge when it is an `invoke_contract` or
/// `call` method call, carrying the function last begun and the call's text, and no edge
/// otherwise; the edges found before stay as they were. So a second call in the same function
/// gets its own edge.
pub proof fn law_each_contract_call_adds_one_edge(events: Seq<CallEvent>, e: CallEvent)
    ensures
        scan_calls(events.push(e)).1 == scan_calls(events).1 + match e {
            CallEvent::MethodCall { method, text } => if method@ == "invoke_contract"@ || method@
                == "call"@ {
                seq![(enclosing_function(events), text@)]
            } else {
                Seq::empty()
            },
            _ => Seq::empty(),
        },
{
    lemma_scan_calls_current(events);
    assert(events.push(e).drop_last() =~= events);
    assert(events.push(e).last() == e);
    match e {
        CallEvent::MethodCall { method, text } => {
            if method@ == "invoke_contract"@ || method@ == "call"@ {
                assert(scan_calls(events).1.push((enclosing_function(events), text@)) =~= scan_calls(
                    events,
                ).1 + seq![(enclosing_function(events), text@)]);
            } else {
                assert(scan_calls(events).1 =~= scan_calls(events).1 + Seq::empty());
            }
        },
        _ => {
            assert(scan_calls(events).1 =~= scan_calls(events).1 + Seq::empty());
        },
    }
}

/// There are exactly as many edges as `invoke_contract` and `call` method calls in the walk.
pub proof fn law_one_edge_per_contract_call(events: Seq<CallEvent>)
    ensures
        scan_calls(events).1.len() == contract_call_count(events),
    decreases events.len(),
{
    if events.len() > 0 {
        let prev = events.drop_last();
        law_one_edge_per_contract_call(prev);
        law_each_contract_call_adds_one_edge(prev, events.last());
        assert(prev.push(events.last()) =~= events);
    }
}

} // verus!
