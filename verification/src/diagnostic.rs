//! What is reported of listeners that failed: one diagnostic each, with the
//! failure's trace as text.

use vstd::prelude::*;
use vstd::string::StringExecFns;

verus! {

/// How the call of one listener ended: the trace of its failure, or nothing
/// where it returned.
pub struct CallOutcome {
    pub handle: u64,
    pub failure: Option<String>,
}

/// A listener failed while an event was delivered to it.
pub struct ListenerInvocationFailed {
    pub handle: u64,
    pub trace: String,
}

/// The diagnostics of a publication: one for each failed call, in calling
/// order.
pub open spec fn failures_of(outcomes: Seq<CallOutcome>) -> Seq<ListenerInvocationFailed>
    decreases outcomes.len(),
{
    if outcomes.len() == 0 {
        Seq::empty()
    } else {
        let rest = failures_of(outcomes.drop_last());
        match outcomes.last().failure {
            Some(trace) => rest.push(
                (ListenerInvocationFailed { handle: outcomes.last().handle, trace }),
            ),
            None => rest,
        }
    }
}

/// The lines of a trace, one behind the other.
pub open spec fn joined(lines: Seq<String>) -> Seq<char>
    decreases lines.len(),
{
    if lines.len() == 0 {
        Seq::empty()
    } else {
        joined(lines.drop_last()) + lines.last()@
    }
}

/// The text that stands for a trace that could not be had.
pub open spec fn missing_trace() -> Seq<char> {
    "<Failed to retrieve traceback>"@
}

/// The text of a diagnostic: the lines of the trace joined, or the stand-in
/// where the host gave no lines.
pub fn trace_text(lines: Option<Vec<String>>) -> (text: String)
    ensures
        text@ == match lines {
            Some(found) => joined(found@),
            None => missing_trace(),
        },
{
    match lines {
        Some(found) => {
            let mut text = String::new();
            let mut i: usize = 0;
            while i < found.len()
                invariant
                    i <= found.len(),
                    text@ == joined(found@.take(i as int)),
                decreases found.len() - i,
            {
                proof {
                    assert(found@.take(i as int + 1).drop_last() =~= found@.take(i as int));
                }
                text.append(found[i].as_str());
                i += 1;
            }
            proof {
                assert(found@.take(i as int) =~= found@);
            }
            text
        },
        None => String::from_str("<Failed to retrieve traceback>"),
    }
}

/// Gathers the failures of a publication. A failed call is reported and
/// nothing more: the calls behind it were made all the same.
pub fn collect_failures(outcomes: Vec<CallOutcome>) -> (failures: Vec<ListenerInvocationFailed>)
    ensures
        failures@ == failures_of(outcomes@),
        failures@.len() <= outcomes@.len(),
{
    let mut failures: Vec<ListenerInvocationFailed> = Vec::new();
    let ghost all = outcomes@;
    let mut rest = outcomes;
    let mut taken: Vec<ListenerInvocationFailed> = Vec::new();
    // The outcomes are taken from the back, so the failures come out reversed
    // and are turned round below.
    while rest.len() > 0
        invariant
            rest@.len() <= all.len(),
            rest@ == all.take(rest@.len() as int),
            taken@.len() <= all.len() - rest@.len(),
            failures_of(all) == failures_of(rest@) + taken@.reverse(),
        decreases rest.len(),
    {
        let ghost before = rest@;
        let ghost taken_before = taken@;
        let outcome = rest.pop().unwrap();
        proof {
            assert(rest@ =~= before.drop_last());
            assert(rest@ =~= all.take(rest@.len() as int));
        }
        match outcome.failure {
            Some(trace) => {
                taken.push(ListenerInvocationFailed { handle: outcome.handle, trace });
                proof {
                    let item = taken@[taken@.len() - 1];
                    assert(taken@.reverse() =~= seq![item] + taken_before.reverse());
                    assert(failures_of(before) == failures_of(rest@).push(item));
                    assert(failures_of(rest@).push(item) + taken_before.reverse() =~= failures_of(
                        rest@,
                    ) + taken@.reverse());
                }
            },
            None => {},
        }
    }
    assert(failures_of(rest@) =~= Seq::<ListenerInvocationFailed>::empty());
    while taken.len() > 0
        invariant
            failures@ + taken@.reverse() == failures_of(all),
            failures@.len() + taken@.len() <= all.len(),
        decreases taken.len(),
    {
        let ghost taken_before = taken@;
        let ghost failures_before = failures@;
        let item = taken.pop().unwrap();
        failures.push(item);
        proof {
            assert(taken@ =~= taken_before.drop_last());
            assert(taken_before.reverse() =~= seq![taken_before.last()] + taken@.reverse());
            assert(failures@ + taken@.reverse() =~= failures_before + taken_before.reverse());
        }
    }
    proof {
        assert(failures@ + taken@.reverse() =~= failures@);
    }
    failures
}

} // verus!
