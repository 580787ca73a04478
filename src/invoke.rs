//! The outcome of one text invocation: the payload handed to the guest, and
//! how the guest's answer, the panic message it may have reported and the
//! decoding of its output make the result.
use vstd::prelude::*;
use crate::codec::{decode_text, encode_text, text_of_bytes, text_wire};
use crate::host::{call_model, host_op, HostOp, HostState};
use crate::kv::EntryView;

verus! {

/// Why an invocation failed.
#[derive(Debug)]
pub enum InvocationError {
    /// The guest's output does not decode into a string.
    InvalidTextOutput,
    /// The guest failed or reported a panic; the text says why.
    ExecutionError(String),
    /// The guest module could not be loaded or wired to the host.
    HostInitializationError(String),
}

/// An `InvocationError` as contracts see it.
pub enum InvocationErrorView {
    InvalidTextOutput,
    ExecutionError(Seq<char>),
    HostInitializationError(Seq<char>),
}

pub open spec fn error_view(e: InvocationError) -> InvocationErrorView {
    match e {
        InvocationError::InvalidTextOutput => InvocationErrorView::InvalidTextOutput,
        InvocationError::ExecutionError(m) => InvocationErrorView::ExecutionError(m@),
        InvocationError::HostInitializationError(m) => InvocationErrorView::HostInitializationError(
            m@,
        ),
    }
}

pub open spec fn raw_view(raw: Result<Vec<u8>, String>) -> Result<Seq<u8>, Seq<char>> {
    match raw {
        Ok(b) => Ok(b@),
        Err(m) => Err(m@),
    }
}

pub open spec fn bytes_result_view(r: Result<Vec<u8>, InvocationError>) -> Result<
    Seq<u8>,
    InvocationErrorView,
> {
    match r {
        Ok(b) => Ok(b@),
        Err(e) => Err(error_view(e)),
    }
}

pub open spec fn text_result_view(r: Result<String, InvocationError>) -> Result<
    Seq<char>,
    InvocationErrorView,
> {
    match r {
        Ok(s) => Ok(s@),
        Err(e) => Err(error_view(e)),
    }
}

/// A reported panic fails the call whatever the guest returned; otherwise
/// the guest's own answer stands.
pub open spec fn guest_outcome_model(
    raw: Result<Seq<u8>, Seq<char>>,
    panic: Option<Seq<char>>,
) -> Result<Seq<u8>, InvocationErrorView> {
    match panic {
        Some(m) => Err(InvocationErrorView::ExecutionError(m)),
        None => match raw {
            Ok(b) => Ok(b),
            Err(e) => Err(InvocationErrorView::ExecutionError(e)),
        },
    }
}

pub open spec fn text_output_model(decoded: Option<Seq<char>>) -> Result<
    Seq<char>,
    InvocationErrorView,
> {
    match decoded {
        Some(s) => Ok(s),
        None => Err(InvocationErrorView::InvalidTextOutput),
    }
}

/// The result of a text invocation.
pub open spec fn text_model(raw: Result<Seq<u8>, Seq<char>>, panic: Option<Seq<char>>) -> Result<
    Seq<char>,
    InvocationErrorView,
> {
    match guest_outcome_model(raw, panic) {
        Ok(b) => text_output_model(text_of_bytes(b)),
        Err(e) => Err(e),
    }
}

/// Encodes the text handed to the guest's `"text"` entry point.
pub fn encode_text_payload(payload: &str) -> (r: Vec<u8>)
    ensures
        r@ == text_wire(payload@),
{
    encode_text(payload)
}

/// Combines what the guest runtime returned with the panic message that the
/// guest reported during the call, if any.
pub fn guest_outcome(raw: Result<Vec<u8>, String>, panic: Option<String>) -> (r: Result<
    Vec<u8>,
    InvocationError,
>)
    ensures
        bytes_result_view(r) == guest_outcome_model(
            raw_view(raw),
            crate::host::opt_text_view(panic),
        ),
{
    match panic {
        Some(m) => Err(InvocationError::ExecutionError(m)),
        None => match raw {
            Ok(b) => Ok(b),
            Err(e) => Err(InvocationError::ExecutionError(e)),
        },
    }
}

/// Turns the decoded output of the guest into the invocation's result.
pub fn text_output(decoded: Option<String>) -> (r: Result<String, InvocationError>)
    ensures
        text_result_view(r) == text_output_model(crate::host::opt_text_view(decoded)),
{
    match decoded {
        Some(s) => Ok(s),
        None => Err(InvocationError::InvalidTextOutput),
    }
}

/// Decodes the guest's output bytes as a string.
pub fn decode_text_output(b: &[u8]) -> (r: Result<String, InvocationError>)
    ensures
        text_result_view(r) == text_output_model(text_of_bytes(b@)),
{
    text_output(decode_text(b))
}

impl HostState {
    /// Starts a text invocation: clears the panic message left by any
    /// earlier invocation and encodes the input for the guest.
    pub fn start_text(&mut self, payload: &str) -> (r: Vec<u8>)
        ensures
            final(self).panic is None,
            final(self).store == old(self).store,
            r@ == text_wire(payload@),
    {
        self.begin_invocation();
        encode_text_payload(payload)
    }

    /// The result of a text invocation, from what the guest runtime returned
    /// and the panic message recorded during the call.
    pub fn finish_text(&self, raw: Result<Vec<u8>, String>) -> (r: Result<String, InvocationError>)
        ensures
            text_result_view(r) == text_model(raw_view(raw), self.panic_view()),
    {
        let panic = self.panic_info();
        match guest_outcome(raw, panic) {
            Ok(b) => decode_text_output(b.as_slice()),
            Err(e) => Err(e),
        }
    }
}

/// The panic message and store after a sequence of host calls, each given
/// as (namespace, operation, payload).
pub open spec fn run_calls(
    panic: Option<Seq<char>>,
    store: Seq<EntryView>,
    calls: Seq<(Seq<char>, Seq<char>, Seq<u8>)>,
) -> (Option<Seq<char>>, Seq<EntryView>)
    decreases calls.len(),
{
    if calls.len() == 0 {
        (panic, store)
    } else {
        let before = run_calls(panic, store, calls.drop_last());
        let c = calls.last();
        let after = call_model(before.0, before.1, c.0, c.1, c.2);
        (after.0, after.1)
    }
}

pub open spec fn reports_no_panic(calls: Seq<(Seq<char>, Seq<char>, Seq<u8>)>) -> bool {
    forall|i: int| 0 <= i < calls.len() ==> host_op(calls[i].0, calls[i].1) != Some(HostOp::Panic)
}

proof fn lemma_no_panic_kept(
    store: Seq<EntryView>,
    calls: Seq<(Seq<char>, Seq<char>, Seq<u8>)>,
)
    requires
        reports_no_panic(calls),
    ensures
        run_calls(None, store, calls).0 is None,
    decreases calls.len(),
{
    if calls.len() > 0 {
        let d = calls.drop_last();
        assert forall|i: int| 0 <= i < d.len() implies host_op(d[i].0, d[i].1) != Some(
            HostOp::Panic,
        ) by {
            assert(d[i] == calls[i]);
        }
        lemma_no_panic_kept(store, d);
        assert(calls.last() == calls[calls.len() - 1]);
    }
}

/// Panic isolation: each invocation starts with the panic message cleared
/// (`begin_invocation`). So when one invocation's guest reported a panic and
/// the next one's guest reports none, the next one's result is what its own
/// guest returned: the earlier message does not reach it.
pub proof fn law_panic_isolation(
    store: Seq<EntryView>,
    first_calls: Seq<(Seq<char>, Seq<char>, Seq<u8>)>,
    next_calls: Seq<(Seq<char>, Seq<char>, Seq<u8>)>,
    next_raw: Result<Seq<u8>, Seq<char>>,
)
    requires
        reports_no_panic(next_calls),
    ensures
        ({
            let after_first = run_calls(None, store, first_calls);
            let after_next = run_calls(None, after_first.1, next_calls);
            &&& after_next.0 is None
            &&& text_model(next_raw, after_next.0) == match next_raw {
                Ok(b) => text_output_model(text_of_bytes(b)),
                Err(e) => Err(InvocationErrorView::ExecutionError(e)),
            }
        }),
{
    let after_first = run_calls(None, store, first_calls);
    lemma_no_panic_kept(after_first.1, next_calls);
}

} // verus!
