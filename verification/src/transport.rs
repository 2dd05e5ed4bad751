use vstd::prelude::*;

use std::collections::VecDeque;


use crate::error::ParseError;
use crate::ids::{IdView, RequestId};
use crate::keyed::{find_by_key, lemma_find_at, lemma_find_push, lemma_find_remove, lemma_find_update, unique_keys, Keyed};

verus! {

/// A message between a client and a language server.
pub enum Message<Q, P> {
    /// A response message.
    Response(P),
    /// A request or notification message.
    Request(Q),
}

/// The language server has exited: it can be called no more.
#[derive(Debug, Clone, Copy, PartialEq, Eq, Structural)]
pub struct ExitedError;

impl Default for ExitedError {
    fn default() -> (r: Self)
        ensures
            r == ExitedError,
    {
        ExitedError
    }
}

impl ExitedError {
    /// The message of the error.
    pub fn to_string(&self) -> (r: String)
        ensures
            r@ == "language server has exited"@,
    {
        "language server has exited".to_owned()
    }

    /// The JSON-RPC server error code that reports the error to a client.
    pub fn jsonrpc_code(&self) -> (r: i64)
        ensures
            r == -333444,
    {
        -333444
    }

    /// The error for a failed send: the server has exited when the channel
    /// to it is disconnected. A full channel or an unknown id cannot reach
    /// here: the caller waits until the channel is free, and only responses
    /// carry ids.
    pub fn from_send_error(value: &SendError) -> (r: ExitedError)
        requires
            value is Disconnected,
        ensures
            r == ExitedError,
    {
        ExitedError
    }
}

/// Why a message could not be passed on.
#[derive(Debug, Clone)]
pub enum SendError {
    Full,
    Disconnected,
    UnknownId(RequestId),
}

impl SendError {
    /// The error of a channel that refused a message: full, or else
    /// disconnected.
    pub fn from_channel(is_full: bool) -> (r: SendError)
        ensures
            is_full <==> r is Full,
            !is_full <==> r is Disconnected,
    {
        if is_full {
            SendError::Full
        } else {
            SendError::Disconnected
        }
    }

    /// The message of the error.
    pub fn to_string(&self) -> (r: String)
        ensures
            r@ == "SendError: "@,
    {
        "SendError: ".to_owned()
    }
}

/// The requests waiting for a response under one id, oldest first.
pub struct PendingEntry<T> {
    id: RequestId,
    waiting: VecDeque<T>,
}

impl<T> PendingEntry<T> {
    pub closed spec fn id_view(self) -> IdView {
        self.id@
    }
}

impl<T> Keyed<IdView> for PendingEntry<T> {
    open spec fn key(&self) -> IdView {
        self.id_view()
    }
}

/// The requests sent to a language server that wait for its response,
/// grouped by request id; each waits through the item `T` that completes
/// it (the sending end of a one-shot channel).
pub struct Pending<T> {
    entries: Vec<PendingEntry<T>>,
}

impl<T> Pending<T> {
    /// Well-formed: one group per id, none empty, none for the null id.
    pub closed spec fn wf(self) -> bool {
        &&& unique_keys(self.entries@)
        &&& forall|i: int| 0 <= i < self.entries@.len() ==> (#[trigger] self.entries@[i]).waiting@.len() > 0
        &&& forall|i: int| 0 <= i < self.entries@.len() ==> !((#[trigger] self.entries@[i]).id@ is Null)
    }

    /// The items waiting under `id`, oldest first.
    pub closed spec fn waiting(self, id: IdView) -> Seq<T> {
        match find_by_key(self.entries@, id) {
            Some(e) => e.waiting@,
            None => Seq::empty(),
        }
    }

    pub fn new() -> (r: Self)
        ensures
            r.wf(),
            forall|id: IdView| #[trigger] r.waiting(id) == Seq::<T>::empty(),
    {
        Pending { entries: Vec::new() }
    }

    fn index_of(&self, id: &RequestId) -> (r: Option<usize>)
        ensures
            r matches Some(i) ==> i < self.entries@.len() && self.entries@[i as int].id@ == id@,
            r is None ==> forall|i: int| 0 <= i < self.entries@.len() ==> (#[trigger] self.entries@[i]).id@ != id@,
    {
        let n = self.entries.len();
        for i in 0..n
            invariant
                n == self.entries@.len(),
                forall|j: int| 0 <= j < i ==> (#[trigger] self.entries@[j]).id@ != id@,
        {
            if self.entries[i].id.same(id) {
                return Some(i);
            }
        }
        None
    }

    /// Registers `waiter` for the response to the request `id`, after
    /// those already waiting under the same id. A request with the null id
    /// gets no response and is not registered: `false` then.
    pub fn insert(&mut self, id: RequestId, waiter: T) -> (r: bool)
        requires
            old(self).wf(),
        ensures
            final(self).wf(),
            r <==> !(id@ is Null),
            r ==> final(self).waiting(id@) == old(self).waiting(id@).push(waiter),
            forall|other: IdView| other != id@ ==> #[trigger] final(self).waiting(other) == old(self).waiting(other),
            !r ==> forall|other: IdView| #[trigger] final(self).waiting(other) == old(self).waiting(other),
    {
        if let RequestId::Null = id {
            return false;
        }
        let ghost entries = self.entries@;
        match self.index_of(&id) {
            Some(i) => {
                proof {
                    lemma_find_at(entries, i as int);
                }
                let mut entry = self.entries.remove(i);
                entry.waiting.push_back(waiter);
                self.entries.insert(i, entry);
                proof {
                    assert(self.entries@ =~= entries.update(i as int, entry));
                    lemma_find_update(entries, i as int, entry);
                    assert forall|j: int| 0 <= j < self.entries@.len() implies (#[trigger] self.entries@[j]).waiting@.len()
                        > 0 by {
                        if j != i {
                            assert(self.entries@[j] == entries[j]);
                        }
                    }
                    assert forall|j: int| 0 <= j < self.entries@.len() implies !((#[trigger] self.entries@[j]).id@ is Null) by {
                        if j != i {
                            assert(self.entries@[j] == entries[j]);
                        }
                    }
                }
            },
            None => {
                let mut waiting = VecDeque::new();
                waiting.push_back(waiter);
                let entry = PendingEntry { id, waiting };
                proof {
                    if exists|j: int| 0 <= j < entries.len() && (#[trigger] entries[j]).key() == entry.id@ {
                        let j = choose|j: int| 0 <= j < entries.len() && (#[trigger] entries[j]).key() == entry.id@;
                        assert(entries[j].id@ != entry.id@);
                    }
                    assert(entry.waiting@ =~= Seq::<T>::empty().push(waiter));
                    lemma_find_push(entries, entry);
                }
                self.entries.push(entry);
                proof {
                    assert forall|j: int| 0 <= j < self.entries@.len() implies (#[trigger] self.entries@[j]).waiting@.len()
                        > 0 by {
                        if j < entries.len() {
                            assert(self.entries@[j] == entries[j]);
                        }
                    }
                    assert forall|j: int| 0 <= j < self.entries@.len() implies !((#[trigger] self.entries@[j]).id@ is Null) by {
                        if j < entries.len() {
                            assert(self.entries@[j] == entries[j]);
                        }
                    }
                }
            },
        }
        true
    }

    /// The waiter that a response with `id` completes: the oldest one
    /// waiting under that id, which stops waiting. `None` when nothing
    /// waits under the id: the response is then an unmatched one.
    pub fn start_send(&mut self, id: &RequestId) -> (r: Option<T>)
        requires
            old(self).wf(),
        ensures
            final(self).wf(),
            old(self).waiting(id@).len() == 0 ==> r is None,
            old(self).waiting(id@).len() > 0 ==> r == Some(old(self).waiting(id@)[0]),
            final(self).waiting(id@) == old(self).waiting(id@).drop_first() || (old(self).waiting(id@).len() == 0
                && final(self).waiting(id@) == old(self).waiting(id@)),
            forall|other: IdView| other != id@ ==> #[trigger] final(self).waiting(other) == old(self).waiting(other),
    {
        let ghost entries = self.entries@;
        match self.index_of(id) {
            Some(i) => {
                proof {
                    lemma_find_at(entries, i as int);
                }
                let mut entry = self.entries.remove(i);
                let waiter = entry.waiting.pop_front();
                if entry.waiting.len() == 0 {
                    proof {
                        lemma_find_remove(entries, i as int);
                        assert forall|j: int| 0 <= j < self.entries@.len() implies (#[trigger] self.entries@[j]).waiting@.len()
                            > 0 by {
                            let j0 = if j < i { j } else { j + 1 };
                            assert(self.entries@[j] == entries[j0]);
                        }
                        assert forall|j: int| 0 <= j < self.entries@.len() implies !((#[trigger] self.entries@[j]).id@ is Null) by {
                            let j0 = if j < i { j } else { j + 1 };
                            assert(self.entries@[j] == entries[j0]);
                        }
                        assert(entry.waiting@ =~= entries[i as int].waiting@.drop_first());
                    }
                } else {
                    self.entries.insert(i, entry);
                    proof {
                        assert(self.entries@ =~= entries.update(i as int, entry));
                        lemma_find_update(entries, i as int, entry);
                        assert forall|j: int| 0 <= j < self.entries@.len() implies (#[trigger] self.entries@[j]).waiting@.len()
                            > 0 by {
                            if j != i {
                                assert(self.entries@[j] == entries[j]);
                            }
                        }
                        assert forall|j: int| 0 <= j < self.entries@.len() implies !((#[trigger] self.entries@[j]).id@ is Null) by {
                            if j != i {
                                assert(self.entries@[j] == entries[j]);
                            }
                        }
                    }
                }
                waiter
            },
            None => {
                proof {
                    if exists|j: int| 0 <= j < entries.len() && (#[trigger] entries[j]).key() == id@ {
                        let j = choose|j: int| 0 <= j < entries.len() && (#[trigger] entries[j]).key() == id@;
                        assert(entries[j].id@ != id@);
                    }
                }
                None
            },
        }
    }
}

/// The waiters under one id are completed in the order they registered:
/// registering one more leaves the next to complete unchanged (or is the
/// next, when none waited), and it comes after all those that waited before.
pub proof fn lemma_pending_first_in_first_out<T>(waiting: Seq<T>, w: T)
    ensures
        waiting.len() > 0 ==> waiting.push(w)[0] == waiting[0] && waiting.push(w).drop_first()
            == waiting.drop_first().push(w),
        waiting.len() == 0 ==> waiting.push(w)[0] == w && waiting.push(w).drop_first().len() == 0,
{
    if waiting.len() > 0 {
        assert(waiting.push(w).drop_first() =~= waiting.drop_first().push(w));
    }
}

/// One of the two streams a language server's socket reads from.
#[derive(Debug, Clone, Copy, PartialEq, Eq, Structural)]
pub enum Source {
    /// Requests the server sends on its own.
    Requests,
    /// Responses that no pending request was waiting for.
    Responses,
}

pub open spec fn other_source(s: Source) -> Source {
    match s {
        Source::Requests => Source::Responses,
        Source::Responses => Source::Requests,
    }
}

/// The messages a language server sends to the bridge: its own requests,
/// and the responses nothing waited for. The two streams take turns being
/// polled first, so that neither starves the other.
pub struct BaseLsSocket<R, Q> {
    pub unmatched_responses_rx: R,
    pub pending_requests: Q,
    was_previous_response: bool,
}

impl<R, Q> BaseLsSocket<R, Q> {
    pub closed spec fn responses_stream(self) -> R {
        self.unmatched_responses_rx
    }

    pub closed spec fn requests_stream(self) -> Q {
        self.pending_requests
    }

    /// The stream to poll first: requests right after a response was given
    /// out, else responses.
    pub closed spec fn turn(self) -> Source {
        if self.was_previous_response {
            Source::Requests
        } else {
            Source::Responses
        }
    }

    pub fn new(unmatched_responses_rx: R, pending_requests: Q) -> (r: Self)
        ensures
            r.responses_stream() == unmatched_responses_rx,
            r.requests_stream() == pending_requests,
            r.turn() == Source::Responses,
    {
        BaseLsSocket { unmatched_responses_rx, pending_requests, was_previous_response: false }
    }

    /// The stream to poll first.
    pub fn first_source(&self) -> (r: Source)
        ensures
            r == self.turn(),
    {
        if self.was_previous_response {
            Source::Requests
        } else {
            Source::Responses
        }
    }

    /// Records what polling the first stream gave. An item is given out and
    /// the other stream gets the first turn next time: `None`. Otherwise the
    /// other stream is to be polled now and what it gives is given out as it
    /// is, the turn unchanged: `Some` of that stream.
    pub fn first_polled(&mut self, got_item: bool) -> (r: Option<Source>)
        ensures
            final(self).responses_stream() == old(self).responses_stream(),
            final(self).requests_stream() == old(self).requests_stream(),
            got_item ==> r is None && final(self).turn() == other_source(old(self).turn()),
            !got_item ==> r == Some(other_source(old(self).turn())) && final(self).turn() == old(self).turn(),
    {
        if got_item {
            self.was_previous_response = !self.was_previous_response;
            None
        } else if self.was_previous_response {
            Some(Source::Responses)
        } else {
            Some(Source::Requests)
        }
    }
}

/// When the first stream polled gives an item at every poll, the two
/// streams take the first turn by turns: the socket starts with its turn
/// and then alternates, so that each of them is polled first within any
/// two successive polls.
pub proof fn lemma_sources_alternate<R, Q>(states: Seq<BaseLsSocket<R, Q>>)
    requires
        forall|i: int| 0 <= i < states.len() - 1 ==> (#[trigger] states[i + 1]).turn() == other_source(states[i].turn()),
    ensures
        forall|i: int|
            0 <= i < states.len() ==> (#[trigger] states[i]).turn() == (if i % 2 == 0 {
                states[0].turn()
            } else {
                other_source(states[0].turn())
            }),
        forall|i: int| 0 <= i < states.len() - 1 ==> (#[trigger] states[i + 1]).turn() != states[i].turn(),
    decreases states.len(),
{
    if states.len() > 1 {
        let front = states.drop_last();
        assert forall|i: int| 0 <= i < front.len() - 1 implies (#[trigger] front[i + 1]).turn() == other_source(
            front[i].turn(),
        ) by {
            assert(front[i + 1] == states[i + 1]);
            assert(front[i] == states[i]);
        }
        lemma_sources_alternate(front);
        assert forall|i: int| 0 <= i < states.len() implies (#[trigger] states[i]).turn() == (if i % 2 == 0 {
            states[0].turn()
        } else {
            other_source(states[0].turn())
        }) by {
            if i < front.len() {
                assert(front[i] == states[i]);
                assert(front[0] == states[0]);
            } else {
                let j = i - 1;
                assert(front[j] == states[j]);
                assert(front[0] == states[0]);
                assert(states[j + 1].turn() == other_source(states[j].turn()));
            }
        }
    }
    assert forall|i: int| 0 <= i < states.len() - 1 implies (#[trigger] states[i + 1]).turn() != states[i].turn() by {
        assert(states[i + 1].turn() == other_source(states[i].turn()));
    }
}

/// What a call of a language server is to do next when it is polled.
#[derive(Debug, Clone, Copy, PartialEq, Eq, Structural)]
pub enum CallStep {
    /// Register the request's id with the pending table and start sending it.
    Send,
    /// Flush the channel to the server.
    PollFlush,
    /// Wait for the response to the request.
    PollResponse,
    /// The request was a notification: finish with no response.
    Finish,
}

/// A request on its way to a language server, and the wait for its
/// response: `Q` the request, `S` the sender, `Rx` the receiving end of
/// the response.
pub struct CallLanguageServer<Q, S, Rx> {
    request: Option<Q>,
    pub ls_sender: S,
    send_done: bool,
    response_rx: Option<Rx>,
}

impl<Q, S, Rx> CallLanguageServer<Q, S, Rx> {
    pub closed spec fn sender(self) -> S {
        self.ls_sender
    }

    /// Whether the request was taken to be sent.
    pub closed spec fn sent(self) -> bool {
        self.request is None
    }

    /// Whether the channel was flushed after sending.
    pub closed spec fn flushed(self) -> bool {
        self.send_done
    }

    /// The receiving end of the response, once the request is sent with an id.
    pub closed spec fn receiver(self) -> Option<Rx> {
        self.response_rx
    }

    /// What to do next: send once, then flush until flushed, then wait for
    /// the response when the request went out under an id, else finish.
    pub open spec fn step_spec(self) -> CallStep {
        if !self.sent() {
            CallStep::Send
        } else if !self.flushed() {
            CallStep::PollFlush
        } else if self.receiver() is Some {
            CallStep::PollResponse
        } else {
            CallStep::Finish
        }
    }

    pub fn new(request: Q, ls_sender: S) -> (r: Self)
        ensures
            !r.sent(),
            !r.flushed(),
            r.receiver() is None,
            r.sender() == ls_sender,
    {
        CallLanguageServer { request: Some(request), ls_sender, send_done: false, response_rx: None }
    }

    /// What to do next: send once, then flush until flushed, then wait for
    /// the response when the request has one, else finish.
    pub fn next_step(&self) -> (r: CallStep)
        ensures
            r == self.step_spec(),
    {
        if self.request.is_some() {
            CallStep::Send
        } else if !self.send_done {
            CallStep::PollFlush
        } else if self.response_rx.is_some() {
            CallStep::PollResponse
        } else {
            CallStep::Finish
        }
    }

    /// Takes the request to send it; it is sent only this once.
    pub fn take_request(&mut self) -> (r: Q)
        requires
            !old(self).sent(),
        ensures
            final(self).sent(),
            final(self).flushed() == old(self).flushed(),
            final(self).receiver() == old(self).receiver(),
            final(self).sender() == old(self).sender(),
    {
        let request = self.request.take();
        request.unwrap()
    }

    /// Keeps the receiving end of the response, when the request was
    /// registered under an id.
    pub fn set_receiver(&mut self, rx: Option<Rx>)
        ensures
            final(self).receiver() == rx,
            final(self).sent() == old(self).sent(),
            final(self).flushed() == old(self).flushed(),
            final(self).sender() == old(self).sender(),
    {
        self.response_rx = rx;
    }

    /// The receiving end of the response, to poll.
    pub fn receiver_mut(&mut self) -> (r: &mut Option<Rx>)
        ensures
            *r == old(self).receiver(),
            final(self).receiver() == *final(r),
            final(self).sent() == old(self).sent(),
            final(self).flushed() == old(self).flushed(),
            final(self).sender() == old(self).sender(),
    {
        &mut self.response_rx
    }

    /// Records that the channel was flushed.
    pub fn set_flushed(&mut self)
        requires
            old(self).sent(),
        ensures
            final(self).flushed(),
            final(self).sent(),
            final(self).receiver() == old(self).receiver(),
            final(self).sender() == old(self).sender(),
    {
        self.send_done = true;
    }
}

/// Where a message read from a language server goes.
pub enum InputRoute<Q, P, E> {
    /// A request of the server: to the stream of its requests.
    ToRequests(Q),
    /// A response: to the pending table.
    ToPending(P),
    /// Unreadable input: an error response with the null id goes to the
    /// pending table, carrying the parse error.
    ParseFailure(E),
}

/// Routes one item read from a language server.
pub fn route_input<Q, P, E>(item: Result<Message<Q, P>, E>) -> (r: InputRoute<Q, P, E>)
    ensures
        item matches Ok(Message::Request(q)) ==> r == InputRoute::<Q, P, E>::ToRequests(q),
        item matches Ok(Message::Response(p)) ==> r == InputRoute::<Q, P, E>::ToPending(p),
        item matches Err(e) ==> r == InputRoute::<Q, P, E>::ParseFailure(e),
{
    match item {
        Ok(Message::Request(q)) => InputRoute::ToRequests(q),
        Ok(Message::Response(p)) => InputRoute::ToPending(p),
        Err(e) => InputRoute::ParseFailure(e),
    }
}

/// The message of the error response sent for unreadable input.
pub fn parse_failure_message() -> (r: String)
    ensures
        r@ == "Parse error occurred"@,
{
    "Parse error occurred".to_owned()
}

/// The JSON-RPC errors sent back for input that could not be read.
#[derive(Debug, Clone, Copy, PartialEq, Eq, Structural)]
pub enum JsonRpcErrorKind {
    /// The input is not a message at all.
    ParseError,
    /// The input is JSON of the wrong shape.
    InvalidRequest,
}

impl JsonRpcErrorKind {
    /// The JSON-RPC error code.
    pub fn code(&self) -> (r: i64)
        ensures
            *self == JsonRpcErrorKind::ParseError ==> r == -32700,
            *self == JsonRpcErrorKind::InvalidRequest ==> r == -32600,
    {
        match self {
            JsonRpcErrorKind::ParseError => -32700,
            JsonRpcErrorKind::InvalidRequest => -32600,
        }
    }
}

/// The error for unreadable input, given whether it was a JSON body of the
/// wrong shape: an invalid request then, else a parse error.
pub fn jsonrpc_error_kind(body_of_wrong_shape: bool) -> (r: JsonRpcErrorKind)
    ensures
        body_of_wrong_shape ==> r == JsonRpcErrorKind::InvalidRequest,
        !body_of_wrong_shape ==> r == JsonRpcErrorKind::ParseError,
{
    if body_of_wrong_shape {
        JsonRpcErrorKind::InvalidRequest
    } else {
        JsonRpcErrorKind::ParseError
    }
}

/// The JSON-RPC error for a codec error: an invalid request for a JSON body
/// of the wrong shape, a parse error for anything else.
pub open spec fn jsonrpc_error_of(err: ParseError) -> JsonRpcErrorKind {
    match err {
        ParseError::Body(_, true) => JsonRpcErrorKind::InvalidRequest,
        _ => JsonRpcErrorKind::ParseError,
    }
}

/// The JSON-RPC error reported for a codec error: a JSON body that does not
/// fit a message is an invalid request; anything else is a parse error.
pub fn to_jsonrpc_error(err: &ParseError) -> (r: JsonRpcErrorKind)
    ensures
        r == jsonrpc_error_of(*err),
{
    match err {
        ParseError::Body(_, wrong_shape) => jsonrpc_error_kind(*wrong_shape),
        _ => jsonrpc_error_kind(false),
    }
}

/// What a handle passes on of an item read from a language server: the
/// message itself, or in place of unreadable input the error for the
/// error response with the null id.
pub fn route_handle_input<M>(item: Result<M, ParseError>) -> (r: Result<M, JsonRpcErrorKind>)
    ensures
        item matches Ok(m) ==> r == Ok::<M, JsonRpcErrorKind>(m),
        item matches Err(e) ==> r == Err::<M, JsonRpcErrorKind>(jsonrpc_error_of(e)),
{
    match item {
        Ok(m) => Ok(m),
        Err(e) => Err(to_jsonrpc_error(&e)),
    }
}

} // verus!
