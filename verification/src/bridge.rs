use vstd::prelude::*;

use crate::ids::{id_text, IdView, RequestId};
use dashmap::DashSet;

use crate::keyed::{find_by_key, lemma_find_at, lemma_find_update, unique_keys, Keyed};
use crate::transport::Message;
use crate::text::push_str;

verus! {

/// The methods the bridge handles itself, forwarding them to both servers;
/// every other request goes to the main server alone.
pub open spec fn bridge_methods() -> Set<Seq<char>> {
    set![
        "initialize"@,
        "initialized"@,
        "shutdown"@,
        "textDocument/didOpen"@,
        "textDocument/didChange"@,
        "textDocument/didClose"@,
    ]
}

/// Whether the bridge handles `method` itself.
pub fn is_bridge_method(method: &str) -> (r: bool)
    ensures
        r == bridge_methods().contains(method@),
{
    let m = method.to_owned();
    let r = m == "initialize".to_owned() || m == "initialized".to_owned() || m == "shutdown".to_owned() || m
        == "textDocument/didOpen".to_owned() || m == "textDocument/didChange".to_owned() || m
        == "textDocument/didClose".to_owned();
    proof {
        reveal_strlit("initialize");
        reveal_strlit("initialized");
        reveal_strlit("shutdown");
        reveal_strlit("textDocument/didOpen");
        reveal_strlit("textDocument/didChange");
        reveal_strlit("textDocument/didClose");
        assert(r == bridge_methods().contains(method@));
    }
    r
}

/// The server a document notification goes to.
#[derive(Debug, Clone, Copy, PartialEq, Eq, Structural)]
pub enum Route {
    /// The main language server.
    Main,
    /// The embedded language server, which handles JSON documents.
    Embedded,
}

/// Whether documents of `language_id` go to the embedded server.
pub open spec fn is_json_language(language_id: Seq<char>) -> bool {
    language_id == "json"@ || language_id == "jsonc"@
}

/// The addresses of the documents routed to the embedded server, after a
/// document is opened at `uri` in `language_id`.
pub open spec fn json_files_after_open(files: Set<Seq<char>>, uri: Seq<char>, language_id: Seq<char>) -> Set<
    Seq<char>,
> {
    if is_json_language(language_id) {
        files.insert(uri)
    } else {
        files
    }
}

/// The server a change or close notification for `uri` goes to.
pub open spec fn route_of(files: Set<Seq<char>>, uri: Seq<char>) -> Route {
    if files.contains(uri) {
        Route::Embedded
    } else {
        Route::Main
    }
}

#[verifier::external_type_specification]
#[verifier::external_body]
#[verifier::reject_recursive_types(K)]
#[verifier::reject_recursive_types(S)]
pub struct ExDashSet<K, S>(DashSet<K, S>);

/// The addresses a concurrent set of addresses holds.
pub uninterp spec fn address_set(s: DashSet<String>) -> Set<Seq<char>>;

/// Trusted: `DashSet::new`, an empty set.
#[verifier::external_body]
fn address_set_new() -> (r: DashSet<String>)
    ensures
        address_set(r) == Set::<Seq<char>>::empty(),
{
    DashSet::new()
}

/// Trusted: `DashSet::insert`: afterwards the set holds `key` besides what
/// it held; the result says whether `key` was new.
#[verifier::external_body]
fn address_set_insert(s: &mut DashSet<String>, key: String) -> (r: bool)
    ensures
        address_set(*final(s)) == address_set(*old(s)).insert(key@),
        r == !address_set(*old(s)).contains(key@),
{
    s.insert(key)
}

/// Trusted: `DashSet::contains`, whether the set holds `key`.
#[verifier::external_body]
fn address_set_contains(s: &DashSet<String>, key: &String) -> (r: bool)
    ensures
        r == address_set(*s).contains(key@),
{
    s.contains(key)
}

/// Trusted: `DashSet::remove`: afterwards the set no longer holds `key`;
/// the key comes back when it was there.
#[verifier::external_body]
fn address_set_remove(s: &mut DashSet<String>, key: &String) -> (r: Option<String>)
    ensures
        address_set(*final(s)) == address_set(*old(s)).remove(key@),
        r is Some <==> address_set(*old(s)).contains(key@),
        r matches Some(k) ==> k@ == key@,
{
    s.remove(key)
}

/// The bridge between a client and two language servers: the main one, and
/// an embedded one for JSON documents. It remembers which documents were
/// opened as JSON, so that their later notifications reach the same server.
pub struct BridgeInner<C, S> {
    pub client: C,
    pub main_server: S,
    pub embedded_server: S,
    json_files: DashSet<String>,
}

impl<C, S> BridgeInner<C, S> {
    /// The addresses of the documents routed to the embedded server.
    pub closed spec fn json_files(self) -> Set<Seq<char>> {
        address_set(self.json_files)
    }

    pub closed spec fn client_spec(self) -> C {
        self.client
    }

    pub closed spec fn main_spec(self) -> S {
        self.main_server
    }

    pub closed spec fn embedded_spec(self) -> S {
        self.embedded_server
    }

    pub fn new(client: C, main_server: S, embedded_server: S) -> (r: Self)
        ensures
            r.json_files() == Set::<Seq<char>>::empty(),
            r.client_spec() == client,
            r.main_spec() == main_server,
            r.embedded_spec() == embedded_server,
    {
        BridgeInner { client, main_server, embedded_server, json_files: address_set_new() }
    }

    /// Routes the opening of a document: JSON and JSONC documents go to the
    /// embedded server, which from now on gets every notification for that
    /// address; other documents go to the main server.
    pub fn did_open(&mut self, uri: &String, language_id: &str) -> (r: Route)
        ensures
            r == (if is_json_language(language_id@) {
                Route::Embedded
            } else {
                Route::Main
            }),
            final(self).json_files() == json_files_after_open(old(self).json_files(), uri@, language_id@),
            final(self).client_spec() == old(self).client_spec(),
            final(self).main_spec() == old(self).main_spec(),
            final(self).embedded_spec() == old(self).embedded_spec(),
    {
        let lang = language_id.to_owned();
        proof {
            reveal_strlit("json");
            reveal_strlit("jsonc");
        }
        if lang == "json".to_owned() || lang == "jsonc".to_owned() {
            let _new = address_set_insert(&mut self.json_files, uri.clone());
            Route::Embedded
        } else {
            Route::Main
        }
    }

    /// Routes a change of the document at `uri`.
    pub fn did_change(&self, uri: &String) -> (r: Route)
        ensures
            r == route_of(self.json_files(), uri@),
    {
        if address_set_contains(&self.json_files, uri) {
            Route::Embedded
        } else {
            Route::Main
        }
    }

    /// Routes the closing of the document at `uri`, which is forgotten as
    /// a JSON document.
    pub fn did_close(&mut self, uri: &String) -> (r: Route)
        ensures
            r == route_of(old(self).json_files(), uri@),
            final(self).json_files() == old(self).json_files().remove(uri@),
            final(self).client_spec() == old(self).client_spec(),
            final(self).main_spec() == old(self).main_spec(),
            final(self).embedded_spec() == old(self).embedded_spec(),
    {
        match address_set_remove(&mut self.json_files, uri) {
            Some(_) => Route::Embedded,
            None => Route::Main,
        }
    }
}

/// A document opened as JSON or JSONC has its changes and its closing
/// routed to the embedded server; once closed, its address goes back to
/// the main server.
pub proof fn lemma_json_documents_stay_embedded(files: Set<Seq<char>>, uri: Seq<char>, language_id: Seq<char>)
    requires
        is_json_language(language_id),
    ensures
        route_of(json_files_after_open(files, uri, language_id), uri) == Route::Embedded,
        route_of(json_files_after_open(files, uri, language_id).remove(uri), uri) == Route::Main,
{
}

/// A document notification as the bridge sees it: an opening (address and
/// language), a change, or a closing.
pub enum DocEvent {
    Open(Seq<char>, Seq<char>),
    Change(Seq<char>),
    Close(Seq<char>),
}

/// The addresses routed to the embedded server after `events`, one after
/// the other, starting from `files`.
pub open spec fn json_files_after(files: Set<Seq<char>>, events: Seq<DocEvent>) -> Set<Seq<char>>
    decreases events.len(),
{
    if events.len() == 0 {
        files
    } else {
        let before = json_files_after(files, events.drop_last());
        match events.last() {
            DocEvent::Open(uri, language_id) => json_files_after_open(before, uri, language_id),
            DocEvent::Change(_) => before,
            DocEvent::Close(uri) => before.remove(uri),
        }
    }
}

/// A document opened as JSON keeps going to the embedded server, whatever
/// other documents are opened, changed or closed, and whatever it is
/// reopened as, until it is closed.
pub proof fn lemma_json_document_embedded_until_closed(
    files: Set<Seq<char>>,
    uri: Seq<char>,
    language_id: Seq<char>,
    events: Seq<DocEvent>,
)
    requires
        is_json_language(language_id),
        forall|i: int| 0 <= i < events.len() ==> !(#[trigger] events[i] matches DocEvent::Close(u) && u == uri),
    ensures
        route_of(json_files_after(json_files_after_open(files, uri, language_id), events), uri) == Route::Embedded,
    decreases events.len(),
{
    if events.len() > 0 {
        let rest = events.drop_last();
        assert forall|i: int| 0 <= i < rest.len() implies !(#[trigger] rest[i] matches DocEvent::Close(u) && u
            == uri) by {
            assert(rest[i] == events[i]);
        }
        lemma_json_document_embedded_until_closed(files, uri, language_id, rest);
        assert(events[events.len() - 1] == events.last());
    }
}

/// The id under which a request of the embedded server reaches the client:
/// the text of its own id after `embedded:`, so that it cannot clash with
/// the ids of the main server. A notification stays without an id.
pub fn embedded_id(id: &Option<RequestId>) -> (r: Option<RequestId>)
    ensures
        id is None ==> r is None,
        id matches Some(i) ==> r matches Some(j) && j@ == IdView::Str("embedded:"@ + id_text(i@)),
{
    match id {
        Some(i) => {
            let mut s = String::new();
            push_str(&mut s, "embedded:");
            i.push_text(&mut s);
            Some(RequestId::String(s))
        },
        None => None,
    }
}

/// What of a server's message is passed to the client: its requests; the
/// responses are dropped, since the bridge answers the client itself.
pub fn to_forward<Q, P>(m: Message<Q, P>) -> (r: Option<Q>)
    ensures
        m matches Message::Request(q) ==> r == Some(q),
        m is Response ==> r is None,
{
    match m {
        Message::Request(q) => Some(q),
        Message::Response(_) => None,
    }
}

/// A bridge under construction: `H` a handle on a language server.
pub struct BridgeBuilder<H> {
    main_server: Option<H>,
    embedded_server: Option<H>,
}

impl<H> BridgeBuilder<H> {
    pub closed spec fn main_spec(self) -> Option<H> {
        self.main_server
    }

    pub closed spec fn embedded_spec(self) -> Option<H> {
        self.embedded_server
    }

    pub fn main_server(self, service: H) -> (r: Self)
        ensures
            r.main_spec() == Some(service),
            r.embedded_spec() == self.embedded_spec(),
    {
        BridgeBuilder { main_server: Some(service), embedded_server: self.embedded_server }
    }

    pub fn embedded_server(self, service: H) -> (r: Self)
        ensures
            r.main_spec() == self.main_spec(),
            r.embedded_spec() == Some(service),
    {
        BridgeBuilder { main_server: self.main_server, embedded_server: Some(service) }
    }

    /// The main and the embedded server, once both are given.
    pub fn build(self) -> (r: Option<(H, H)>)
        ensures
            r is Some <==> self.main_spec() is Some && self.embedded_spec() is Some,
            r matches Some((m, e)) ==> self.main_spec() == Some(m) && self.embedded_spec() == Some(e),
    {
        match (self.main_server, self.embedded_server) {
            (Some(m), Some(e)) => Some((m, e)),
            _ => None,
        }
    }
}

impl<H> Default for BridgeBuilder<H> {
    fn default() -> (r: Self)
        ensures
            r.main_spec() is None,
            r.embedded_spec() is None,
    {
        BridgeBuilder { main_server: None, embedded_server: None }
    }
}

/// What a forwarded request is to do next when it is polled.
#[derive(Debug, Clone, Copy, PartialEq, Eq, Structural)]
pub enum BridgeStep {
    /// Poll the call already made.
    PollFuture,
    /// Call the server with the request.
    Call,
    /// Ask the locked server whether it is ready.
    PollReady,
    /// Try to lock the main server.
    PollWrite,
}

/// A request the bridge forwards to the main server alone: `Q` the request,
/// `V` the server, `G` the lock on it, `F` the call in progress.
pub struct BridgeFuture<Q, V, G, F> {
    request: Option<Q>,
    pub server: V,
    guard: Option<G>,
    is_ready: bool,
    future: Option<F>,
}

impl<Q, V, G, F> BridgeFuture<Q, V, G, F> {
    pub closed spec fn request_spec(self) -> Option<Q> {
        self.request
    }

    pub closed spec fn server_spec(self) -> V {
        self.server
    }

    pub closed spec fn guard_spec(self) -> Option<G> {
        self.guard
    }

    pub closed spec fn ready_spec(self) -> bool {
        self.is_ready
    }

    pub closed spec fn future_spec(self) -> Option<F> {
        self.future
    }

    pub open spec fn step_spec(self) -> BridgeStep {
        if self.future_spec() is Some {
            BridgeStep::PollFuture
        } else if self.guard_spec() is Some && self.ready_spec() {
            BridgeStep::Call
        } else if self.guard_spec() is Some {
            BridgeStep::PollReady
        } else {
            BridgeStep::PollWrite
        }
    }

    pub fn new(request: Q, server: V) -> (r: Self)
        ensures
            r.request_spec() == Some(request),
            r.server_spec() == server,
            r.guard_spec() is None,
            !r.ready_spec(),
            r.future_spec() is None,
    {
        BridgeFuture { request: Some(request), server, guard: None, is_ready: false, future: None }
    }

    /// What to do next: poll the call once made; else with the lock held,
    /// call when the server was found ready, or else ask it; without the
    /// lock, try to take it.
    pub fn next_step(&self) -> (r: BridgeStep)
        ensures
            r == self.step_spec(),
    {
        if self.future.is_some() {
            BridgeStep::PollFuture
        } else if self.guard.is_some() && self.is_ready {
            BridgeStep::Call
        } else if self.guard.is_some() {
            BridgeStep::PollReady
        } else {
            BridgeStep::PollWrite
        }
    }

    /// Takes the lock out to use it.
    pub fn take_guard(&mut self) -> (r: Option<G>)
        ensures
            r == old(self).guard_spec(),
            final(self).guard_spec() is None,
            final(self).request_spec() == old(self).request_spec(),
            final(self).server_spec() == old(self).server_spec(),
            final(self).ready_spec() == old(self).ready_spec(),
            final(self).future_spec() == old(self).future_spec(),
    {
        self.guard.take()
    }

    /// Puts the lock back: after a lock was taken, or after the server was
    /// asked whether it is ready, whatever it said. The server is not
    /// marked ready, so it is asked again on the next step.
    pub fn put_guard(&mut self, guard: G)
        ensures
            final(self).guard_spec() == Some(guard),
            final(self).request_spec() == old(self).request_spec(),
            final(self).server_spec() == old(self).server_spec(),
            final(self).ready_spec() == old(self).ready_spec(),
            final(self).future_spec() == old(self).future_spec(),
    {
        self.guard = Some(guard);
    }

    /// Takes the request to make the call.
    pub fn take_request(&mut self) -> (r: Option<Q>)
        ensures
            r == old(self).request_spec(),
            final(self).request_spec() is None,
            final(self).guard_spec() == old(self).guard_spec(),
            final(self).server_spec() == old(self).server_spec(),
            final(self).ready_spec() == old(self).ready_spec(),
            final(self).future_spec() == old(self).future_spec(),
    {
        self.request.take()
    }

    /// Keeps the call in progress, to be polled from now on.
    pub fn set_future(&mut self, future: F)
        ensures
            final(self).future_spec() == Some(future),
            final(self).request_spec() == old(self).request_spec(),
            final(self).guard_spec() == old(self).guard_spec(),
            final(self).server_spec() == old(self).server_spec(),
            final(self).ready_spec() == old(self).ready_spec(),
    {
        self.future = Some(future);
    }

    /// The call in progress, to poll.
    pub fn future_mut(&mut self) -> (r: &mut Option<F>)
        ensures
            *r == old(self).future_spec(),
            final(self).future_spec() == *final(r),
            final(self).request_spec() == old(self).request_spec(),
            final(self).guard_spec() == old(self).guard_spec(),
            final(self).server_spec() == old(self).server_spec(),
            final(self).ready_spec() == old(self).ready_spec(),
    {
        &mut self.future
    }
}

/// One method with a service of its own.
pub struct RouteEntry<B> {
    method: String,
    service: B,
}

impl<B> RouteEntry<B> {
    pub closed spec fn method_view(self) -> Seq<char> {
        self.method@
    }

    pub closed spec fn service_view(self) -> B {
        self.service
    }
}

impl<B> Keyed<Seq<char>> for RouteEntry<B> {
    open spec fn key(&self) -> Seq<char> {
        self.method_view()
    }
}

/// Sends each request to the service registered for its method, or to the
/// default one.
pub struct Router<D, B> {
    custom_routes: Vec<RouteEntry<B>>,
    pub default_route: D,
}

impl<D, B> Router<D, B> {
    pub closed spec fn wf(self) -> bool {
        unique_keys(self.custom_routes@)
    }

    /// The service registered for `method`.
    pub closed spec fn route(self, method: Seq<char>) -> Option<B> {
        match find_by_key(self.custom_routes@, method) {
            Some(e) => Some(e.service_view()),
            None => None,
        }
    }

    pub closed spec fn default_spec(self) -> D {
        self.default_route
    }

    pub fn new(default_route: D) -> (r: Self)
        ensures
            r.wf(),
            forall|m: Seq<char>| #[trigger] r.route(m) is None,
            r.default_spec() == default_route,
    {
        Router { custom_routes: Vec::new(), default_route }
    }

    fn index_of(&self, method: &str) -> (r: Option<usize>)
        ensures
            r matches Some(i) ==> i < self.custom_routes@.len() && self.custom_routes@[i as int].method_view()
                == method@,
            r is None ==> forall|i: int|
                0 <= i < self.custom_routes@.len() ==> (#[trigger] self.custom_routes@[i]).method_view() != method@,
    {
        let n = self.custom_routes.len();
        let m = method.to_owned();
        for i in 0..n
            invariant
                n == self.custom_routes@.len(),
                m@ == method@,
                forall|j: int| 0 <= j < i ==> (#[trigger] self.custom_routes@[j]).method_view() != method@,
        {
            if self.custom_routes[i].method == m {
                return Some(i);
            }
        }
        None
    }

    /// Replaces the service registered for `method`. Registering a method
    /// that has no service yet fails: the insertion reports no earlier
    /// service, which is taken as an error, so `requires` leaves it out.
    pub fn register_route_boxed(&mut self, method: &str, service: B)
        requires
            old(self).wf(),
            old(self).route(method@) is Some,
        ensures
            final(self).wf(),
            final(self).route(method@) == Some(service),
            forall|m: Seq<char>| m != method@ ==> #[trigger] final(self).route(m) == old(self).route(m),
            final(self).default_spec() == old(self).default_spec(),
    {
        let ghost routes = self.custom_routes@;
        match self.index_of(method) {
            Some(i) => {
                let entry = RouteEntry { method: method.to_owned(), service };
                proof {
                    lemma_find_update(routes, i as int, entry);
                }
                self.custom_routes.set(i, entry);
                proof {
                    assert forall|m: Seq<char>| m != method@ implies #[trigger] self.route(m) == old(self).route(m) by {
                        assert(find_by_key(self.custom_routes@, m) == find_by_key(routes, m));
                    }
                }
            },
            None => {
                proof {
                    if exists|j: int| 0 <= j < routes.len() && (#[trigger] routes[j]).key() == method@ {
                        let j = choose|j: int| 0 <= j < routes.len() && (#[trigger] routes[j]).key() == method@;
                        assert(routes[j].method_view() != method@);
                    }
                }
            },
        }
    }

    /// Where a request for `method` goes: the index of its registered
    /// service, or `None` for the default service.
    pub fn route_index(&self, method: &str) -> (r: Option<usize>)
        requires
            self.wf(),
        ensures
            r is None <==> self.route(method@) is None,
            r matches Some(i) ==> i < self.len_spec() && self.route(method@) == Some(self.service_at_spec(i as int)),
    {
        match self.index_of(method) {
            Some(i) => {
                proof {
                    lemma_find_at(self.custom_routes@, i as int);
                }
                Some(i)
            },
            None => {
                proof {
                    if exists|j: int| 0 <= j < self.custom_routes@.len() && (#[trigger] self.custom_routes@[j]).key()
                        == method@ {
                        let j = choose|j: int|
                            0 <= j < self.custom_routes@.len() && (#[trigger] self.custom_routes@[j]).key() == method@;
                        assert(self.custom_routes@[j].method_view() != method@);
                    }
                }
                None
            },
        }
    }

    pub closed spec fn len_spec(self) -> nat {
        self.custom_routes@.len()
    }

    pub closed spec fn service_at_spec(self, i: int) -> B {
        self.custom_routes@[i].service_view()
    }
}

} // verus!
