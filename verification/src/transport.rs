//! The socket transport's own state and decisions: the set of registered
//! listeners with their URI filters, which of them a message is dispatched to,
//! and the client that frames messages for sending.

use crate::frame::{serialize_for_unix_socket, serialized, FrameError};
use crate::uri::{check_filter_criteria, filter_criteria_hold, opt_uri_view, opt_view, pattern_matches, same_uri, uri_matches, Uri, UriView};
use up_rust::{UMessage, UStatus};
use vstd::prelude::*;

verus! {

/// The routing attributes of a message: its source and optional sink URI.
pub struct MessageAttributes {
    pub source: Option<Uri>,
    pub sink: Option<Uri>,
}

/// The value of [`MessageAttributes`].
pub struct AttributesView {
    pub source: Option<UriView>,
    pub sink: Option<UriView>,
}

impl View for MessageAttributes {
    type V = AttributesView;

    open spec fn view(&self) -> AttributesView {
        AttributesView { source: opt_uri_view(self.source), sink: opt_uri_view(self.sink) }
    }
}

/// The attributes of a message, if it carries any.
pub open spec fn attributes_view(a: &Option<MessageAttributes>) -> Option<AttributesView> {
    match a {
        Some(a) => Some(a@),
        None => None,
    }
}

/// What identifies a registration: the source filter, the optional sink
/// filter, and the listener.
pub struct RegistrationKey {
    pub source_filter: UriView,
    pub sink_filter: Option<UriView>,
    pub listener_id: u64,
}

/// Whether a message with these attributes is delivered to a registration:
/// the message must carry attributes and a source that the source filter
/// matches; with a sink filter it must carry a sink that the filter matches,
/// and without one it must carry no sink.
pub open spec fn key_matches(key: RegistrationKey, attributes: Option<AttributesView>) -> bool {
    match attributes {
        None => false,
        Some(a) => match a.source {
            None => false,
            Some(source) => uri_matches(key.source_filter, source) && match key.sink_filter {
                Some(pattern) => match a.sink {
                    Some(sink) => uri_matches(pattern, sink),
                    None => false,
                },
                None => a.sink is None,
            },
        },
    }
}

/// The status code under which a transport error is reported.
#[derive(Clone, Copy, Debug, PartialEq, Eq, Structural)]
pub enum StatusCode {
    InvalidArgument,
    AlreadyExists,
    NotFound,
    Unimplemented,
    Internal,
}

/// Why a transport operation failed.
#[derive(Debug)]
pub enum TransportError {
    /// The filters do not meet the filter criteria; up-rust's status says
    /// which rule they break.
    InvalidFilter(UStatus),
    /// The same listener is already registered under the same filters.
    AlreadyRegistered,
    /// No such listener is registered under these filters.
    NotRegistered,
    /// Listeners are registered on the serving side only.
    RegistrationUnsupported,
    /// The message could not be framed.
    Framing(FrameError),
}

/// The status code of each transport error.
pub open spec fn code_of(e: TransportError) -> StatusCode {
    match e {
        TransportError::InvalidFilter(_) => StatusCode::InvalidArgument,
        TransportError::AlreadyRegistered => StatusCode::AlreadyExists,
        TransportError::NotRegistered => StatusCode::NotFound,
        TransportError::RegistrationUnsupported => StatusCode::Unimplemented,
        TransportError::Framing(_) => StatusCode::Internal,
    }
}

impl TransportError {
    /// The status code under which this error is reported.
    pub fn code(&self) -> (c: StatusCode)
        ensures
            c == code_of(*self),
    {
        match self {
            TransportError::InvalidFilter(_) => StatusCode::InvalidArgument,
            TransportError::AlreadyRegistered => StatusCode::AlreadyExists,
            TransportError::NotRegistered => StatusCode::NotFound,
            TransportError::RegistrationUnsupported => StatusCode::Unimplemented,
            TransportError::Framing(_) => StatusCode::Internal,
        }
    }
}

/// A listener registered under a source filter and an optional sink filter.
/// `listener_id` identifies the listener; `listener` is the handle that
/// messages are delivered to.
pub struct RegisteredListener<L> {
    source_filter: Uri,
    sink_filter: Option<Uri>,
    listener_id: u64,
    listener: L,
}

impl<L> RegisteredListener<L> {
    /// What identifies this registration.
    pub closed spec fn key(&self) -> RegistrationKey {
        RegistrationKey {
            source_filter: self.source_filter@,
            sink_filter: opt_uri_view(self.sink_filter),
            listener_id: self.listener_id,
        }
    }

    /// Whether a message with these attributes is delivered to this
    /// registration.
    pub fn matches_msg(&self, attributes: &Option<MessageAttributes>) -> (r: bool)
        ensures
            r == key_matches(self.key(), attributes_view(attributes)),
    {
        let attribs = match attributes {
            Some(a) => a,
            None => return false,
        };
        let source = match &attribs.source {
            Some(s) => s,
            None => return false,
        };
        if !pattern_matches(&self.source_filter, source) {
            return false;
        }
        match &self.sink_filter {
            Some(pattern) => match &attribs.sink {
                Some(candidate) => pattern_matches(pattern, candidate),
                None => false,
            },
            None => attribs.sink.is_none(),
        }
    }

    /// Whether this registration has the given filters and listener.
    fn is_registration(&self, source_filter: &Uri, sink_filter: Option<&Uri>, listener_id: u64) -> (r: bool)
        ensures
            r == (self.key() == RegistrationKey {
                source_filter: source_filter@,
                sink_filter: opt_view(sink_filter),
                listener_id,
            }),
    {
        if self.listener_id != listener_id || !same_uri(&self.source_filter, source_filter) {
            return false;
        }
        match (&self.sink_filter, sink_filter) {
            (Some(a), Some(b)) => same_uri(a, b),
            (None, None) => true,
            _ => false,
        }
    }
}

/// The serving side of the socket transport: the socket path it is bound to
/// and the listeners registered with it, none registered twice.
pub struct UdsTransport<L> {
    socket_path: String,
    listeners: Vec<RegisteredListener<L>>,
}

/// The registration's filters meet the filter criteria.
pub open spec fn meets_criteria(key: RegistrationKey) -> bool {
    filter_criteria_hold(key.source_filter, key.sink_filter)
}

/// The key that a registration call names.
pub open spec fn key_of(source_filter: &Uri, sink_filter: Option<&Uri>, listener_id: u64) -> RegistrationKey {
    RegistrationKey { source_filter: source_filter@, sink_filter: opt_view(sink_filter), listener_id }
}

impl<L> UdsTransport<L> {
    /// The registrations, in the order they were made.
    pub closed spec fn registrations(&self) -> Seq<RegistrationKey> {
        self.listeners@.map_values(|r: RegisteredListener<L>| r.key())
    }

    /// The listener handles, in the order of [`Self::registrations`].
    pub closed spec fn listener_handles(&self) -> Seq<L> {
        self.listeners@.map_values(|r: RegisteredListener<L>| r.listener)
    }

    /// The socket path, as a value.
    pub closed spec fn path(&self) -> Seq<char> {
        self.socket_path@
    }

    /// There is one listener handle per registration, no listener is
    /// registered twice under the same filters, and every registration meets
    /// the filter criteria.
    pub open spec fn wf(&self) -> bool {
        &&& self.listener_handles().len() == self.registrations().len()
        &&& self.registrations().no_duplicates()
        &&& forall|i: int|
            0 <= i < self.registrations().len() ==> #[trigger] meets_criteria(self.registrations()[i])
    }

    /// One registration or unregistration, as their contracts tell it: the
    /// socket path stays, and the registrations and handles either stay, gain
    /// at the end one registration that meets the filter criteria and was not
    /// there, or lose the one at some position.
    pub open spec fn step_to(self, next: Self) -> bool {
        &&& next.path() == self.path()
        &&& {
            ||| (next.registrations() == self.registrations() && next.listener_handles()
                == self.listener_handles())
            ||| exists|k: RegistrationKey, l: L|
                meets_criteria(k) && !self.registrations().contains(k) && next.registrations()
                    == #[trigger] self.registrations().push(k) && next.listener_handles()
                    == #[trigger] self.listener_handles().push(l)
            ||| exists|i: int|
                0 <= i < self.registrations().len() && next.registrations()
                    == #[trigger] self.registrations().remove(i) && next.listener_handles()
                    == self.listener_handles().remove(i)
        }
    }

    /// A transport bound to `socket_path` with no listener registered.
    pub fn new(socket_path: &str) -> (t: Self)
        ensures
            t.wf(),
            t.path() == socket_path@,
            t.registrations() == Seq::<RegistrationKey>::empty(),
            t.listener_handles() == Seq::<L>::empty(),
    {
        let t = UdsTransport { socket_path: socket_path.to_owned(), listeners: Vec::new() };
        assert(t.registrations() =~= Seq::<RegistrationKey>::empty());
        assert(t.listener_handles() =~= Seq::<L>::empty());
        t
    }

    /// Socket path this server is bound to.
    pub fn socket_path(&self) -> (p: &str)
        ensures
            p@ == self.path(),
    {
        self.socket_path.as_str()
    }

    /// A client that sends to this server's socket.
    pub fn client(&self) -> (c: UdsTransportClient)
        ensures
            c.path() == self.path(),
    {
        UdsTransportClient::new(self.socket_path.as_str())
    }

    /// The position of a registration, if it is there.
    fn position_of(&self, source_filter: &Uri, sink_filter: Option<&Uri>, listener_id: u64) -> (r: Option<usize>)
        ensures
            match r {
                Some(i) => i < self.registrations().len() && self.registrations()[i as int]
                    == key_of(source_filter, sink_filter, listener_id),
                None => !self.registrations().contains(key_of(source_filter, sink_filter, listener_id)),
            },
    {
        let ghost key = key_of(source_filter, sink_filter, listener_id);
        let mut i: usize = 0;
        while i < self.listeners.len()
            invariant
                i <= self.listeners@.len(),
                self.registrations().len() == self.listeners@.len(),
                key == key_of(source_filter, sink_filter, listener_id),
                forall|j: int| 0 <= j < i ==> self.registrations()[j] != key,
            decreases self.listeners@.len() - i,
        {
            assert(self.registrations()[i as int] == self.listeners@[i as int].key());
            if self.listeners[i].is_registration(source_filter, sink_filter, listener_id) {
                return Some(i);
            }
            i += 1;
        }
        None
    }

    /// Registers `listener` under the source filter and the optional sink
    /// filter. Filters that do not meet the filter criteria are refused, and so
    /// is the same listener under the same filters a second time.
    pub fn register_listener(
        &mut self,
        source_filter: &Uri,
        sink_filter: Option<&Uri>,
        listener_id: u64,
        listener: L,
    ) -> (r: Result<(), TransportError>)
        requires
            old(self).wf(),
        ensures
            final(self).wf(),
            final(self).path() == old(self).path(),
            old(self).step_to(*final(self)),
            r matches Err(TransportError::InvalidFilter(_)) <==> !filter_criteria_hold(
                source_filter@,
                opt_view(sink_filter),
            ),
            r matches Err(TransportError::AlreadyRegistered) <==> filter_criteria_hold(
                source_filter@,
                opt_view(sink_filter),
            ) && old(self).registrations().contains(key_of(source_filter, sink_filter, listener_id)),
            r is Ok <==> filter_criteria_hold(source_filter@, opt_view(sink_filter)) && !old(
                self,
            ).registrations().contains(key_of(source_filter, sink_filter, listener_id)),
            r is Ok ==> final(self).registrations() == old(self).registrations().push(
                key_of(source_filter, sink_filter, listener_id),
            ) && final(self).listener_handles() == old(self).listener_handles().push(listener),
            r is Err ==> final(self).registrations() == old(self).registrations()
                && final(self).listener_handles() == old(self).listener_handles(),
    {
        match check_filter_criteria(source_filter, sink_filter) {
            Ok(()) => {},
            Err(status) => return Err(TransportError::InvalidFilter(status)),
        }
        if self.position_of(source_filter, sink_filter, listener_id).is_some() {
            return Err(TransportError::AlreadyRegistered);
        }
        let sink_owned = match sink_filter {
            Some(u) => Some(copy_uri(u)),
            None => None,
        };
        let registered = RegisteredListener {
            source_filter: copy_uri(source_filter),
            sink_filter: sink_owned,
            listener_id,
            listener,
        };
        let ghost old_regs = self.registrations();
        let ghost old_handles = self.listener_handles();
        self.listeners.push(registered);
        assert(self.registrations() =~= old_regs.push(key_of(source_filter, sink_filter, listener_id)));
        assert(self.listener_handles() =~= old_handles.push(listener));
        assert(self.registrations().last() == key_of(source_filter, sink_filter, listener_id));
        Ok(())
    }

    /// Removes the registration of `listener_id` under the source filter and
    /// the optional sink filter; one that is not there is reported.
    pub fn unregister_listener(&mut self, source_filter: &Uri, sink_filter: Option<&Uri>, listener_id: u64) -> (r: Result<(), TransportError>)
        requires
            old(self).wf(),
        ensures
            final(self).wf(),
            final(self).path() == old(self).path(),
            old(self).step_to(*final(self)),
            r is Ok <==> old(self).registrations().contains(key_of(source_filter, sink_filter, listener_id)),
            r is Err ==> r matches Err(TransportError::NotRegistered),
            !filter_criteria_hold(source_filter@, opt_view(sink_filter)) ==> r matches Err(
                TransportError::NotRegistered,
            ),
            r is Ok ==> exists|i: int|
                0 <= i < old(self).registrations().len() && old(self).registrations()[i] == key_of(
                    source_filter,
                    sink_filter,
                    listener_id,
                ) && final(self).registrations() == old(self).registrations().remove(i)
                    && final(self).listener_handles() == old(self).listener_handles().remove(i),
            !final(self).registrations().contains(key_of(source_filter, sink_filter, listener_id)),
            r is Err ==> final(self).registrations() == old(self).registrations()
                && final(self).listener_handles() == old(self).listener_handles(),
    {
        let ghost key = key_of(source_filter, sink_filter, listener_id);
        match self.position_of(source_filter, sink_filter, listener_id) {
            Some(i) => {
                assert(meets_criteria(self.registrations()[i as int]));
                let ghost old_regs = self.registrations();
                let ghost old_handles = self.listener_handles();
                let _removed = self.listeners.remove(i);
                assert(self.registrations() =~= old_regs.remove(i as int));
                assert(self.listener_handles() =~= old_handles.remove(i as int));
                proof {
                    assert forall|j: int| 0 <= j < self.registrations().len() implies self.registrations()[j] != key by {
                        if j < i {
                            assert(old_regs[j] != old_regs[i as int]);
                        } else {
                            assert(old_regs[j + 1] != old_regs[i as int]);
                        }
                    }
                    assert(self.registrations().no_duplicates()) by {
                        assert forall|a: int, b: int| 0 <= a < b < self.registrations().len() implies self.registrations()[a] != self.registrations()[b] by {
                            let a0 = if a < i { a } else { a + 1 };
                            let b0 = if b < i { b } else { b + 1 };
                            assert(old_regs[a0] != old_regs[b0]);
                        }
                    }
                    assert forall|j: int| 0 <= j < self.registrations().len() implies #[trigger] meets_criteria(self.registrations()[j]) by {
                        if j < i {
                            assert(meets_criteria(old_regs[j]));
                        } else {
                            assert(meets_criteria(old_regs[j + 1]));
                        }
                    }
                }
                Ok(())
            },
            None => Err(TransportError::NotRegistered),
        }
    }

    /// The positions, in registration order, of the registrations that a
    /// message with these attributes is delivered to.
    pub fn dispatch_targets(&self, attributes: &Option<MessageAttributes>) -> (targets: Vec<usize>)
        ensures
            forall|k: int| 0 <= k < targets@.len() ==> targets@[k] < self.registrations().len(),
            forall|k: int, m: int| 0 <= k < m < targets@.len() ==> targets@[k] < targets@[m],
            forall|i: int|
                0 <= i < self.registrations().len() ==> (targets@.contains(i as usize) <==> key_matches(
                    #[trigger] self.registrations()[i],
                    attributes_view(attributes),
                )),
    {
        let mut targets: Vec<usize> = Vec::new();
        let mut i: usize = 0;
        while i < self.listeners.len()
            invariant
                i <= self.listeners@.len(),
                self.registrations().len() == self.listeners@.len(),
                forall|k: int| 0 <= k < targets@.len() ==> targets@[k] < i,
                forall|k: int, m: int| 0 <= k < m < targets@.len() ==> targets@[k] < targets@[m],
                forall|j: int|
                    0 <= j < i ==> (targets@.contains(j as usize) <==> key_matches(
                        #[trigger] self.registrations()[j],
                        attributes_view(attributes),
                    )),
            decreases self.listeners@.len() - i,
        {
            let ghost before = targets@;
            if self.listeners[i].matches_msg(attributes) {
                targets.push(i);
                proof {
                    assert forall|j: int| 0 <= j <= i implies (targets@.contains(j as usize) <==> key_matches(
                        #[trigger] self.registrations()[j],
                        attributes_view(attributes),
                    )) by {
                        if j < i {
                            if before.contains(j as usize) {
                                let k = choose|k: int| 0 <= k < before.len() && before[k] == j as usize;
                                assert(targets@[k] == j as usize);
                            }
                            if targets@.contains(j as usize) {
                                let k = choose|k: int| 0 <= k < targets@.len() && targets@[k] == j as usize;
                                if k == before.len() {
                                } else {
                                    assert(before[k] == j as usize);
                                }
                            }
                        } else {
                            assert(targets@[before.len() as int] == i);
                        }
                    }
                }
            } else {
                proof {
                    assert forall|j: int| 0 <= j <= i implies (targets@.contains(j as usize) <==> key_matches(
                        #[trigger] self.registrations()[j],
                        attributes_view(attributes),
                    )) by {
                        if j == i {
                            if targets@.contains(j as usize) {
                                let k = choose|k: int| 0 <= k < targets@.len() && targets@[k] == j as usize;
                                assert(targets@[k] < i);
                            }
                        }
                    }
                }
            }
            i += 1;
        }
        targets
    }

    /// The listener handle of the registration at position `i`.
    pub fn listener_at(&self, i: usize) -> (l: &L)
        requires
            i < self.registrations().len(),
        ensures
            *l == self.listener_handles()[i as int],
    {
        &self.listeners[i].listener
    }
}


/// Registering a listener and then unregistering the same registration leaves
/// the registrations and the listener handles as they were: the registration
/// that unregistering finds is the one just added, at the end.
pub proof fn lemma_unregister_undoes_register<L>(
    regs: Seq<RegistrationKey>,
    handles: Seq<L>,
    key: RegistrationKey,
    listener: L,
    i: int,
)
    requires
        !regs.contains(key),
        handles.len() == regs.len(),
        0 <= i < regs.push(key).len(),
        regs.push(key)[i] == key,
    ensures
        i == regs.len(),
        regs.push(key).remove(i) == regs,
        handles.push(listener).remove(i) == handles,
{
    if i < regs.len() {
        assert(regs[i] == key);
    }
    assert(regs.push(key).remove(i) =~= regs);
    assert(handles.push(listener).remove(i) =~= handles);
}

/// Once a registration has been added, the same registration is present, so
/// registering it again is refused as already registered.
pub proof fn lemma_registered_twice_is_present(regs: Seq<RegistrationKey>, key: RegistrationKey)
    ensures
        regs.push(key).contains(key),
{
    assert(regs.push(key)[regs.len() as int] == key);
}

/// A listener registered with a source filter and no sink filter receives
/// every message without a sink whose source the filter matches.
pub proof fn lemma_source_filter_delivers(key: RegistrationKey, source: UriView)
    requires
        key.sink_filter is None,
        uri_matches(key.source_filter, source),
    ensures
        key_matches(key, Some(AttributesView { source: Some(source), sink: None })),
{
}

/// A message without attributes, or without a source, reaches no listener;
/// and a listener without a sink filter receives no message that carries a
/// sink.
pub proof fn lemma_no_delivery_without_source(key: RegistrationKey, attributes: Option<AttributesView>)
    ensures
        attributes is None ==> !key_matches(key, attributes),
        attributes matches Some(a) && a.source is None ==> !key_matches(key, attributes),
        key.sink_filter is None ==> (attributes matches Some(a) && a.sink is Some ==> !key_matches(
            key,
            attributes,
        )),
{
}


/// One registration or unregistration keeps a well-formed transport well
/// formed.
pub proof fn lemma_step_keeps_wf<L>(a: UdsTransport<L>, b: UdsTransport<L>)
    requires
        a.wf(),
        a.step_to(b),
    ensures
        b.wf(),
{
    let regs = a.registrations();
    if b.registrations() == regs {
    } else if exists|k: RegistrationKey, l: L|
        meets_criteria(k) && !regs.contains(k) && b.registrations() == #[trigger] regs.push(k)
            && b.listener_handles() == #[trigger] a.listener_handles().push(l) {
        let (k, l) = choose|k: RegistrationKey, l: L|
            meets_criteria(k) && !regs.contains(k) && b.registrations() == #[trigger] regs.push(k)
                && b.listener_handles() == #[trigger] a.listener_handles().push(l);
        let next = regs.push(k);
        assert forall|x: int, y: int| 0 <= x < y < next.len() implies next[x] != next[y] by {
            if y == regs.len() {
                assert(next[x] == regs[x]);
            } else {
                assert(regs[x] != regs[y]);
            }
        }
        assert forall|j: int| 0 <= j < next.len() implies #[trigger] meets_criteria(next[j]) by {
            if j < regs.len() {
                assert(meets_criteria(regs[j]));
            }
        }
    } else {
        let i = choose|i: int|
            0 <= i < regs.len() && b.registrations() == #[trigger] regs.remove(i)
                && b.listener_handles() == a.listener_handles().remove(i);
        let next = regs.remove(i);
        assert forall|x: int, y: int| 0 <= x < y < next.len() implies next[x] != next[y] by {
            let x0 = if x < i { x } else { x + 1 };
            let y0 = if y < i { y } else { y + 1 };
            assert(regs[x0] != regs[y0]);
        }
        assert forall|j: int| 0 <= j < next.len() implies #[trigger] meets_criteria(next[j]) by {
            if j < i {
                assert(meets_criteria(regs[j]));
            } else {
                assert(meets_criteria(regs[j + 1]));
            }
        }
    }
}

/// Along any run of registrations and unregistrations that starts from a
/// well-formed transport (a new one is), no listener is ever registered twice
/// under the same filters, every registration meets the filter criteria, and
/// the socket path stays the one the run started with.
pub proof fn lemma_runs_keep_wf<L>(run: Seq<UdsTransport<L>>)
    requires
        run.len() > 0,
        run[0].wf(),
        forall|n: int| #![trigger run[n]] 0 <= n < run.len() - 1 ==> run[n].step_to(run[n + 1]),
    ensures
        forall|n: int| #![trigger run[n]] 0 <= n < run.len() ==> run[n].wf() && run[n].path()
            == run[0].path(),
    decreases run.len(),
{
    if run.len() > 1 {
        let prefix = run.drop_last();
        assert forall|n: int| #![trigger prefix[n]] 0 <= n < prefix.len() - 1 implies prefix[n].step_to(
            prefix[n + 1],
        ) by {
            assert(prefix[n] == run[n]);
            assert(prefix[n + 1] == run[n + 1]);
        }
        assert(prefix[0] == run[0]);
        lemma_runs_keep_wf(prefix);
        let last = run.len() - 1;
        assert(run[last - 1] == prefix[last - 1]);
        assert(run[last - 1].step_to(run[last]));
        lemma_step_keeps_wf(run[last - 1], run[last]);
        assert forall|n: int| #![trigger run[n]] 0 <= n < run.len() implies run[n].wf() && run[n].path()
            == run[0].path() by {
            if n < last {
                assert(run[n] == prefix[n]);
            }
        }
    }
}

/// A copy of a URI.
fn copy_uri(u: &Uri) -> (c: Uri)
    ensures
        c@ == u@,
{
    Uri {
        authority_name: u.authority_name.clone(),
        ue_id: u.ue_id,
        ue_version_major: u.ue_version_major,
        resource_id: u.resource_id,
    }
}

/// The client side of the socket transport: it sends each message on a
/// fresh connection to the socket path.
pub struct UdsTransportClient {
    socket_path: String,
}

impl UdsTransportClient {
    /// The socket path, as a value.
    pub closed spec fn path(&self) -> Seq<char> {
        self.socket_path@
    }

    /// A client for the socket at `socket_path`.
    pub fn new(socket_path: &str) -> (c: Self)
        ensures
            c.path() == socket_path@,
    {
        UdsTransportClient { socket_path: socket_path.to_owned() }
    }

    /// The socket path this client connects to.
    pub fn socket_path(&self) -> (p: &str)
        ensures
            p@ == self.path(),
    {
        self.socket_path.as_str()
    }

    /// The bytes that sending `message` writes to the socket: the framed
    /// encoding of the message.
    pub fn frame_message(&self, message: &UMessage) -> (r: Result<Vec<u8>, TransportError>)
        ensures
            match r {
                Ok(framed) => serialized(*message, Ok(framed)),
                Err(TransportError::Framing(e)) => serialized(*message, Err(e)),
                Err(_) => false,
            },
    {
        match serialize_for_unix_socket(message) {
            Ok(framed) => Ok(framed),
            Err(e) => Err(TransportError::Framing(e)),
        }
    }

    /// Listeners cannot be registered with a client.
    pub fn register_listener(&self, source_filter: &Uri, sink_filter: Option<&Uri>, listener_id: u64) -> (r: Result<(), TransportError>)
        ensures
            r matches Err(TransportError::RegistrationUnsupported),
    {
        Err(TransportError::RegistrationUnsupported)
    }

    /// Listeners cannot be unregistered from a client.
    pub fn unregister_listener(&self, source_filter: &Uri, sink_filter: Option<&Uri>, listener_id: u64) -> (r: Result<(), TransportError>)
        ensures
            r matches Err(TransportError::RegistrationUnsupported),
    {
        Err(TransportError::RegistrationUnsupported)
    }
}

} // verus!
