//! The collaborative editing channel: frames made of one identifier byte
//! and a payload, the decisions a client session takes on each message,
//! and the bookkeeping of the clients of a shared document.
use vstd::prelude::*;
use yrs::updates::decoder::Decode;
use yrs::{Doc, ReadTxn, StateVector, Transact, Update};

verus! {

// ---------------------------------------------------------------------------
// Frames
// ---------------------------------------------------------------------------

/// The kinds of channel messages.
#[derive(Clone, Copy, Debug, PartialEq, Eq, Structural)]
pub enum MessageKind {
    /// A client asks to join a document session (JSON payload).
    Connect,
    /// The server acknowledges a connection (JSON payload).
    Welcome,
    /// A client asks for the document; the payload is its state vector.
    GetDoc,
    /// An encoded document update.
    DocUpdate,
    /// An update was received (no payload).
    ReceivedDocUpdate,
    /// A client sets its cursor (JSON payload).
    SetCursor,
    /// A client removes its cursor (JSON payload).
    RemoveCursor,
    /// A client leaves the document session (JSON payload).
    Disconnect,
    /// The server reports an error (JSON payload).
    Error,
}

/// The identifier byte of each kind.
pub open spec fn kind_byte(k: MessageKind) -> u8 {
    match k {
        MessageKind::Connect => 10,
        MessageKind::Welcome => 11,
        MessageKind::GetDoc => 20,
        MessageKind::DocUpdate => 30,
        MessageKind::ReceivedDocUpdate => 31,
        MessageKind::SetCursor => 40,
        MessageKind::RemoveCursor => 41,
        MessageKind::Disconnect => 50,
        MessageKind::Error => 60,
    }
}

/// The kind an identifier byte stands for.
pub open spec fn byte_kind(b: u8) -> Option<MessageKind> {
    if b == 10 {
        Some(MessageKind::Connect)
    } else if b == 11 {
        Some(MessageKind::Welcome)
    } else if b == 20 {
        Some(MessageKind::GetDoc)
    } else if b == 30 {
        Some(MessageKind::DocUpdate)
    } else if b == 31 {
        Some(MessageKind::ReceivedDocUpdate)
    } else if b == 40 {
        Some(MessageKind::SetCursor)
    } else if b == 41 {
        Some(MessageKind::RemoveCursor)
    } else if b == 50 {
        Some(MessageKind::Disconnect)
    } else if b == 60 {
        Some(MessageKind::Error)
    } else {
        None
    }
}

/// Whether a kind carries a payload.
pub open spec fn has_payload(k: MessageKind) -> bool {
    k != MessageKind::ReceivedDocUpdate
}

/// A message as a kind and its payload bytes (JSON for the kinds that carry
/// structured data, raw bytes for document data).
#[derive(Clone, Debug, PartialEq, Eq)]
pub struct Frame {
    pub kind: MessageKind,
    pub payload: Vec<u8>,
}

/// Why a frame could not be read.
#[derive(Clone, Copy, Debug, PartialEq, Eq, Structural)]
pub enum WebsocketDecodeEncodeError {
    /// The frame had no bytes, so no identifier could be read.
    EmptyMessage,
    /// The first byte is no known identifier.
    UnknownMessageType,
}

/// The bytes of a frame: its identifier byte, then the payload for the
/// kinds that carry one.
pub open spec fn encode_spec(kind: MessageKind, payload: Seq<u8>) -> Seq<u8> {
    seq![kind_byte(kind)] + if has_payload(kind) {
        payload
    } else {
        Seq::empty()
    }
}

/// The frame read from bytes: the kind of the first byte, the rest as
/// payload for kinds that carry one.
pub open spec fn decode_spec(bytes: Seq<u8>) -> Result<
    (MessageKind, Seq<u8>),
    WebsocketDecodeEncodeError,
> {
    if bytes.len() == 0 {
        Err(WebsocketDecodeEncodeError::EmptyMessage)
    } else {
        match byte_kind(bytes[0]) {
            Some(k) => Ok(
                (
                    k,
                    if has_payload(k) {
                        bytes.skip(1)
                    } else {
                        Seq::empty()
                    },
                ),
            ),
            None => Err(WebsocketDecodeEncodeError::UnknownMessageType),
        }
    }
}

fn kind_byte_exec(k: MessageKind) -> (b: u8)
    ensures
        b == kind_byte(k),
{
    match k {
        MessageKind::Connect => 10,
        MessageKind::Welcome => 11,
        MessageKind::GetDoc => 20,
        MessageKind::DocUpdate => 30,
        MessageKind::ReceivedDocUpdate => 31,
        MessageKind::SetCursor => 40,
        MessageKind::RemoveCursor => 41,
        MessageKind::Disconnect => 50,
        MessageKind::Error => 60,
    }
}

fn byte_kind_exec(b: u8) -> (k: Option<MessageKind>)
    ensures
        k == byte_kind(b),
{
    if b == 10 {
        Some(MessageKind::Connect)
    } else if b == 11 {
        Some(MessageKind::Welcome)
    } else if b == 20 {
        Some(MessageKind::GetDoc)
    } else if b == 30 {
        Some(MessageKind::DocUpdate)
    } else if b == 31 {
        Some(MessageKind::ReceivedDocUpdate)
    } else if b == 40 {
        Some(MessageKind::SetCursor)
    } else if b == 41 {
        Some(MessageKind::RemoveCursor)
    } else if b == 50 {
        Some(MessageKind::Disconnect)
    } else if b == 60 {
        Some(MessageKind::Error)
    } else {
        None
    }
}

impl Frame {
    /// The bytes sent for this frame.
    pub fn into_bytes(&self) -> (r: Vec<u8>)
        ensures
            r@ == encode_spec(self.kind, self.payload@),
    {
        let mut r: Vec<u8> = Vec::new();
        r.push(kind_byte_exec(self.kind));
        if self.kind != MessageKind::ReceivedDocUpdate {
            let mut i: usize = 0;
            while i < self.payload.len()
                invariant
                    i <= self.payload.len(),
                    r@ == seq![kind_byte(self.kind)] + self.payload@.take(i as int),
                decreases self.payload.len() - i,
            {
                r.push(self.payload[i]);
                assert(self.payload@.take(i + 1) =~= self.payload@.take(i as int).push(
                    self.payload@[i as int],
                ));
                i = i + 1;
            }
            assert(self.payload@.take(i as int) =~= self.payload@);
        } else {
            assert(r@ =~= seq![kind_byte(self.kind)] + Seq::<u8>::empty());
        }
        r
    }

    /// Reads a frame: the first byte selects the kind, the remaining bytes
    /// are the payload.
    pub fn try_from_bytes(value: &Vec<u8>) -> (r: Result<Frame, WebsocketDecodeEncodeError>)
        ensures
            match decode_spec(value@) {
                Ok((k, p)) => r matches Ok(f) && f.kind == k && f.payload@ == p,
                Err(e) => r == Err::<Frame, WebsocketDecodeEncodeError>(e),
            },
    {
        if value.len() == 0 {
            return Err(WebsocketDecodeEncodeError::EmptyMessage);
        }
        match byte_kind_exec(value[0]) {
            None => Err(WebsocketDecodeEncodeError::UnknownMessageType),
            Some(kind) => {
                let mut payload: Vec<u8> = Vec::new();
                if kind != MessageKind::ReceivedDocUpdate {
                    let mut i: usize = 1;
                    while i < value.len()
                        invariant
                            1 <= i <= value.len(),
                            payload@ == value@.subrange(1, i as int),
                        decreases value.len() - i,
                    {
                        payload.push(value[i]);
                        assert(value@.subrange(1, i + 1) =~= value@.subrange(1, i as int).push(
                            value@[i as int],
                        ));
                        i = i + 1;
                    }
                    assert(value@.subrange(1, value.len() as int) =~= value@.skip(1));
                } else {
                    assert(payload@ =~= Seq::<u8>::empty());
                }
                Ok(Frame { kind, payload })
            },
        }
    }
}

/// A frame read back from its bytes is the frame that was sent, except that
/// an acknowledgement carries no payload.
pub proof fn lemma_frame_round_trip(kind: MessageKind, payload: Seq<u8>)
    ensures
        decode_spec(encode_spec(kind, payload)) == Ok::<
            (MessageKind, Seq<u8>),
            WebsocketDecodeEncodeError,
        >((kind, if has_payload(kind) {
            payload
        } else {
            Seq::empty()
        })),
{
    let bytes = encode_spec(kind, payload);
    assert(bytes[0] == kind_byte(kind));
    assert(byte_kind(kind_byte(kind)) == Some(kind));
    if has_payload(kind) {
        assert(bytes.skip(1) =~= payload);
    }
}

/// Every identifier byte stands for the kind whose byte it is.
pub proof fn lemma_byte_kind_inverse(b: u8)
    ensures
        byte_kind(b) matches Some(k) ==> kind_byte(k) == b,
{
}

// ---------------------------------------------------------------------------
// Error replies
// ---------------------------------------------------------------------------

/// An error reported to a client.
#[derive(Clone, Debug, PartialEq, Eq)]
pub struct ErrorMessage {
    /// An HTTP-like status code.
    pub status: u16,
    /// A description of the error.
    pub error: String,
}

pub open spec fn not_found_text() -> Seq<char> {
    "Document not found. Make sure you connect first and provide a valid document id."@
}

/// The reply to a request about a document this session has not joined or
/// that is not loaded.
pub fn document_not_found() -> (r: ErrorMessage)
    ensures
        r.status == 404,
        r.error@ == not_found_text(),
{
    let mut error = String::new();
    error.append("Document not found. Make sure you connect first and provide a valid document id.");
    ErrorMessage { status: 404, error }
}

/// The reply to a frame that could not be read.
pub fn frame_error_reply(e: WebsocketDecodeEncodeError) -> (r: ErrorMessage)
    ensures
        r.status == 400,
        e == WebsocketDecodeEncodeError::EmptyMessage ==> r.error@ == "Empty message"@,
        e == WebsocketDecodeEncodeError::UnknownMessageType ==> r.error@ == "Unknown message type"@,
{
    let mut error = String::new();
    match e {
        WebsocketDecodeEncodeError::EmptyMessage => error.append("Empty message"),
        WebsocketDecodeEncodeError::UnknownMessageType => error.append("Unknown message type"),
    }
    ErrorMessage { status: 400, error }
}

// ---------------------------------------------------------------------------
// Client sessions
// ---------------------------------------------------------------------------

/// A client connection: its identifier and the document it joined.
#[derive(Clone, Copy, Debug, PartialEq, Eq, Structural)]
pub struct ClientSession {
    pub client_id: u128,
    pub document_id: Option<u128>,
}

/// A message received from a client, as far as the session's decisions
/// depend on it.
#[derive(Clone, Copy, Debug, PartialEq, Eq, Structural)]
pub enum SessionEvent {
    Connect { document_id: u128 },
    GetDoc,
    DocUpdate,
    SetCursor,
    RemoveCursor,
    Disconnect,
    /// Any message a client is not expected to send.
    Other,
}

/// What the server does for a message.
#[derive(Clone, Copy, Debug, PartialEq, Eq, Structural)]
pub enum SessionPlan {
    /// Register the client with the document, load it if needed, subscribe
    /// to its updates and reply with a welcome.
    Join { document_id: u128 },
    /// Reply with the document's difference to the client's state vector,
    /// or with "not found" when the document is not loaded.
    SendDocument { document_id: u128 },
    /// Apply the update to the document and pass it on to the other
    /// clients, then acknowledge; "not found" when it is not loaded.
    ApplyUpdate { document_id: u128 },
    /// Pass the cursor message on to the other clients; "not found" when
    /// the document is not loaded.
    ForwardCursor { document_id: u128 },
    /// Tell the other clients the cursor is gone, remove the client from
    /// the document, and store and unload the document when no client is
    /// left.
    Leave { document_id: u128 },
    /// Reply with an acknowledgement only.
    Acknowledge,
    /// Reply "not found".
    NotFound,
    /// Reply nothing.
    Nothing,
}

/// The session after a message and what is done for it.
pub open spec fn session_step_spec(s: ClientSession, e: SessionEvent) -> (ClientSession, SessionPlan) {
    match e {
        SessionEvent::Connect { document_id } => (
            ClientSession { document_id: Some(document_id), ..s },
            SessionPlan::Join { document_id },
        ),
        SessionEvent::GetDoc => match s.document_id {
            Some(d) => (s, SessionPlan::SendDocument { document_id: d }),
            None => (s, SessionPlan::NotFound),
        },
        SessionEvent::DocUpdate => match s.document_id {
            Some(d) => (s, SessionPlan::ApplyUpdate { document_id: d }),
            None => (s, SessionPlan::Acknowledge),
        },
        SessionEvent::SetCursor | SessionEvent::RemoveCursor => match s.document_id {
            Some(d) => (s, SessionPlan::ForwardCursor { document_id: d }),
            None => (s, SessionPlan::Nothing),
        },
        SessionEvent::Disconnect => match s.document_id {
            Some(d) => (ClientSession { document_id: None, ..s }, SessionPlan::Leave { document_id: d }),
            None => (s, SessionPlan::Nothing),
        },
        SessionEvent::Other => (s, SessionPlan::Nothing),
    }
}

impl ClientSession {
    /// A new connection that has joined no document.
    pub fn new(client_id: u128) -> (r: ClientSession)
        ensures
            r == (ClientSession { client_id, document_id: None }),
    {
        ClientSession { client_id, document_id: None }
    }

    /// Decides what is done for a message and moves the session on.
    pub fn step(&mut self, event: SessionEvent) -> (plan: SessionPlan)
        ensures
            (*final(self), plan) == session_step_spec(*old(self), event),
    {
        match event {
            SessionEvent::Connect { document_id } => {
                self.document_id = Some(document_id);
                SessionPlan::Join { document_id }
            },
            SessionEvent::GetDoc => match self.document_id {
                Some(d) => SessionPlan::SendDocument { document_id: d },
                None => SessionPlan::NotFound,
            },
            SessionEvent::DocUpdate => match self.document_id {
                Some(d) => SessionPlan::ApplyUpdate { document_id: d },
                None => SessionPlan::Acknowledge,
            },
            SessionEvent::SetCursor | SessionEvent::RemoveCursor => match self.document_id {
                Some(d) => SessionPlan::ForwardCursor { document_id: d },
                None => SessionPlan::Nothing,
            },
            SessionEvent::Disconnect => match self.document_id {
                Some(d) => {
                    self.document_id = None;
                    SessionPlan::Leave { document_id: d }
                },
                None => SessionPlan::Nothing,
            },
            SessionEvent::Other => SessionPlan::Nothing,
        }
    }
}

/// A session that has joined document `d` acts on that document: a
/// cursor set or removed is passed on to the other clients of `d`, a
/// request for the document is answered from `d`, an update is applied to
/// `d`, and leaving leaves `d`; none of these but leaving changes the
/// session.
pub proof fn lemma_joined_session_plans(s: ClientSession, d: u128)
    requires
        s.document_id == Some(d),
    ensures
        session_step_spec(s, SessionEvent::SetCursor) == (s, (SessionPlan::ForwardCursor { document_id: d })),
        session_step_spec(s, SessionEvent::RemoveCursor) == (s, (SessionPlan::ForwardCursor { document_id: d })),
        session_step_spec(s, SessionEvent::GetDoc) == (s, (SessionPlan::SendDocument { document_id: d })),
        session_step_spec(s, SessionEvent::DocUpdate) == (s, (SessionPlan::ApplyUpdate { document_id: d })),
        session_step_spec(s, SessionEvent::Disconnect).1 == (SessionPlan::Leave { document_id: d }),
        session_step_spec(s, SessionEvent::Other) == (s, SessionPlan::Nothing),
{
}

/// A session that has joined no document passes no cursor on, answers a
/// request for the document as not found, acknowledges an update without
/// applying it, and leaves nothing.
pub proof fn lemma_unjoined_session_plans(s: ClientSession)
    requires
        s.document_id is None,
    ensures
        session_step_spec(s, SessionEvent::SetCursor) == (s, SessionPlan::Nothing),
        session_step_spec(s, SessionEvent::RemoveCursor) == (s, SessionPlan::Nothing),
        session_step_spec(s, SessionEvent::GetDoc) == (s, SessionPlan::NotFound),
        session_step_spec(s, SessionEvent::DocUpdate) == (s, SessionPlan::Acknowledge),
        session_step_spec(s, SessionEvent::Disconnect) == (s, SessionPlan::Nothing),
{
}

/// After connecting to document `d`, a cursor message is passed on to the
/// other clients of `d`, whatever the session was before.
pub proof fn lemma_cursor_after_connect(s: ClientSession, d: u128, e: SessionEvent)
    requires
        e == SessionEvent::SetCursor || e == SessionEvent::RemoveCursor,
    ensures
        session_step_spec(session_step_spec(s, (SessionEvent::Connect { document_id: d })).0, e).1
            == (SessionPlan::ForwardCursor { document_id: d }),
        session_step_spec(s, (SessionEvent::Connect { document_id: d })).1 == (SessionPlan::Join { document_id: d }),
{
}

/// A session keeps its client, and after any message it has joined exactly
/// the document of its last connect, unless it left since.
pub proof fn lemma_session_document(s: ClientSession, e: SessionEvent)
    ensures
        session_step_spec(s, e).0.client_id == s.client_id,
        e matches SessionEvent::Connect { document_id } ==> session_step_spec(s, e).0.document_id
            == Some(document_id),
        e == SessionEvent::Disconnect ==> session_step_spec(s, e).0.document_id is None,
        !(e matches SessionEvent::Connect { .. }) && e != SessionEvent::Disconnect
            ==> session_step_spec(s, e).0 == s,
{
}

// ---------------------------------------------------------------------------
// The shared document
// ---------------------------------------------------------------------------

/// `yrs::Doc`, the shared document of a session.
#[verifier::external_type_specification]
#[verifier::external_body]
pub struct ExDoc(Doc);

/// `yrs::StateVector`, what a client already has of a document.
#[verifier::external_type_specification]
#[verifier::external_body]
pub struct ExStateVector(StateVector);

/// `yrs::Update`, a change to a document.
#[verifier::external_type_specification]
#[verifier::external_body]
pub struct ExUpdate(Update);

/// The error text of `StateVector::decode_v1` on these bytes, `None` where
/// they decode.
pub uninterp spec fn state_vector_error(bytes: Seq<u8>) -> Option<Seq<char>>;

/// `StateVector::decode_v1`: the state vector the bytes encode, or the
/// text of the decoding error.
#[verifier::external_body]
fn decode_state_vector(bytes: &[u8]) -> (r: Result<StateVector, String>)
    ensures
        match state_vector_error(bytes@) {
            None => r is Ok,
            Some(m) => r matches Err(e) && e@ == m,
        },
{
    StateVector::decode_v1(bytes).map_err(|e| e.to_string())
}

/// The error text of `Update::decode_v1` on these bytes, `None` where they
/// decode.
pub uninterp spec fn update_error(bytes: Seq<u8>) -> Option<Seq<char>>;

/// `Update::decode_v1`: the update the bytes encode, or the text of the
/// decoding error.
#[verifier::external_body]
fn decode_update(bytes: &[u8]) -> (r: Result<Update, String>)
    ensures
        match update_error(bytes@) {
            None => r is Ok,
            Some(m) => r matches Err(e) && e@ == m,
        },
{
    Update::decode_v1(bytes).map_err(|e| e.to_string())
}

/// `encode_diff_v1` in a read transaction of the document: what the holder
/// of the state vector lacks, encoded as an update in the v1 form that
/// `Update::decode_v1` reads. Which changes it holds depends on the
/// document's current state, of which nothing is stated.
#[verifier::external_body]
fn document_diff(doc: &Doc, state_vector: &StateVector) -> (r: Vec<u8>)
    ensures
        update_error(r@) is None,
{
    doc.transact().encode_diff_v1(state_vector)
}

/// `apply_update` in a read-write transaction of the document, with the
/// text of the error where it fails. Whether it fails depends on the
/// document's current state, of which nothing is stated.
#[verifier::external_body]
fn apply_to_document(doc: &Doc, update: Update) -> Result<(), String> {
    doc.transact_mut().apply_update(update).map_err(|e| e.to_string())
}

fn prefixed_reply(status: u16, prefix: &str, message: String) -> (r: ErrorMessage)
    ensures
        r.status == status,
        r.error@ == prefix@ + message@,
{
    let mut error = String::new();
    error.append(prefix);
    error.append(message.as_str());
    ErrorMessage { status, error }
}

/// The reply to a request for the document with the client's encoded state
/// vector: a state vector that does not decode is refused (400) before
/// anything else; a document that is not loaded is not found (404);
/// otherwise the reply is the encoded difference that the client lacks, an
/// update that decodes.
pub fn document_reply(doc: Option<&Doc>, raw_state_vector: &[u8]) -> (r: Result<Vec<u8>, ErrorMessage>)
    ensures
        match state_vector_error(raw_state_vector@) {
            Some(m) => r matches Err(e) && e.status == 400 && e.error@ == "Failed to decode StateVector: "@ + m,
            None => match doc {
                None => r matches Err(e) && e.status == 404 && e.error@ == not_found_text(),
                Some(_) => r matches Ok(v) && update_error(v@) is None,
            },
        },
{
    let sv = match decode_state_vector(raw_state_vector) {
        Ok(sv) => sv,
        Err(e) => return Err(prefixed_reply(400, "Failed to decode StateVector: ", e)),
    };
    match doc {
        Some(d) => Ok(document_diff(d, &sv)),
        None => Err(document_not_found()),
    }
}

/// What applying a client's encoded update gives: an update that does not
/// decode is refused (400) before anything else; a document that is not
/// loaded is not found (404); an update the document cannot take is a
/// server error (500) with the error's text; otherwise it is applied.
pub fn update_reply(doc: Option<&Doc>, raw_update: &[u8]) -> (r: Result<(), ErrorMessage>)
    ensures
        match update_error(raw_update@) {
            Some(m) => r matches Err(e) && e.status == 400 && e.error@ == "Failed to decode update: "@ + m,
            None => match doc {
                None => r matches Err(e) && e.status == 404 && e.error@ == not_found_text(),
                Some(_) => r is Ok || (r matches Err(e) && e.status == 500 && exists|m: Seq<char>|
                    e.error@ == "Failed to apply update: "@ + m),
            },
        },
{
    let update = match decode_update(raw_update) {
        Ok(u) => u,
        Err(e) => return Err(prefixed_reply(400, "Failed to decode update: ", e)),
    };
    match doc {
        Some(d) => match apply_to_document(d, update) {
            Ok(()) => Ok(()),
            Err(e) => Err(prefixed_reply(500, "Failed to apply update: ", e)),
        },
        None => Err(document_not_found()),
    }
}

// ---------------------------------------------------------------------------
// Clients of a document
// ---------------------------------------------------------------------------

/// The clients other than `client`, in order.
pub open spec fn without_client(clients: Seq<u128>, client: u128) -> Seq<u128> {
    clients.filter(other_than(client))
}

pub open spec fn other_than(client: u128) -> spec_fn(u128) -> bool {
    |c: u128| c != client
}

/// Adds a client to the clients of a document.
pub fn join_clients(clients: &mut Vec<u128>, client: u128)
    ensures
        final(clients)@ == old(clients)@.push(client),
{
    clients.push(client);
}

/// Removes every occurrence of `client` from the clients of a document and
/// tells whether none is left, in which case the document is stored and
/// unloaded.
pub fn leave_clients(clients: &mut Vec<u128>, client: u128) -> (now_empty: bool)
    ensures
        final(clients)@ == without_client(old(clients)@, client),
        now_empty == (final(clients)@.len() == 0),
{
    let ghost orig = clients@;
    let mut kept: Vec<u128> = Vec::new();
    let mut i: usize = 0;
    proof {
        reveal(Seq::filter);
        assert(orig.take(0) =~= Seq::<u128>::empty());
    }
    while i < clients.len()
        invariant
            i <= clients.len(),
            clients@ == orig,
            kept@ == without_client(orig.take(i as int), client),
        decreases clients.len() - i,
    {
        proof {
            reveal(Seq::filter);
            assert(orig.take(i + 1).drop_last() =~= orig.take(i as int));
            assert(orig.take(i + 1).last() == orig[i as int]);
        }
        if clients[i] != client {
            kept.push(clients[i]);
        }
        i = i + 1;
    }
    assert(orig.take(i as int) =~= orig);
    *clients = kept;
    clients.len() == 0
}

/// After leaving, the client is no longer among the clients of the
/// document, and every other client still is.
pub proof fn lemma_leave_removes_only_client(clients: Seq<u128>, client: u128, other: u128)
    ensures
        !without_client(clients, client).contains(client),
        other != client ==> (without_client(clients, client).contains(other) <==> clients.contains(
            other,
        )),
{
    let f = other_than(client);
    if without_client(clients, client).contains(client) {
        let k = choose|k: int|
            0 <= k < clients.filter(f).len() && clients.filter(f)[k] == client;
        clients.lemma_filter_pred(f, k);
    }
    if other != client {
        if clients.contains(other) {
            let k = choose|k: int| 0 <= k < clients.len() && clients[k] == other;
            clients.lemma_filter_contains(f, k);
        }
        if without_client(clients, client).contains(other) {
            clients.lemma_filter_contains_rev(f, other);
        }
    }
}

} // verus!
