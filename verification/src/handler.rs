//! The per-connection state machine.
//!
//! A connection starts disconnected. One successful connect captures the
//! server configuration and moves it to connected, where it stays until the
//! connection closes; a second connect and a read without a session are
//! rejected with fixed error messages. The functions here never perform the
//! outside call themselves: [`handle_request`] turns a request into a
//! [`Plan`] — either an immediate response or an attempt the caller must
//! carry out — and [`on_connect_result`] / [`on_read_result`] turn the
//! attempt's outcome into the response, so the decision logic is verified for
//! every outcome the outside world can hand back.

use vstd::prelude::*;
use vstd::string::StringExecFns;

verus! {

// ---------------------------------------------------------------------------
// Data model and its spec-level views
// ---------------------------------------------------------------------------
/// Server coordinates captured at connect time, immutable afterwards.
#[derive(Debug, Clone)]
pub struct ServerConfig {
    pub host: String,
    pub port: u16,
    pub namespace: u16,
    pub endpoint: Option<String>,
}

/// A request decoded from one frame.
#[derive(Debug, Clone)]
pub enum Request {
    Connect { host: String, port: u16, namespace: u16, endpoint: Option<String> },
    Read { node_ids: Vec<String> },
}

/// A response to be encoded into one frame. The elements of `values` are
/// opaque pass-through payloads, each already in its serialized text form.
#[derive(Debug, Clone, PartialEq, Eq)]
pub enum Response {
    ConnectOk,
    Error { message: String },
    ReadOk { values: Vec<String> },
}

/// Per-connection state: the captured configuration, and whether a session is
/// currently held by the caller on this connection's behalf.
#[derive(Debug)]
pub struct ConnectionState {
    pub server: Option<ServerConfig>,
    pub connected: bool,
}

/// What the handler asks its caller to do for one request.
#[derive(Debug)]
pub enum Plan {
    /// No outside call: send this response.
    Respond(Response),
    /// Try to open a session at `url`; store `config` if that succeeds.
    AttemptConnect { url: String, config: ServerConfig },
    /// Read these node identifiers, qualified by `namespace`, in order.
    AttemptRead { namespace: u16, node_ids: Vec<String> },
}

pub struct ConfigV {
    pub host: Seq<char>,
    pub port: u16,
    pub namespace: u16,
    pub endpoint: Option<Seq<char>>,
}

pub enum ReqV {
    Connect { host: Seq<char>, port: u16, namespace: u16, endpoint: Option<Seq<char>> },
    Read { node_ids: Seq<Seq<char>> },
}

pub enum RespV {
    ConnectOk,
    Error { message: Seq<char> },
    ReadOk { values: Seq<Seq<char>> },
}

pub struct StateV {
    pub server: Option<ConfigV>,
    pub connected: bool,
}

pub enum PlanV {
    Respond(RespV),
    AttemptConnect { url: Seq<char>, config: ConfigV },
    AttemptRead { namespace: u16, node_ids: Seq<Seq<char>> },
}

impl View for ServerConfig {
    type V = ConfigV;

    open spec fn view(&self) -> ConfigV {
        ConfigV {
            host: self.host@,
            port: self.port,
            namespace: self.namespace,
            endpoint: self.endpoint.deep_view(),
        }
    }
}

impl View for Request {
    type V = ReqV;

    open spec fn view(&self) -> ReqV {
        match self {
            Request::Connect { host, port, namespace, endpoint } => ReqV::Connect {
                host: host@,
                port: *port,
                namespace: *namespace,
                endpoint: endpoint.deep_view(),
            },
            Request::Read { node_ids } => ReqV::Read { node_ids: node_ids.deep_view() },
        }
    }
}

impl View for Response {
    type V = RespV;

    open spec fn view(&self) -> RespV {
        match self {
            Response::ConnectOk => RespV::ConnectOk,
            Response::Error { message } => RespV::Error { message: message@ },
            Response::ReadOk { values } => RespV::ReadOk { values: values.deep_view() },
        }
    }
}

impl View for ConnectionState {
    type V = StateV;

    open spec fn view(&self) -> StateV {
        StateV {
            server: match &self.server {
                Some(c) => Some(c@),
                None => None,
            },
            connected: self.connected,
        }
    }
}

impl View for Plan {
    type V = PlanV;

    open spec fn view(&self) -> PlanV {
        match self {
            Plan::Respond(r) => PlanV::Respond(r@),
            Plan::AttemptConnect { url, config } => PlanV::AttemptConnect {
                url: url@,
                config: config@,
            },
            Plan::AttemptRead { namespace, node_ids } => PlanV::AttemptRead {
                namespace: *namespace,
                node_ids: node_ids.deep_view(),
            },
        }
    }
}

impl StateV {
    /// A session is held exactly when a configuration was captured.
    pub open spec fn wf(self) -> bool {
        self.connected <==> self.server is Some
    }
}

// ---------------------------------------------------------------------------
// The model: what each step does
// ---------------------------------------------------------------------------
pub open spec fn msg_session_in_progress() -> Seq<char> {
    "Session already in progress"@
}

pub open spec fn msg_no_session() -> Seq<char> {
    "Cannot read, no active session"@
}

pub open spec fn connect_failed_message(detail: Seq<char>) -> Seq<char> {
    "Failed to connect to OPC UA server: "@ + detail
}

pub open spec fn read_failed_message(detail: Seq<char>) -> Seq<char> {
    "Unable to read from OPCUA server: "@ + detail
}

/// The namespace every read is qualified with: the one captured on connect,
/// or zero as a defensive fallback that a well-formed state never reaches.
pub open spec fn spec_namespace(s: StateV) -> u16 {
    match s.server {
        Some(c) => c.namespace,
        None => 0,
    }
}

/// What a request is answered with, given the connection's state: an
/// immediate rejection, or the outside attempt the caller must make.
pub open spec fn dispatch(s: StateV, r: ReqV) -> PlanV {
    match r {
        ReqV::Connect { host, port, namespace, endpoint } => if s.connected {
            PlanV::Respond(RespV::Error { message: msg_session_in_progress() })
        } else {
            PlanV::AttemptConnect {
                url: url_of(host, port, endpoint),
                config: ConfigV { host, port, namespace, endpoint },
            }
        },
        ReqV::Read { node_ids } => if s.connected {
            PlanV::AttemptRead { namespace: spec_namespace(s), node_ids }
        } else {
            PlanV::Respond(RespV::Error { message: msg_no_session() })
        },
    }
}

/// The state after a connect attempt succeeds: the configuration is captured
/// and the session is marked held. Nothing else ever changes the state.
pub open spec fn connect_ok_state(s: StateV, c: ConfigV) -> StateV {
    StateV { server: Some(c), connected: true }
}

/// The response to a read attempt's outcome; the state is never touched.
pub open spec fn read_response(result: Result<Seq<Seq<char>>, Seq<char>>) -> RespV {
    match result {
        Ok(values) => RespV::ReadOk { values },
        Err(detail) => RespV::Error { message: read_failed_message(detail) },
    }
}

// ---------------------------------------------------------------------------
// Connect URL construction
// ---------------------------------------------------------------------------
/// The decimal digits of `n`, most significant first, no leading zeros.
pub open spec fn dec_of(n: nat) -> Seq<char>
    decreases n,
{
    if n < 10 {
        seq![digit_char(n)]
    } else {
        dec_of(n / 10).push(digit_char(n % 10))
    }
}

pub open spec fn digit_char(d: nat) -> char {
    if d == 0 {
        '0'
    } else if d == 1 {
        '1'
    } else if d == 2 {
        '2'
    } else if d == 3 {
        '3'
    } else if d == 4 {
        '4'
    } else if d == 5 {
        '5'
    } else if d == 6 {
        '6'
    } else if d == 7 {
        '7'
    } else if d == 8 {
        '8'
    } else {
        '9'
    }
}

/// The endpoint URL a connect attempt is made against.
pub open spec fn url_of(host: Seq<char>, port: u16, endpoint: Option<Seq<char>>) -> Seq<char> {
    "opc.tcp://"@ + host + ":"@ + dec_of(port as nat) + (match endpoint {
        Some(e) => e,
        None => Seq::<char>::empty(),
    })
}

fn digit_str(d: u16) -> (s: &'static str)
    requires
        d < 10,
    ensures
        s@ == seq![digit_char(d as nat)],
{
    proof {
        reveal_strlit("0");
        reveal_strlit("1");
        reveal_strlit("2");
        reveal_strlit("3");
        reveal_strlit("4");
        reveal_strlit("5");
        reveal_strlit("6");
        reveal_strlit("7");
        reveal_strlit("8");
        reveal_strlit("9");
    }
    let s = if d == 0 {
        "0"
    } else if d == 1 {
        "1"
    } else if d == 2 {
        "2"
    } else if d == 3 {
        "3"
    } else if d == 4 {
        "4"
    } else if d == 5 {
        "5"
    } else if d == 6 {
        "6"
    } else if d == 7 {
        "7"
    } else {
        "8"
    };
    let s = if d == 9 {
        "9"
    } else {
        s
    };
    proof {
        assert(s@ =~= seq![digit_char(d as nat)]);
    }
    s
}

/// Renders a port number in decimal.
pub fn u16_to_string(n: u16) -> (s: String)
    ensures
        s@ == dec_of(n as nat),
    decreases n,
{
    if n < 10 {
        digit_str(n).to_owned()
    } else {
        let mut s = u16_to_string(n / 10);
        s.append(digit_str(n % 10));
        proof {
            assert(s@ =~= dec_of(n as nat));
        }
        s
    }
}

/// Builds the connect URL from host, port and the optional endpoint path.
pub fn connect_url(host: &String, port: u16, endpoint: &Option<String>) -> (url: String)
    ensures
        url@ == url_of(host@, port, endpoint.deep_view()),
{
    let mut url = "opc.tcp://".to_owned();
    url.append(host.as_str());
    url.append(":");
    let ps = u16_to_string(port);
    url.append(ps.as_str());
    match endpoint {
        Some(e) => url.append(e.as_str()),
        None => (),
    }
    proof {
        assert(url@ =~= url_of(host@, port, endpoint.deep_view()));
    }
    url
}

// ---------------------------------------------------------------------------
// The executable steps
// ---------------------------------------------------------------------------
impl ConnectionState {
    /// The state a freshly accepted connection starts in.
    pub fn new() -> (s: ConnectionState)
        ensures
            s@ == (StateV { server: None, connected: false }),
            s@.wf(),
    {
        ConnectionState { server: None, connected: false }
    }
}

/// Interprets one decoded request against the connection's state and says
/// what to do for it. The state itself is never changed here: only a
/// successful connect attempt, applied through [`on_connect_result`], does.
pub fn handle_request(state: &ConnectionState, req: Request) -> (p: Plan)
    ensures
        p@ == dispatch(state@, req@),
{
    match req {
        Request::Connect { host, port, namespace, endpoint } => {
            if state.connected {
                Plan::Respond(
                    Response::Error { message: "Session already in progress".to_owned() },
                )
            } else {
                let url = connect_url(&host, port, &endpoint);
                Plan::AttemptConnect { url, config: ServerConfig { host, port, namespace, endpoint } }
            }
        },
        Request::Read { node_ids } => {
            if state.connected {
                let namespace = match &state.server {
                    Some(c) => c.namespace,
                    None => 0,
                };
                Plan::AttemptRead { namespace, node_ids }
            } else {
                Plan::Respond(
                    Response::Error { message: "Cannot read, no active session".to_owned() },
                )
            }
        },
    }
}

/// Applies a connect attempt's outcome. Success captures the configuration
/// atomically; failure leaves the state exactly as it was and reports the
/// detail in the error response.
pub fn on_connect_result(
    state: &mut ConnectionState,
    config: ServerConfig,
    result: Result<(), String>,
) -> (r: Response)
    requires
        old(state)@.wf(),
        !old(state)@.connected,
    ensures
        match result {
            Ok(_) => final(state)@ == connect_ok_state(old(state)@, config@) && r@
                == RespV::ConnectOk,
            Err(detail) => final(state)@ == old(state)@ && r@ == (RespV::Error {
                message: connect_failed_message(detail@),
            }),
        },
        final(state)@.wf(),
{
    match result {
        Ok(_) => {
            state.server = Some(config);
            state.connected = true;
            Response::ConnectOk
        },
        Err(detail) => {
            let mut message = "Failed to connect to OPC UA server: ".to_owned();
            message.append(detail.as_str());
            Response::Error { message }
        },
    }
}

/// Turns a read attempt's outcome into the response. Success forwards the
/// values unchanged and in order; failure reports the detail. No state is
/// involved: a failed read never invalidates the session.
pub fn on_read_result(result: Result<Vec<String>, String>) -> (r: Response)
    ensures
        r@ == read_response(
            match result {
                Ok(values) => Ok(values.deep_view()),
                Err(detail) => Err(detail@),
            },
        ),
{
    match result {
        Ok(values) => Response::ReadOk { values },
        Err(detail) => {
            let mut message = "Unable to read from OPCUA server: ".to_owned();
            message.append(detail.as_str());
            Response::Error { message }
        },
    }
}

/// The response to a frame that does not decode. Decode failures are not
/// protocol transitions: the state is untouched, but the client still gets
/// one response for the request, as for every other request.
pub open spec fn msg_invalid_request() -> Seq<char> {
    "request is not valid"@
}

/// What one received frame is answered with: its decoded request dispatched
/// against the state, or the fixed decode-failure response.
pub open spec fn frame_plan(s: StateV, frame: Seq<u8>) -> PlanV {
    if vstd::utf8::valid_utf8(frame) && crate::codec::spec_parse_request(frame) is Some {
        dispatch(s, crate::codec::spec_parse_request(frame)->0)
    } else {
        PlanV::Respond(RespV::Error { message: msg_invalid_request() })
    }
}

/// Decodes one frame and interprets it against the connection's state. A
/// frame that does not decode is answered with an error response rather than
/// dropped, so every frame gets exactly one response.
pub fn plan_for_frame(state: &ConnectionState, frame: &[u8]) -> (p: Plan)
    ensures
        p@ == frame_plan(state@, frame@),
{
    match crate::codec::parse_request(frame) {
        Ok(req) => handle_request(state, req),
        Err(_) => Plan::Respond(Response::Error { message: "request is not valid".to_owned() }),
    }
}

// ---------------------------------------------------------------------------
// Laws
// ---------------------------------------------------------------------------
/// A read on a connection that never saw a successful connect is answered
/// with the fixed rejection and plans no outside call; dispatching alone
/// leaves the state untouched, so the state is unchanged too.
pub proof fn law_read_requires_session(s: StateV, node_ids: Seq<Seq<char>>)
    requires
        !s.connected,
    ensures
        dispatch(s, ReqV::Read { node_ids }) == PlanV::Respond(
            RespV::Error { message: msg_no_session() },
        ),
{
}

/// After one successful connect, a second connect — whatever its arguments —
/// is rejected with the fixed message, and the captured configuration is not
/// touched.
pub proof fn law_second_connect_rejected(s: StateV, c: ConfigV, r: ReqV)
    requires
        (r is Connect),
    ensures
        dispatch(connect_ok_state(s, c), r) == PlanV::Respond(
            RespV::Error { message: msg_session_in_progress() },
        ),
        connect_ok_state(s, c).server == Some(c),
{
}

/// Every read after a successful connect is qualified with the namespace that
/// this connect captured, in particular one following a rejected second
/// connect.
pub proof fn law_read_uses_connected_namespace(s: StateV, c: ConfigV, node_ids: Seq<Seq<char>>)
    ensures
        dispatch(connect_ok_state(s, c), ReqV::Read { node_ids }) == (PlanV::AttemptRead {
            namespace: c.namespace,
            node_ids,
        }),
{
}

/// A read of no node identifiers plans an empty batch and nothing else, and a
/// successful empty batch is answered with an empty value list.
pub proof fn law_empty_read(s: StateV)
    requires
        s.connected,
    ensures
        dispatch(s, ReqV::Read { node_ids: Seq::<Seq<char>>::empty() }) == (PlanV::AttemptRead {
            namespace: spec_namespace(s),
            node_ids: Seq::<Seq<char>>::empty(),
        }),
        read_response(Ok(Seq::<Seq<char>>::empty())) == (RespV::ReadOk {
            values: Seq::<Seq<char>>::empty(),
        }),
{
}

} // verus!
