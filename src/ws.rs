use vstd::prelude::*;

use crate::plan::InputValue;

verus! {

/// What a server does when a client opens a session.
pub trait GraphQLOverWsTrait {
    fn on_connect(&self) -> bool;
}

/// Where a session stands.
#[derive(PartialEq, Eq, Structural, Clone, Copy, Debug)]
pub enum GraphQLOverWsPhase {
    SessionInit,
    Connected,
}

/// One session of the query protocol over a websocket.
pub struct GraphQLOverWs<H> {
    phase: GraphQLOverWsPhase,
    handler: H,
}

/// The kind of a message from the client.
#[derive(PartialEq, Eq, Structural, Clone, Copy, Debug)]
pub enum ClientConnectionType {
    ConnectionInit,
    Start,
    Stop,
    ConnectionTerminate,
}

/// The kind of a message from the server.
#[derive(PartialEq, Eq, Structural, Clone, Copy, Debug)]
pub enum ServerConnectionType {
    ConnectionError,
    ConnectionAck,
    Data,
    Error,
    Complete,
    ConnectionKeepAlive,
}

/// The query, operation name and variables that a `start` message carries.
pub struct GraphQLPayload<S> {
    pub variables: Option<InputValue<S>>,
    pub extensions: Option<Vec<(String, String)>>,
    pub operation_name: Option<String>,
    pub query: Option<String>,
}

impl<S> GraphQLPayload<S> {
    /// The extensions form a map: no name occurs twice.
    pub open spec fn wf(&self) -> bool {
        self.extensions is Some ==> forall|a: int, b: int|
            0 <= a < b < self.extensions->0@.len() ==> self.extensions->0@[a].0@ != self.extensions->0@[b].0@
    }
}

/// A message from the client: its operation id, kind and payload.
pub struct ClientPayload<S> {
    pub id: Option<String>,
    pub message_type: ClientConnectionType,
    pub payload: Option<GraphQLPayload<S>>,
}

impl<H: GraphQLOverWsTrait> GraphQLOverWs<H> {
    /// Where the session stands.
    pub closed spec fn phase_spec(&self) -> GraphQLOverWsPhase {
        self.phase
    }

    /// The handler that the session tells of its events.
    pub closed spec fn handler_spec(&self) -> H {
        self.handler
    }

    /// A session that has not been initialised yet, with its handler.
    pub fn new(handler: H) -> (r: Self)
        ensures
            r.phase_spec() == GraphQLOverWsPhase::SessionInit,
            r.handler_spec() == handler,
    {
        GraphQLOverWs { phase: GraphQLOverWsPhase::SessionInit, handler }
    }

    /// Where the session stands.
    pub fn phase(&self) -> (r: GraphQLOverWsPhase)
        ensures
            r == self.phase_spec(),
    {
        self.phase
    }

    /// Takes one message from the client. `connection_init` tells the
    /// handler and connects the session; the other kinds leave it as it is.
    pub fn handle_request<S>(&mut self, request: ClientPayload<S>)
        ensures
            request.message_type == ClientConnectionType::ConnectionInit ==> final(self).phase_spec()
                == GraphQLOverWsPhase::Connected,
            request.message_type != ClientConnectionType::ConnectionInit ==> final(self).phase_spec()
                == old(self).phase_spec(),
            final(self).handler_spec() == old(self).handler_spec(),
    {
        match request.message_type {
            ClientConnectionType::ConnectionInit => {
                let _accepted = self.handler.on_connect();
                self.phase = GraphQLOverWsPhase::Connected;
            },
            ClientConnectionType::Start => {},
            ClientConnectionType::Stop => {},
            ClientConnectionType::ConnectionTerminate => {},
        }
    }
}

pub open spec fn client_type_name(t: ClientConnectionType) -> Seq<char> {
    match t {
        ClientConnectionType::ConnectionInit => "connection_init"@,
        ClientConnectionType::Start => "start"@,
        ClientConnectionType::Stop => "stop"@,
        ClientConnectionType::ConnectionTerminate => "connection_terminate"@,
    }
}

pub open spec fn server_type_name(t: ServerConnectionType) -> Seq<char> {
    match t {
        ServerConnectionType::ConnectionError => "connection_error"@,
        ServerConnectionType::ConnectionAck => "connection_ack"@,
        ServerConnectionType::Data => "data"@,
        ServerConnectionType::Error => "error"@,
        ServerConnectionType::Complete => "complete"@,
        ServerConnectionType::ConnectionKeepAlive => "connection_keep_alive"@,
    }
}

impl ClientConnectionType {
    /// The name of the kind on the wire.
    pub fn as_str(&self) -> (r: &'static str)
        ensures
            r@ == client_type_name(*self),
    {
        match self {
            ClientConnectionType::ConnectionInit => "connection_init",
            ClientConnectionType::Start => "start",
            ClientConnectionType::Stop => "stop",
            ClientConnectionType::ConnectionTerminate => "connection_terminate",
        }
    }

    /// The name of the kind on the wire, owned.
    pub fn to_string(&self) -> (r: String)
        ensures
            r@ == client_type_name(*self),
    {
        self.as_str().to_owned()
    }
}

impl ServerConnectionType {
    /// The name of the kind on the wire.
    pub fn as_str(&self) -> (r: &'static str)
        ensures
            r@ == server_type_name(*self),
    {
        match self {
            ServerConnectionType::ConnectionError => "connection_error",
            ServerConnectionType::ConnectionAck => "connection_ack",
            ServerConnectionType::Data => "data",
            ServerConnectionType::Error => "error",
            ServerConnectionType::Complete => "complete",
            ServerConnectionType::ConnectionKeepAlive => "connection_keep_alive",
        }
    }

    /// The name of the kind on the wire, owned.
    pub fn to_string(&self) -> (r: String)
        ensures
            r@ == server_type_name(*self),
    {
        self.as_str().to_owned()
    }
}

} // verus!
