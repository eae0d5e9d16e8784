use vstd::prelude::*;
use crate::amount::{AmountError, string_of_chars};
use crate::client::{ClientError, push_str};

verus! {

/// A failure met while serving one request.
#[derive(Clone, Debug)]
pub enum GatewayError {
    /// A node rejected a well-formed call.
    Rpc { code: i64, message: String },
    /// A node could not be reached.
    Transport(String),
    /// The client could not form the request.
    Client(ClientError),
    /// An amount in the request was refused.
    Amount(AmountError),
}

/// The message that a caller receives for a client error.
pub open spec fn client_error_text(e: ClientError) -> Seq<char> {
    match e {
        ClientError::NoAddressAvailable => "no available ethereum addresses"@,
        ClientError::UnsupportedOperation => "automatic refunds are not supported for ethereum, use the geth console to make a refund"@,
        ClientError::BalanceOverflow => "balance does not fit in 64 bits of satoshi"@,
    }
}

/// The message that a caller receives for a refused amount.
pub open spec fn amount_error_text(e: AmountError) -> Seq<char> {
    match e {
        AmountError::Malformed => "invalid amount"@,
        AmountError::TooLarge => "amount too large"@,
    }
}

/// The message that a caller receives: a node's own message, a transport failure's
/// description, or the text of the library's error. Nothing else of the error leaves.
pub open spec fn error_text(e: GatewayError) -> Seq<char> {
    match e {
        GatewayError::Rpc { message, .. } => message@,
        GatewayError::Transport(description) => description@,
        GatewayError::Client(c) => client_error_text(c),
        GatewayError::Amount(a) => amount_error_text(a),
    }
}

fn own_text(s: &str) -> (r: String)
    ensures
        r@ == s@,
{
    let mut v: Vec<char> = Vec::new();
    push_str(s, &mut v);
    assert(v@ =~= s@);
    string_of_chars(&v)
}

/// The message that the gateway returns for a failed request.
pub fn error_message(e: &GatewayError) -> (r: String)
    ensures
        r@ == error_text(*e),
{
    match e {
        GatewayError::Rpc { message, .. } => own_text(message.as_str()),
        GatewayError::Transport(description) => own_text(description.as_str()),
        GatewayError::Client(c) => match c {
            ClientError::NoAddressAvailable => own_text("no available ethereum addresses"),
            ClientError::UnsupportedOperation => own_text(
                "automatic refunds are not supported for ethereum, use the geth console to make a refund",
            ),
            ClientError::BalanceOverflow => own_text("balance does not fit in 64 bits of satoshi"),
        },
        GatewayError::Amount(a) => match a {
            AmountError::Malformed => own_text("invalid amount"),
            AmountError::TooLarge => own_text("amount too large"),
        },
    }
}

/// The life of the gateway server.
#[derive(Clone, Copy, Debug, PartialEq, Eq, Structural, Hash)]
pub enum ServerState {
    Starting,
    Listening,
    Draining,
    Stopped,
}

/// What happens to the gateway server.
#[derive(Clone, Copy, Debug, PartialEq, Eq, Structural, Hash)]
pub enum ServerEvent {
    /// The listening socket is bound.
    Bound,
    /// The external stop signal arrived.
    StopSignal,
    /// The last request in flight completed.
    Drained,
}

/// The server's next state: a stop signal starts draining, and draining ends in the
/// stopped state once the requests in flight have completed. Other events change nothing.
pub open spec fn server_transition(s: ServerState, e: ServerEvent) -> ServerState {
    match (s, e) {
        (ServerState::Starting, ServerEvent::Bound) => ServerState::Listening,
        (ServerState::Starting, ServerEvent::StopSignal) => ServerState::Stopped,
        (ServerState::Listening, ServerEvent::StopSignal) => ServerState::Draining,
        (ServerState::Draining, ServerEvent::Drained) => ServerState::Stopped,
        _ => s,
    }
}

impl ServerState {
    /// The state after `event`.
    pub fn next(self, event: ServerEvent) -> (r: ServerState)
        ensures
            r == server_transition(self, event),
    {
        match (self, event) {
            (ServerState::Starting, ServerEvent::Bound) => ServerState::Listening,
            (ServerState::Starting, ServerEvent::StopSignal) => ServerState::Stopped,
            (ServerState::Listening, ServerEvent::StopSignal) => ServerState::Draining,
            (ServerState::Draining, ServerEvent::Drained) => ServerState::Stopped,
            _ => self,
        }
    }

    /// Whether a new request is taken: only while listening.
    pub fn accepts_requests(&self) -> (r: bool)
        ensures
            r == (*self == ServerState::Listening),
    {
        match self {
            ServerState::Listening => true,
            _ => false,
        }
    }

    /// Whether control has gone back to the supervisor.
    pub fn is_stopped(&self) -> (r: bool)
        ensures
            r == (*self == ServerState::Stopped),
    {
        match self {
            ServerState::Stopped => true,
            _ => false,
        }
    }
}

/// A listening server reaches the stopped state only through draining: a stop signal
/// leads to draining, where no request is taken, and only the completion of the requests
/// in flight leads on to stopped.
pub proof fn lemma_server_drains_before_stop(e1: ServerEvent, e2: ServerEvent)
    ensures
        server_transition(ServerState::Listening, e1) != ServerState::Stopped,
        server_transition(ServerState::Listening, ServerEvent::StopSignal) == ServerState::Draining,
        server_transition(ServerState::Draining, e2) == ServerState::Stopped <==> e2 == ServerEvent::Drained,
        server_transition(ServerState::Draining, e2) != ServerState::Listening,
        server_transition(ServerState::Stopped, e1) == ServerState::Stopped,
{
}

} // verus!
