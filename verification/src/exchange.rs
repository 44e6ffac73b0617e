//! One query, one transport: the decisions of a single exchange.
//!
//! The caller binds a fresh socket for each query, sends the request and
//! waits for datagrams. Whenever something happens it asks the exchange
//! what to do next. An exchange waits for at most
//! `MAX_RECEIVE_ATTEMPTS` datagrams and never past its deadline; a
//! datagram that does not answer the query is noise and uses up an
//! attempt without ending the exchange.

use crate::dns::{
    answers_query, check_response, decoded_message, message_of, parse_response, DnsResponse,
    ParseError, WireMessage, WireMessageView, RCODE_NOERROR,
};
use crate::transport::{QueryResult, QueryType};
use vstd::prelude::*;

verus! {

/// How many datagrams an exchange looks at before it gives up.
pub const MAX_RECEIVE_ATTEMPTS: u8 = 3;

/// Size of the receive buffer: room for EDNS-extended responses.
pub const RECEIVE_BUFFER_LEN: usize = 4096;

/// The state of one query exchange.
#[derive(Debug)]
pub struct QueryExchange {
    /// Textual IP address of the resolver.
    pub resolver: String,
    /// UDP port of the resolver.
    pub port: u16,
    pub domain: String,
    pub query_type: QueryType,
    /// Transaction id of the query that was sent.
    pub txid: u16,
    /// Deadline of the whole exchange, in microseconds from the send.
    pub timeout_us: u32,
    /// Datagrams looked at so far.
    pub attempts: u8,
}

/// What the caller does next.
#[derive(Debug)]
pub enum ExchangeStep {
    /// Wait for a datagram, at most this long.
    Receive { remaining_us: u32 },
    /// The exchange is over.
    Finish(QueryResult),
}

impl QueryExchange {
    /// The outcome of an exchange that got no matching response.
    pub open spec fn timed_out(self, latency_us: u32) -> QueryResult {
        QueryResult {
            resolver: self.resolver,
            port: self.port,
            domain: self.domain,
            query_type: self.query_type,
            rcode: None,
            latency_us,
            success: false,
            timeout: true,
        }
    }

    /// Whether `result` is the outcome of an exchange that was answered
    /// by the message `m` after `latency_us`.
    pub open spec fn is_answer(self, m: WireMessageView, latency_us: u32, result: QueryResult) -> bool {
        &&& result.resolver == self.resolver
        &&& result.port == self.port
        &&& result.domain == self.domain
        &&& result.query_type == self.query_type
        &&& result.rcode matches Some(text) && text@ == m.rcode_text
        &&& result.latency_us == latency_us
        &&& result.success == (m.rcode == RCODE_NOERROR)
        &&& !result.timeout
    }

    /// Whether the exchange may still wait for a datagram at
    /// `elapsed_us`.
    pub open spec fn may_wait(self, elapsed_us: u32) -> bool {
        self.attempts < MAX_RECEIVE_ATTEMPTS && elapsed_us < self.timeout_us
    }

    /// The next step at `elapsed_us`.
    pub open spec fn step_at(self, elapsed_us: u32) -> ExchangeStep {
        if self.may_wait(elapsed_us) {
            ExchangeStep::Receive { remaining_us: (self.timeout_us - elapsed_us) as u32 }
        } else {
            ExchangeStep::Finish(self.timed_out(elapsed_us))
        }
    }

    /// The exchange after a datagram that was noise: one more attempt is
    /// used up, as long as any was left.
    pub open spec fn after_noise(self) -> QueryExchange {
        if self.attempts < MAX_RECEIVE_ATTEMPTS {
            QueryExchange { attempts: (self.attempts + 1) as u8, ..self }
        } else {
            self
        }
    }

    /// What a received datagram, once decoded, does to the exchange: a
    /// message that answers the query ends it with `result`, anything
    /// else is counted as noise.
    pub open spec fn received(
        self,
        decoded: Option<WireMessageView>,
        elapsed_us: u32,
        after: QueryExchange,
        result: Option<QueryResult>,
    ) -> bool {
        if answers_query(decoded, self.txid) {
            &&& after == self
            &&& result matches Some(r) && self.is_answer(decoded->Some_0, elapsed_us, r)
        } else {
            &&& after == self.after_noise()
            &&& result is None
        }
    }

    /// Start an exchange for a query that is about to be sent.
    pub fn new(
        resolver: &str,
        port: u16,
        domain: &str,
        query_type: QueryType,
        txid: u16,
        timeout_us: u32,
    ) -> (r: Self)
        ensures
            r.resolver@ == resolver@,
            r.port == port,
            r.domain@ == domain@,
            r.query_type == query_type,
            r.txid == txid,
            r.timeout_us == timeout_us,
            r.attempts == 0,
    {
        QueryExchange {
            resolver: resolver.to_owned(),
            port,
            domain: domain.to_owned(),
            query_type,
            txid,
            timeout_us,
            attempts: 0,
        }
    }

    fn timeout_result(&self, latency_us: u32) -> (r: QueryResult)
        ensures
            r == self.timed_out(latency_us),
    {
        QueryResult {
            resolver: self.resolver.clone(),
            port: self.port,
            domain: self.domain.clone(),
            query_type: self.query_type,
            rcode: None,
            latency_us,
            success: false,
            timeout: true,
        }
    }

    /// The outcome when the transport could not be bound or the query
    /// could not be sent: a timeout with the full configured deadline as
    /// latency.
    pub fn transport_failed(&self) -> (r: QueryResult)
        ensures
            r == self.timed_out(self.timeout_us),
    {
        self.timeout_result(self.timeout_us)
    }

    /// The outcome when waiting for a datagram ended in a timeout or a
    /// socket error: a timeout with the elapsed time as latency.
    pub fn receive_failed(&self, elapsed_us: u32) -> (r: QueryResult)
        ensures
            r == self.timed_out(elapsed_us),
    {
        self.timeout_result(elapsed_us)
    }

    /// Decide, `elapsed_us` after the send, whether to wait for a
    /// datagram and for how long. The exchange is over, as a timeout,
    /// once the attempts are used up or the deadline has passed.
    pub fn next_step(&self, elapsed_us: u32) -> (r: ExchangeStep)
        ensures
            r == self.step_at(elapsed_us),
    {
        if self.attempts < MAX_RECEIVE_ATTEMPTS && elapsed_us < self.timeout_us {
            ExchangeStep::Receive { remaining_us: self.timeout_us - elapsed_us }
        } else {
            ExchangeStep::Finish(self.timeout_result(elapsed_us))
        }
    }

    /// Take in the decoded form of a datagram that arrived at
    /// `elapsed_us`. A message that answers the query ends the exchange
    /// with its outcome; anything else uses up one attempt.
    pub fn on_decoded(
        &mut self,
        decoded: Option<WireMessage>,
        elapsed_us: u32,
    ) -> (r: Option<QueryResult>)
        ensures
            old(self).received(message_of(decoded), elapsed_us, *final(self), r),
    {
        let checked = check_response(decoded, self.txid);
        self.on_checked(checked, elapsed_us)
    }

    /// Take in a datagram that arrived at `elapsed_us`.
    pub fn on_datagram(&mut self, bytes: &[u8], elapsed_us: u32) -> (r: Option<QueryResult>)
        ensures
            old(self).received(decoded_message(bytes@), elapsed_us, *final(self), r),
    {
        let checked = parse_response(bytes, self.txid, self.domain.as_str(), self.query_type);
        self.on_checked(checked, elapsed_us)
    }

    fn on_checked(
        &mut self,
        checked: Result<DnsResponse, ParseError>,
        elapsed_us: u32,
    ) -> (r: Option<QueryResult>)
        ensures
            match checked {
                Ok(response) => {
                    &&& *final(self) == *old(self)
                    &&& r matches Some(result)
                    &&& result.resolver == old(self).resolver
                    &&& result.port == old(self).port
                    &&& result.domain == old(self).domain
                    &&& result.query_type == old(self).query_type
                    &&& result.rcode matches Some(text) && text@ == response.rcode_str@
                    &&& result.latency_us == elapsed_us
                    &&& result.success == (response.rcode == RCODE_NOERROR)
                    &&& !result.timeout
                },
                Err(_) => *final(self) == old(self).after_noise() && r is None,
            },
    {
        match checked {
            Ok(response) => Some(
                QueryResult {
                    resolver: self.resolver.clone(),
                    port: self.port,
                    domain: self.domain.clone(),
                    query_type: self.query_type,
                    rcode: Some(response.rcode_str),
                    latency_us: elapsed_us,
                    success: response.rcode == RCODE_NOERROR,
                    timeout: false,
                },
            ),
            Err(_) => {
                if self.attempts < MAX_RECEIVE_ATTEMPTS {
                    self.attempts = self.attempts + 1;
                }
                None
            },
        }
    }
}

/// A datagram that does not answer the query never ends the exchange:
/// it yields no outcome, and while attempts and time remain the next step
/// is to go on waiting for the rest of the deadline.
pub proof fn noise_keeps_exchange_waiting(
    exchange: QueryExchange,
    decoded: Option<WireMessageView>,
    arrived_us: u32,
    after: QueryExchange,
    result: Option<QueryResult>,
    elapsed_us: u32,
)
    requires
        exchange.attempts < MAX_RECEIVE_ATTEMPTS,
        !answers_query(decoded, exchange.txid),
        exchange.received(decoded, arrived_us, after, result),
    ensures
        result is None,
        after.attempts == exchange.attempts + 1,
        after.txid == exchange.txid && after.timeout_us == exchange.timeout_us,
        after.attempts < MAX_RECEIVE_ATTEMPTS && elapsed_us < exchange.timeout_us ==> after.step_at(
            elapsed_us,
        ) == (ExchangeStep::Receive { remaining_us: (exchange.timeout_us - elapsed_us) as u32 }),
{
}

/// An exchange ends in success only through a message that carries its
/// transaction id, is a response and reports NOERROR.
pub proof fn success_needs_matching_response(
    exchange: QueryExchange,
    decoded: Option<WireMessageView>,
    arrived_us: u32,
    after: QueryExchange,
    result: Option<QueryResult>,
)
    requires
        exchange.received(decoded, arrived_us, after, result),
        result matches Some(r) && r.success,
    ensures
        decoded matches Some(m) && m.id == exchange.txid && m.is_response && m.rcode
            == RCODE_NOERROR,
{
}

/// Whether an outcome is of exactly one kind: a success, with NOERROR as
/// its code; a timeout, which has no code; or neither, which is a
/// response with another code or a query that could not be built.
pub open spec fn consistent(result: QueryResult) -> bool {
    &&& result.success ==> !result.timeout && result.rcode is Some
    &&& result.timeout ==> !result.success && result.rcode is None
}

/// Every outcome that an exchange produces is of exactly one kind.
pub proof fn exchange_outcomes_are_consistent(
    exchange: QueryExchange,
    decoded: Option<WireMessageView>,
    elapsed_us: u32,
    after: QueryExchange,
    result: Option<QueryResult>,
)
    requires
        exchange.received(decoded, elapsed_us, after, result),
    ensures
        result matches Some(r) ==> consistent(r) && !r.timeout,
        consistent(exchange.timed_out(elapsed_us)),
        exchange.step_at(elapsed_us) matches ExchangeStep::Finish(r) ==> consistent(r),
{
}

/// Every outcome that `step_at` produces is a timeout, never a success.
pub proof fn steps_finish_as_timeouts(exchange: QueryExchange, elapsed_us: u32)
    ensures
        exchange.step_at(elapsed_us) matches ExchangeStep::Finish(r) ==> r.timeout && !r.success
            && r.latency_us == elapsed_us,
        exchange.step_at(elapsed_us) matches ExchangeStep::Receive { remaining_us } ==> remaining_us
            > 0 && elapsed_us + remaining_us == exchange.timeout_us,
{
}

} // verus!
