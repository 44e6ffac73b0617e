//! Wire codec front end: building queries and checking responses.
//!
//! Encoding and decoding of DNS messages is the work of `hickory_proto`.
//! This module hands it plain values, takes plain values back, and decides
//! on them: which record type a query asks for, whether a decoded message
//! answers the query that was sent, and whether a probe for a name that
//! cannot exist was answered by fabrication.

use crate::text::{decimal, push_decimal};
use crate::transport::QueryType;
use vstd::prelude::*;
use vstd::string::StringExecFns;

verus! {

/// Response code NOERROR.
pub const RCODE_NOERROR: u16 = 0;

/// Record type A.
pub const RECORD_TYPE_A: u16 = 1;

/// Record type AAAA.
pub const RECORD_TYPE_AAAA: u16 = 28;

/// Name that the interception probe asks for. It lies under the reserved
/// `invalid` top-level domain and so can never resolve.
pub const PROBE_DOMAIN: &'static str = "nxdomain-test-benchmark-check.invalid";

/// Why a query could not be built.
#[derive(Debug, Clone, Copy, PartialEq, Eq, Structural)]
pub enum QueryError {
    /// The domain name cannot be encoded.
    InvalidName,
    /// The message could not be serialized.
    Serialization,
}

impl QueryError {
    /// The error in words.
    pub fn message(&self) -> (r: String)
        ensures
            r@ == match *self {
                QueryError::InvalidName => "invalid domain name"@,
                QueryError::Serialization => "failed to serialize DNS query"@,
            },
    {
        match self {
            QueryError::InvalidName => "invalid domain name".to_owned(),
            QueryError::Serialization => "failed to serialize DNS query".to_owned(),
        }
    }
}

/// Why a datagram was not accepted as the response to a query.
#[derive(Debug, Clone, Copy, PartialEq, Eq, Structural)]
pub enum ParseError {
    /// The bytes are not a DNS message.
    Malformed,
    /// The message carries another transaction id than the query.
    TxidMismatch { expected: u16, got: u16 },
    /// The message is itself a query.
    NotAResponse,
}

impl ParseError {
    /// The text of the error.
    pub open spec fn text(self) -> Seq<char> {
        match self {
            ParseError::Malformed => "failed to parse DNS response"@,
            ParseError::TxidMismatch { expected, got } => "txid mismatch: expected "@ + decimal(
                expected as nat,
            ) + ", got "@ + decimal(got as nat),
            ParseError::NotAResponse => "received a query instead of a response"@,
        }
    }

    /// The error in words.
    pub fn message(&self) -> (r: String)
        ensures
            r@ == self.text(),
    {
        match self {
            ParseError::Malformed => "failed to parse DNS response".to_owned(),
            ParseError::TxidMismatch { expected, got } => {
                let mut out = "txid mismatch: expected ".to_owned();
                push_decimal(&mut out, *expected as u64);
                out.append(", got ");
                push_decimal(&mut out, *got as u64);
                assert(out@ =~= self.text());
                out
            },
            ParseError::NotAResponse => "received a query instead of a response".to_owned(),
        }
    }
}

/// DNS response information extracted from a parsed message.
#[derive(Debug)]
pub struct DnsResponse {
    /// Response code, as its number.
    pub rcode: u16,
    /// Response code, in words.
    pub rcode_str: String,
    pub answer_count: usize,
    /// True if the answer section contains A records.
    pub has_a_records: bool,
}

/// What the codec reads from a datagram, as plain values.
#[derive(Debug)]
pub struct WireMessage {
    /// Transaction id.
    pub id: u16,
    /// True for a response, false for a query.
    pub is_response: bool,
    /// Response code, as its number.
    pub rcode: u16,
    /// Response code, in words.
    pub rcode_text: String,
    /// Answer count of the header.
    pub answer_count: u16,
    /// Record type of each record of the answer section, in order.
    pub answer_types: Vec<u16>,
}

/// A `WireMessage` as a mathematical value.
pub struct WireMessageView {
    pub id: u16,
    pub is_response: bool,
    pub rcode: u16,
    pub rcode_text: Seq<char>,
    pub answer_count: u16,
    pub answer_types: Seq<u16>,
}

impl View for WireMessage {
    type V = WireMessageView;

    open spec fn view(&self) -> WireMessageView {
        WireMessageView {
            id: self.id,
            is_response: self.is_response,
            rcode: self.rcode,
            rcode_text: self.rcode_text@,
            answer_count: self.answer_count,
            answer_types: self.answer_types@,
        }
    }
}

/// The outcome of building a query, with the bytes as a mathematical
/// sequence.
pub open spec fn bytes_of(r: Result<Vec<u8>, QueryError>) -> Result<Seq<u8>, QueryError> {
    match r {
        Ok(bytes) => Ok(bytes@),
        Err(e) => Err(e),
    }
}

/// The outcome of decoding a datagram, as a mathematical value.
pub open spec fn message_of(decoded: Option<WireMessage>) -> Option<WireMessageView> {
    match decoded {
        Some(message) => Some(message@),
        None => None,
    }
}

/// The bytes of the query for `domain`, as `hickory_proto` serializes
/// it, or the failure. The header carries `txid` and the
/// recursion-desired flag as given; an EDNS OPT record is present iff
/// `dnssec_ok` is `Some`, with its DO bit as given.
pub uninterp spec fn encoded_query(domain: Seq<char>, record_type: u16, txid: u16, recursion_desired: bool, dnssec_ok: Option<bool>) -> Result<Seq<u8>, QueryError>;

/// What `hickory_proto` decodes from a datagram, or `None` where it
/// rejects the bytes.
pub uninterp spec fn decoded_message(bytes: Seq<u8>) -> Option<WireMessageView>;

/// Serialize a query.
///
/// Calls `Name::from_ascii`, builds a `Message` with the id, the
/// recursion-desired flag, one question and, for `Some(ok)`, an `Edns`
/// with `set_dnssec_ok(ok)` as its extensions, and calls
/// `Message::to_vec`. The contract names the outcome, which depends on
/// the arguments alone; the first call's failure is `InvalidName`, the
/// last one's `Serialization`.
#[verifier::external_body]
fn encode_query(
    domain: &str,
    record_type: u16,
    txid: u16,
    recursion_desired: bool,
    dnssec_ok: Option<bool>,
) -> (r: Result<Vec<u8>, QueryError>)
    ensures
        bytes_of(r) == encoded_query(domain@, record_type, txid, recursion_desired, dnssec_ok),
{
    let name = match hickory_proto::rr::Name::from_ascii(domain) {
        Ok(name) => name,
        Err(_) => return Err(QueryError::InvalidName),
    };
    let mut message = hickory_proto::op::Message::new();
    message.set_id(txid);
    message.set_recursion_desired(recursion_desired);
    message.add_query(hickory_proto::op::Query::query(name, hickory_proto::rr::RecordType::from(record_type)));
    *message.extensions_mut() = dnssec_ok.map(|ok| hickory_proto::op::Edns::new().set_dnssec_ok(ok).clone());
    match message.to_vec() {
        Ok(bytes) => Ok(bytes),
        Err(_) => Err(QueryError::Serialization),
    }
}

/// Decode a datagram.
///
/// Calls `Message::from_vec` and copies out the header's id, message
/// type, response code (as number and in words) and answer count, and the
/// record type of each answer. The contract names the outcome, which
/// depends on the bytes alone.
#[verifier::external_body]
fn decode_message(bytes: &[u8]) -> (r: Option<WireMessage>)
    ensures
        message_of(r) == decoded_message(bytes@),
{
    let message = hickory_proto::op::Message::from_vec(bytes).ok()?;
    Some(WireMessage {
        id: message.id(),
        is_response: match message.message_type() {
            hickory_proto::op::MessageType::Query => false,
            hickory_proto::op::MessageType::Response => true,
        },
        rcode: u16::from(message.response_code()),
        rcode_text: message.response_code().to_string(),
        answer_count: message.answer_count(),
        answer_types: message.answers().iter().map(|r| u16::from(r.record_type())).collect(),
    })
}

/// The number of the record type that a query type asks for.
pub open spec fn record_type_code(query_type: QueryType) -> u16 {
    match query_type {
        QueryType::A => RECORD_TYPE_A,
        QueryType::AAAA => RECORD_TYPE_AAAA,
    }
}

/// The EDNS record of a query: none for a plain query, and one with the
/// DO bit set for a query that asks for DNSSEC records.
pub open spec fn edns_for(dnssec: bool) -> Option<bool> {
    if dnssec {
        Some(true)
    } else {
        None
    }
}

/// The serialized query for a domain, or why there is none: recursion is
/// always desired, and the DO bit is set via EDNS iff `dnssec` is on.
pub open spec fn query_bytes(domain: Seq<char>, query_type: QueryType, txid: u16, dnssec: bool) -> Result<
    Seq<u8>,
    QueryError,
> {
    encoded_query(domain, record_type_code(query_type), txid, true, edns_for(dnssec))
}

/// Build a DNS query message for the given domain and query type.
///
/// Recursion is always desired. When `dnssec` is true, the DO (DNSSEC OK)
/// bit is set via EDNS; otherwise the query carries no EDNS record.
/// Returns the serialized query bytes ready to send over UDP, or the
/// reason why the codec refused.
pub fn build_query(
    domain: &str,
    query_type: QueryType,
    txid: u16,
    dnssec: bool,
) -> (r: Result<Vec<u8>, QueryError>)
    ensures
        bytes_of(r) == encoded_query(
            domain@,
            record_type_code(query_type),
            txid,
            true,
            if dnssec {
                Some(true)
            } else {
                None
            },
        ),
        bytes_of(r) == query_bytes(domain@, query_type, txid, dnssec),
{
    let record_type = match query_type {
        QueryType::A => RECORD_TYPE_A,
        QueryType::AAAA => RECORD_TYPE_AAAA,
    };
    let edns = if dnssec {
        Some(true)
    } else {
        None
    };
    encode_query(domain, record_type, txid, true, edns)
}

/// Whether a decoded message is the response to the query with the given
/// transaction id.
pub open spec fn answers_query(decoded: Option<WireMessageView>, expected_txid: u16) -> bool {
    decoded matches Some(m) && m.id == expected_txid && m.is_response
}

/// Why a decoded datagram is not accepted; only meaningful where
/// `answers_query` is false.
pub open spec fn rejection(decoded: Option<WireMessageView>, expected_txid: u16) -> ParseError {
    match decoded {
        None => ParseError::Malformed,
        Some(m) => if m.id != expected_txid {
            ParseError::TxidMismatch { expected: expected_txid, got: m.id }
        } else {
            ParseError::NotAResponse
        },
    }
}

/// Whether `response` reports what the accepted message `m` holds.
pub open spec fn reports(response: DnsResponse, m: WireMessageView) -> bool {
    &&& response.rcode == m.rcode
    &&& response.rcode_str@ == m.rcode_text
    &&& response.answer_count == m.answer_count
    &&& response.has_a_records == m.answer_types.contains(RECORD_TYPE_A)
}

/// What `check_response` and `parse_response` return for a decoded
/// datagram.
pub open spec fn response_checked(
    decoded: Option<WireMessageView>,
    expected_txid: u16,
    r: Result<DnsResponse, ParseError>,
) -> bool {
    match r {
        Ok(response) => answers_query(decoded, expected_txid) && reports(response, decoded->Some_0),
        Err(e) => !answers_query(decoded, expected_txid) && e == rejection(decoded, expected_txid),
    }
}

/// A decoded response that carries the query's transaction id is
/// accepted and reported with its own code. In particular a query that
/// comes back as a response, with nothing changed but its direction, is
/// accepted under the transaction id it was built with.
pub proof fn matching_response_is_accepted(
    m: WireMessageView,
    txid: u16,
    r: Result<DnsResponse, ParseError>,
)
    requires
        m.id == txid,
        m.is_response,
        response_checked(Some(m), txid, r),
    ensures
        r matches Ok(response) && response.rcode == m.rcode && response.rcode_str@ == m.rcode_text,
{
}

/// A datagram is rejected exactly when it does not decode, carries
/// another transaction id, or is a query; the first of these that holds
/// names the error.
pub proof fn rejection_names_the_first_fault(
    decoded: Option<WireMessageView>,
    txid: u16,
    r: Result<DnsResponse, ParseError>,
)
    requires
        response_checked(decoded, txid, r),
    ensures
        r is Err <==> decoded is None || decoded->Some_0.id != txid || !decoded->Some_0.is_response,
        decoded is None ==> r == Err::<DnsResponse, ParseError>(ParseError::Malformed),
        decoded is Some && decoded->Some_0.id != txid ==> r == Err::<DnsResponse, ParseError>(
            ParseError::TxidMismatch { expected: txid, got: decoded->Some_0.id },
        ),
        decoded is Some && decoded->Some_0.id == txid && !decoded->Some_0.is_response ==> r == Err::<
            DnsResponse,
            ParseError,
        >(ParseError::NotAResponse),
{
}

/// Whether any of the record types is A.
fn has_a_record(types: &Vec<u16>) -> (r: bool)
    ensures
        r == types@.contains(RECORD_TYPE_A),
{
    let mut i: usize = 0;
    while i < types.len()
        invariant
            i <= types@.len(),
            forall|k: int| 0 <= k < i ==> types@[k] != RECORD_TYPE_A,
        decreases types@.len() - i,
    {
        if types[i] == RECORD_TYPE_A {
            return true;
        }
        i += 1;
    }
    false
}

/// Check a decoded datagram against the query that was sent.
///
/// Undecodable bytes, another transaction id and a message that is itself
/// a query are rejected, in this order; anything else is accepted and
/// reported.
pub fn check_response(
    decoded: Option<WireMessage>,
    expected_txid: u16,
) -> (r: Result<DnsResponse, ParseError>)
    ensures
        response_checked(message_of(decoded), expected_txid, r),
{
    let message = match decoded {
        Some(m) => m,
        None => return Err(ParseError::Malformed),
    };
    if message.id != expected_txid {
        return Err(ParseError::TxidMismatch { expected: expected_txid, got: message.id });
    }
    if !message.is_response {
        return Err(ParseError::NotAResponse);
    }
    let has_a_records = has_a_record(&message.answer_types);
    Ok(
        DnsResponse {
            rcode: message.rcode,
            rcode_str: message.rcode_text,
            answer_count: message.answer_count as usize,
            has_a_records,
        },
    )
}

/// Parse a DNS response, validating the transaction ID and extracting the
/// rcode.
///
/// Returns an error if the response cannot be parsed, if the txid does
/// not match, or if the message is a query. The expected domain and type
/// are not compared with the message.
pub fn parse_response(
    bytes: &[u8],
    expected_txid: u16,
    _expected_domain: &str,
    _expected_type: QueryType,
) -> (r: Result<DnsResponse, ParseError>)
    ensures
        response_checked(decoded_message(bytes@), expected_txid, r),
{
    check_response(decode_message(bytes), expected_txid)
}

/// Whether a checked response shows interception: a positive answer with
/// at least one A record.
pub open spec fn shows_interception(response: Result<DnsResponse, ParseError>) -> bool {
    response matches Ok(r) && r.rcode == RCODE_NOERROR && r.has_a_records
}

/// Whether what came back for the probe shows that the resolver
/// fabricates answers.
pub open spec fn probe_intercepted(datagram: Option<Seq<u8>>, txid: u16) -> bool {
    datagram matches Some(bytes) && answers_query(decoded_message(bytes), txid) && {
        let m = decoded_message(bytes)->Some_0;
        m.rcode == RCODE_NOERROR && m.answer_types.contains(RECORD_TYPE_A)
    }
}

/// Classify the checked response to a probe.
pub fn classify_probe_response(response: &Result<DnsResponse, ParseError>) -> (r: bool)
    ensures
        r == shows_interception(*response),
{
    match response {
        Ok(r) => r.rcode == RCODE_NOERROR && r.has_a_records,
        Err(_) => false,
    }
}

/// The query that probes a resolver for NXDOMAIN interception: a plain A
/// query for `PROBE_DOMAIN`.
pub fn probe_query(txid: u16) -> (r: Result<Vec<u8>, QueryError>)
    ensures
        bytes_of(r) == query_bytes(PROBE_DOMAIN@, QueryType::A, txid, false),
{
    build_query(PROBE_DOMAIN, QueryType::A, txid, false)
}

/// Check whether a resolver intercepts NXDOMAIN responses, from what its
/// single receive attempt brought: the datagram, or `None` after a
/// timeout or a transport error.
///
/// The resolver intercepts iff the datagram answers the probe with
/// NOERROR and at least one A record. Anything else is honest.
pub fn check_nxdomain_interception(datagram: Option<&[u8]>, txid: u16) -> (r: bool)
    ensures
        r == probe_intercepted(
            match datagram {
                Some(bytes) => Some(bytes@),
                None => None,
            },
            txid,
        ),
{
    match datagram {
        Some(bytes) => {
            let response = parse_response(bytes, txid, PROBE_DOMAIN, QueryType::A);
            classify_probe_response(&response)
        },
        None => false,
    }
}

} // verus!
