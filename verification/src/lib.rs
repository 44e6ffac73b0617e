//! Measurement and scoring engine for benchmarking DNS resolvers over UDP.
//!
//! The crate holds the decisions of a benchmark and leaves the doing to
//! its caller. Sockets, clocks and the async runtime live outside: the
//! caller performs what the engine asks for and reports back what
//! happened.
//!
//! * [`lists`], [`domains`], [`cli`]: where resolvers, domains and
//!   settings come from.
//! * [`dns`]: building queries and judging responses, on top of the wire
//!   codec of `hickory_proto`.
//! * [`exchange`]: one query on one transport, with a deadline and a
//!   bounded number of receive attempts.
//! * [`characterize`]: the probe for NXDOMAIN interception.
//! * [`discovery`]: the two-phase prefilter for long resolver lists.
//! * [`bench`]: the task list and its rounds.
//! * [`aggregate`], [`stats`], [`results`]: from outcomes to scores, ranks
//!   and tie groups.
//! * [`output`], [`text`]: the report as text.
//!
//! All durations are whole microseconds and all statistics are exact
//! rational values rounded down.

pub mod aggregate;
pub mod bench;
pub mod characterize;
pub mod cli;
pub mod discovery;
pub mod dns;
pub mod domains;
pub mod exchange;
pub mod lists;
pub mod output;
pub mod results;
pub mod stats;
pub mod text;
pub mod transport;
