//! The responder prober's decision logic: turning one candidate
//! address and the result of one remote identification attempt into a
//! terminal outcome. The remote session itself (open, execute, wait on
//! the timeout) is the caller's work; the library fixes its parameters
//! and classifies whatever came back.

use crate::registry::ModelRegistry;
use crate::text::{before_char, drop_last_char, spec_before_char, spec_drop_last};
use vstd::prelude::*;

verus! {

/// The remote port an identification session connects to.
pub const REMOTE_PORT: u16 = 22;

/// Seconds after which an unfinished connection attempt is abandoned.
pub const CONNECT_TIMEOUT_SECS: u64 = 3;

/// Seconds between two multicast probes on one interface.
pub const PING_INTERVAL_SECS: u64 = 3;

/// The all-nodes link-local multicast address that discovery pings.
pub fn multicast_target() -> (r: &'static str)
    ensures
        r@ == "ff02::1"@,
{
    "ff02::1"
}

/// The command executed on a responder to read its hardware identifier.
pub fn ident_command() -> (r: &'static str)
    ensures
        r@ == "bootblocktool -x HWID"@,
{
    "bootblocktool -x HWID"
}

/// The fixed user an identification session authenticates as.
pub fn remote_user() -> (r: &'static str)
    ensures
        r@ == "root"@,
{
    "root"
}

/// The fixed password an identification session authenticates with.
pub fn remote_password() -> (r: &'static str)
    ensures
        r@ == "pass"@,
{
    "pass"
}

/// Why one probe failed. Each kind is non-fatal and reported per
/// address; none propagates to sibling probes or to the scan loop.
#[derive(Clone, Copy, Debug, PartialEq, Eq, Structural)]
pub enum FailureCause {
    /// The connection could not be established.
    Connection,
    /// The session was refused the fixed credential.
    Auth,
    /// The identification command could not be executed.
    Command,
    /// The connection attempt did not complete within the fixed timeout.
    Timeout,
}

/// Terminal outcome of one probe. Carries the candidate address as it
/// was observed, scope suffix included.
#[derive(Debug)]
pub enum ProbeOutcome {
    /// The hardware identifier resolved to a known model.
    Identified { model: String, address: String },
    /// The responder answered with an identifier the registry lacks.
    Unidentified { raw_id: String, address: String },
    /// The session failed before an identifier was read.
    Failed { cause: FailureCause, address: String },
}

/// A candidate address with any zone or scope suffix discarded: the
/// characters before the first scope delimiter.
pub open spec fn spec_strip_scope(addr: Seq<char>) -> Seq<char> {
    spec_before_char(addr, crate::spec_scope_delimiter())
}

/// Command output with exactly one trailing terminator character
/// removed; output that is already empty stays empty.
pub open spec fn spec_trim_terminator(output: Seq<char>) -> Seq<char> {
    spec_drop_last(output)
}

/// Whether `r` classifies the command output `raw_output` for the
/// candidate `address` under the registry mapping `m`: the trimmed
/// identifier resolves to `Identified` with the exact model name when
/// present in `m`, and to `Unidentified` with the raw identifier when
/// absent.
pub open spec fn spec_classifies(
    m: Map<Seq<char>, Seq<char>>,
    raw_output: Seq<char>,
    address: Seq<char>,
    r: ProbeOutcome,
) -> bool {
    let id = spec_trim_terminator(raw_output);
    if m.contains_key(id) {
        &&& r matches ProbeOutcome::Identified { model, address: a }
        &&& model@ == m[id]
        &&& a@ == address
    } else {
        &&& r matches ProbeOutcome::Unidentified { raw_id, address: a }
        &&& raw_id@ == id
        &&& a@ == address
    }
}

/// Trimming the output and resolving the trimmed identifier is
/// idempotent: two classifications of the same output for the same
/// address under the same registry agree — same kind, same model or
/// raw identifier, same address — both times.
pub proof fn lemma_classification_deterministic(
    m: Map<Seq<char>, Seq<char>>,
    raw_output: Seq<char>,
    address: Seq<char>,
    r1: ProbeOutcome,
    r2: ProbeOutcome,
)
    requires
        spec_classifies(m, raw_output, address, r1),
        spec_classifies(m, raw_output, address, r2),
    ensures
        (r1 matches ProbeOutcome::Identified { model: m1, address: a1 }
            && r2 matches ProbeOutcome::Identified { model: m2, address: a2 } && m1@ == m2@ && a1@
            == a2@) || (r1 matches ProbeOutcome::Unidentified { raw_id: i1, address: a1 }
            && r2 matches ProbeOutcome::Unidentified { raw_id: i2, address: a2 } && i1@ == i2@
            && a1@ == a2@),
{
}

/// The address a remote session actually connects to: the candidate
/// with its scope suffix stripped.
pub fn connection_address(addr: &str) -> (r: String)
    ensures
        r@ == spec_strip_scope(addr@),
{
    before_char(addr, '%')
}

/// Command output with exactly one trailing terminator removed.
pub fn trim_terminator(output: &str) -> (r: String)
    ensures
        r@ == spec_trim_terminator(output@),
{
    drop_last_char(output)
}

/// Classifies the captured output of the identification command.
pub fn classify_output(registry: &ModelRegistry, raw_output: &str, address: &str) -> (r:
    ProbeOutcome)
    ensures
        spec_classifies(registry@, raw_output@, address@, r),
{
    let id = trim_terminator(raw_output);
    match registry.lookup(id.as_str()) {
        Some(model) => ProbeOutcome::Identified {
            model: model.clone(),
            address: address.to_owned(),
        },
        None => ProbeOutcome::Unidentified { raw_id: id, address: address.to_owned() },
    }
}

/// Turns the result of one remote identification attempt into the
/// probe's terminal outcome: captured output is classified against the
/// registry, and a session failure of any kind becomes `Failed` for
/// this address alone.
pub fn probe_outcome(
    registry: &ModelRegistry,
    address: &str,
    session_result: Result<String, FailureCause>,
) -> (r: ProbeOutcome)
    ensures
        match session_result {
            Ok(out) => spec_classifies(registry@, out@, address@, r),
            Err(c) => {
                &&& r matches ProbeOutcome::Failed { cause, address: a }
                &&& cause == c
                &&& a@ == address@
            },
        },
{
    match session_result {
        Ok(out) => classify_output(registry, out.as_str(), address),
        Err(cause) => ProbeOutcome::Failed { cause, address: address.to_owned() },
    }
}

} // verus!
