//! Message types of the browser control channel, the decoded result types,
//! and the protocol constants.
use vstd::prelude::*;
use crate::text::{chars_of, same_chars};

verus! {

/// One decoded number, held exactly as the artifact stores it.
pub enum Scalar {
    /// An IEEE-754 binary64 value, by its bit pattern.
    Double(u64),
    /// An IEEE-754 binary32 value, by its bit pattern.
    Single(u32),
    /// A decimal floating-point literal, as written in a text artifact.
    Decimal(String),
}

/// One value of a trace or of the axis.
pub enum Sample {
    /// A real value.
    Real(Scalar),
    /// The magnitude `sqrt(re² + im²)` of the complex value with these parts.
    Magnitude(Scalar, Scalar),
}

/// Simulation trace data: one named quantity, aligned to the axis.
pub struct Trace {
    pub name: String,
    pub data: Vec<Sample>,
    pub unit: String,
}

/// Decoded simulation results: the axis values (time, frequency or swept
/// source), the traces, and the analysis kind.
pub struct SimulationResults {
    pub time: Vec<Sample>,
    pub traces: Vec<Trace>,
    pub analysis_type: String,
    pub x_axis_label: Option<String>,
}

/// Agent capabilities reported at handshake.
pub struct AgentCapabilities {
    pub ltspice_available: bool,
    pub ngspice_available: bool,
    pub supported_analyses: Vec<String>,
    pub max_simulation_time: u32,
}

/// Handshake request from the browser client.
pub struct HandshakeRequest {
    pub id: String,
    pub msg_type: String,
    pub origin: String,
    pub version: String,
    pub timestamp: u64,
}

/// Handshake response to the browser client.
pub struct HandshakeResponse {
    pub id: String,
    pub msg_type: String,
    pub timestamp: u64,
    pub success: bool,
    pub agent_version: String,
    pub ltspice_path: Option<String>,
    pub capabilities: AgentCapabilities,
    pub error: Option<String>,
}

/// Simulation request from the browser client.
pub struct SimulationRequest {
    pub id: String,
    pub msg_type: String,
    pub netlist: String,
    pub waveform_quality: String,
    pub timeout: Option<u64>,
    pub timestamp: u64,
}

/// Simulation response to the browser client.
pub struct SimulationResponse {
    pub id: String,
    pub msg_type: String,
    pub request_id: String,
    pub timestamp: u64,
    pub success: bool,
    pub results: Option<SimulationResults>,
    pub error: Option<String>,
    pub execution_time: u64,
    pub simulator: String,
}

/// Simulation progress update.
pub struct SimulationProgress {
    pub id: String,
    pub msg_type: String,
    pub request_id: String,
    pub timestamp: u64,
    pub stage: String,
    pub message: String,
}

/// Ping message.
pub struct PingMessage {
    pub id: String,
    pub msg_type: String,
    pub timestamp: u64,
}

/// Pong response.
pub struct PongResponse {
    pub id: String,
    pub msg_type: String,
    pub timestamp: u64,
    pub status: String,
}

/// Cancel request for a running simulation.
pub struct CancelRequest {
    pub id: String,
    pub msg_type: String,
    pub request_id: String,
    pub timestamp: u64,
}

/// Cancel response.
pub struct CancelResponse {
    pub id: String,
    pub msg_type: String,
    pub request_id: String,
    pub timestamp: u64,
    pub success: bool,
}

/// The envelope every message shares, read first to learn its kind.
pub struct GenericMessage {
    pub id: String,
    pub msg_type: String,
}

/// Protocol version.
pub const PROTOCOL_VERSION: &'static str = "1.0.0";

/// Agent version.
pub const AGENT_VERSION: &'static str = "1.0.0";

/// Port of the loopback listener.
pub const WS_PORT: u16 = 9347;

/// Longest simulation time, in seconds, that the agent reports it accepts.
pub const MAX_SIMULATION_TIME: u32 = 120;

/// The origins that may complete a handshake.
pub const ALLOWED_ORIGINS: [&'static str; 4] = [
    "https://kelicad.com",
    "https://www.kelicad.com",
    "http://localhost:3000",
    "http://127.0.0.1:3000",
];

/// The allow-list, as sequences.
pub open spec fn allowed_origins() -> Seq<Seq<char>> {
    seq![
        "https://kelicad.com"@,
        "https://www.kelicad.com"@,
        "http://localhost:3000"@,
        "http://127.0.0.1:3000"@,
    ]
}

/// Exact, case-sensitive membership in the allow-list.
pub open spec fn origin_allowed(origin: Seq<char>) -> bool {
    allowed_origins().contains(origin)
}

/// Whether `origin` is one of the allowed origins, by exact match.
pub fn is_origin_allowed(origin: &str) -> (r: bool)
    ensures
        r == origin_allowed(origin@),
{
    let o = chars_of(origin);
    let mut i: usize = 0;
    while i < 4
        invariant
            i <= 4,
            o@ == origin@,
            forall|m: int| 0 <= m < i ==> allowed_origins()[m] != origin@,
        decreases 4 - i,
    {
        let a = chars_of(ALLOWED_ORIGINS[i]);
        assert(ALLOWED_ORIGINS[i as int]@ == allowed_origins()[i as int]);
        if same_chars(a.as_slice(), o.as_slice()) {
            assert(allowed_origins()[i as int] == origin@);
            return true;
        }
        i = i + 1;
    }
    false
}

/// Relies on `SystemTime::now` and `SystemTime::duration_since`: the
/// milliseconds since the Unix epoch, truncated to 64 bits; a clock set before
/// the epoch gives 0.
#[verifier::external_body]
pub fn now_ms() -> u64 {
    match std::time::SystemTime::now().duration_since(std::time::UNIX_EPOCH) {
        Ok(d) => d.as_millis() as u64,
        Err(_) => 0,
    }
}

} // verus!
