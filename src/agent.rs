//! The agent's shared state and the decisions of the protocol engine: job
//! admission, cancellation, completion, handshake and per-connection sessions.
//! Whoever holds the state performs each method as one exclusive update.
use vstd::prelude::*;
use crate::protocol::{
    is_origin_allowed, now_ms, origin_allowed, AgentCapabilities, CancelRequest, CancelResponse,
    HandshakeRequest, HandshakeResponse, PongResponse, SimulationProgress, SimulationResponse,
    SimulationResults, AGENT_VERSION, MAX_SIMULATION_TIME,
};
use crate::text::{chars_of, same_chars, string_of};

verus! {

/// Relies on `uuid::Uuid::new_v4` and its `Display`: a fresh random identifier.
#[verifier::external_body]
fn new_message_id() -> String {
    uuid::Uuid::new_v4().to_string()
}

fn text(s: &str) -> (r: String)
    ensures
        r@ == s@,
{
    string_of(chars_of(s).as_slice())
}

/// Process-wide agent state.
pub struct AppState {
    pub ltspice_path: Option<String>,
    pub is_simulating: bool,
    pub ws_connections: u32,
    pub simulation_count: u32,
    pub last_simulation_time: Option<u64>,
    pub current_simulation_id: Option<String>,
    pub cancel_requested: bool,
    pub current_process_id: u32,
}

impl Default for AppState {
    fn default() -> (r: AppState)
        ensures
            r.ltspice_path is None,
            !r.is_simulating,
            r.ws_connections == 0,
            r.simulation_count == 0,
            r.last_simulation_time is None,
            r.current_simulation_id is None,
            !r.cancel_requested,
            r.current_process_id == 0,
    {
        AppState {
            ltspice_path: None,
            is_simulating: false,
            ws_connections: 0,
            simulation_count: 0,
            last_simulation_time: None,
            current_simulation_id: None,
            cancel_requested: false,
            current_process_id: 0,
        }
    }
}

/// The answer to a simulate request at admission.
pub enum Admission {
    /// The job may run with the engine at this path.
    Admitted(String),
    /// Another job is in flight; no process may be launched.
    Busy,
    /// No engine was detected.
    EngineUnavailable,
}

/// What a cancel request decided.
pub struct CancelDecision {
    /// The request named the job in flight.
    pub success: bool,
    /// The process to signal (graceful, then forceful), if one is recorded.
    pub signal_pid: Option<u32>,
}

/// How a job ended.
pub enum JobOutcome {
    Completed(SimulationResults),
    Failed(String),
    Cancelled,
    Busy,
    EngineUnavailable,
}

/// The two optional texts are both absent, or both present and equal.
pub open spec fn same_text(a: Option<String>, b: Option<String>) -> bool {
    match (a, b) {
        (Some(x), Some(y)) => x@ == y@,
        (None, None) => true,
        _ => false,
    }
}

/// Whether the job in flight is the one `id` names.
pub open spec fn names_current(s: AppState, id: Seq<char>) -> bool {
    s.current_simulation_id matches Some(c) && c@ == id
}

/// The state after admission of a job with id `id`.
pub open spec fn admitted_state(s: AppState, id: Seq<char>, r: AppState) -> bool {
    &&& r.is_simulating
    &&& names_current(r, id)
    &&& !r.cancel_requested
    &&& r.current_process_id == 0
    &&& r.ltspice_path == s.ltspice_path
    &&& r.ws_connections == s.ws_connections
    &&& r.simulation_count == s.simulation_count
    &&& r.last_simulation_time == s.last_simulation_time
}

/// The state after a cancel request for `id`.
pub open spec fn cancel_next(s: AppState, id: Seq<char>) -> AppState {
    if names_current(s, id) {
        AppState { cancel_requested: true, ..s }
    } else {
        s
    }
}

/// Whether a job that ends in state `s` is reported as cancelled.
pub open spec fn ends_cancelled(s: AppState) -> bool {
    s.cancel_requested
}

impl AppState {
    /// Admits a job unless one is in flight (checked and set in one step) or no
    /// engine is known. On admission the job becomes current, with the
    /// cancellation flag and the process id cleared.
    pub fn begin_simulation(&mut self, request_id: &str) -> (r: Admission)
        ensures
            old(self).is_simulating ==> r is Busy && *final(self) == *old(self),
            !old(self).is_simulating && old(self).ltspice_path is None ==> r is EngineUnavailable
                && *final(self) == *old(self),
            !old(self).is_simulating && old(self).ltspice_path is Some ==> (r matches Admission::Admitted(p)
                && same_text(old(self).ltspice_path, Some(p)) && admitted_state(*old(self), request_id@, *final(self))),
    {
        if self.is_simulating {
            return Admission::Busy;
        }
        let path = match &self.ltspice_path {
            Some(p) => p.clone(),
            None => {
                return Admission::EngineUnavailable;
            },
        };
        self.is_simulating = true;
        self.current_simulation_id = Some(text(request_id));
        self.cancel_requested = false;
        self.current_process_id = 0;
        Admission::Admitted(path)
    }

    /// Records the engine process of the job in flight, so that a cancel can
    /// signal it.
    pub fn record_process_id(&mut self, pid: u32)
        ensures
            *final(self) == (AppState { current_process_id: pid, ..*old(self) }),
    {
        self.current_process_id = pid;
    }

    /// Decides a cancel request: it succeeds only for the job in flight, and
    /// then sets the cancellation flag and names the recorded process to
    /// signal. Otherwise nothing changes.
    pub fn request_cancel(&mut self, request_id: &str) -> (r: CancelDecision)
        ensures
            r.success == names_current(*old(self), request_id@),
            *final(self) == cancel_next(*old(self), request_id@),
            r.signal_pid == (if r.success && old(self).current_process_id != 0 {
                Some(old(self).current_process_id)
            } else {
                None
            }),
    {
        let matches = match &self.current_simulation_id {
            Some(c) => same_chars(chars_of(c.as_str()).as_slice(), chars_of(request_id).as_slice()),
            None => false,
        };
        if !matches {
            return CancelDecision { success: false, signal_pid: None };
        }
        self.cancel_requested = true;
        let pid = self.current_process_id;
        CancelDecision { success: true, signal_pid: if pid != 0 { Some(pid) } else { None } }
    }

    /// Ends the job in flight: the state is reset on every path, a job whose
    /// cancellation was requested is reported as cancelled whatever the run
    /// gave, and a completed job is counted with its completion time.
    pub fn finish_simulation(&mut self, run: Result<SimulationResults, String>, now: u64) -> (r: JobOutcome)
        ensures
            !final(self).is_simulating,
            final(self).current_simulation_id is None,
            !final(self).cancel_requested,
            final(self).current_process_id == 0,
            final(self).ltspice_path == old(self).ltspice_path,
            final(self).ws_connections == old(self).ws_connections,
            ends_cancelled(*old(self)) ==> r is Cancelled,
            !ends_cancelled(*old(self)) && run is Err ==> (r matches JobOutcome::Failed(m) && run == Err::<SimulationResults, String>(m)),
            !ends_cancelled(*old(self)) && run is Ok ==> (r matches JobOutcome::Completed(res) && run == Ok::<SimulationResults, String>(res)),
            r is Completed ==> final(self).simulation_count == (if old(self).simulation_count < u32::MAX { old(self).simulation_count + 1 } else { old(self).simulation_count as int })
                && final(self).last_simulation_time == Some(now),
            !(r is Completed) ==> final(self).simulation_count == old(self).simulation_count
                && final(self).last_simulation_time == old(self).last_simulation_time,
    {
        let was_cancelled = self.cancel_requested;
        self.is_simulating = false;
        self.current_simulation_id = None;
        self.cancel_requested = false;
        self.current_process_id = 0;
        if was_cancelled {
            return JobOutcome::Cancelled;
        }
        match run {
            Ok(res) => {
                if self.simulation_count < u32::MAX {
                    self.simulation_count = self.simulation_count + 1;
                }
                self.last_simulation_time = Some(now);
                JobOutcome::Completed(res)
            },
            Err(m) => JobOutcome::Failed(m),
        }
    }

    /// Counts an opened connection.
    pub fn connection_opened(&mut self)
        ensures
            final(self).ws_connections == (if old(self).ws_connections < u32::MAX {
                old(self).ws_connections + 1
            } else {
                old(self).ws_connections as int
            }),
            *final(self) == (AppState { ws_connections: final(self).ws_connections, ..*old(self) }),
    {
        if self.ws_connections < u32::MAX {
            self.ws_connections = self.ws_connections + 1;
        }
    }

    /// Counts a closed connection.
    pub fn connection_closed(&mut self)
        ensures
            final(self).ws_connections == (if old(self).ws_connections > 0 {
                old(self).ws_connections - 1
            } else {
                0
            }),
            *final(self) == (AppState { ws_connections: final(self).ws_connections, ..*old(self) }),
    {
        if self.ws_connections > 0 {
            self.ws_connections = self.ws_connections - 1;
        }
    }

    /// The status a ping reports: `busy` while a job is in flight, else `ready`.
    pub fn ping_status(&self) -> (r: String)
        ensures
            r@ == (if self.is_simulating { "busy"@ } else { "ready"@ }),
    {
        if self.is_simulating {
            text("busy")
        } else {
            text("ready")
        }
    }

    /// The handshake answer for `origin`: success and the capabilities for an
    /// allowed origin; for any other origin failure, an error, and no
    /// capability at all.
    pub fn handshake_response(&self, origin: &str, id: String, timestamp: u64) -> (r: HandshakeResponse)
        ensures
            r.id == id,
            r.timestamp == timestamp,
            r.msg_type@ == "handshake_response"@,
            r.agent_version@ == AGENT_VERSION@,
            r.capabilities.max_simulation_time == MAX_SIMULATION_TIME,
            !r.capabilities.ngspice_available,
            r.success == origin_allowed(origin@),
            !r.success ==> {
                &&& !r.capabilities.ltspice_available
                &&& r.capabilities.supported_analyses@.len() == 0
                &&& r.ltspice_path is None
                &&& r.error matches Some(e) && e@ == "Invalid origin"@
            },
            r.success ==> {
                &&& r.capabilities.ltspice_available == self.ltspice_path is Some
                &&& same_text(r.ltspice_path, self.ltspice_path)
                &&& r.error is None
                &&& r.capabilities.supported_analyses@.len() == 3
                &&& r.capabilities.supported_analyses@[0]@ == "transient"@
                &&& r.capabilities.supported_analyses@[1]@ == "ac"@
                &&& r.capabilities.supported_analyses@[2]@ == "dc"@
            },
    {
        if !is_origin_allowed(origin) {
            return HandshakeResponse {
                id,
                msg_type: text("handshake_response"),
                timestamp,
                success: false,
                agent_version: text(AGENT_VERSION),
                ltspice_path: None,
                capabilities: AgentCapabilities {
                    ltspice_available: false,
                    ngspice_available: false,
                    supported_analyses: Vec::new(),
                    max_simulation_time: MAX_SIMULATION_TIME,
                },
                error: Some(text("Invalid origin")),
            };
        }
        let ltspice_path = match &self.ltspice_path {
            Some(p) => Some(p.clone()),
            None => None,
        };
        let mut analyses: Vec<String> = Vec::new();
        analyses.push(text("transient"));
        analyses.push(text("ac"));
        analyses.push(text("dc"));
        HandshakeResponse {
            id,
            msg_type: text("handshake_response"),
            timestamp,
            success: true,
            agent_version: text(AGENT_VERSION),
            ltspice_path,
            capabilities: AgentCapabilities {
                ltspice_available: self.ltspice_path.is_some(),
                ngspice_available: false,
                supported_analyses: analyses,
                max_simulation_time: MAX_SIMULATION_TIME,
            },
            error: None,
        }
    }
}

impl AppState {
    /// Answers a handshake request, with a fresh message id and the time now.
    pub fn handle_handshake(&self, request: &HandshakeRequest) -> (r: HandshakeResponse)
        ensures
            r.msg_type@ == "handshake_response"@,
            r.agent_version@ == AGENT_VERSION@,
            r.capabilities.max_simulation_time == MAX_SIMULATION_TIME,
            !r.capabilities.ngspice_available,
            r.success == origin_allowed(request.origin@),
            !r.success ==> {
                &&& !r.capabilities.ltspice_available
                &&& r.capabilities.supported_analyses@.len() == 0
                &&& r.ltspice_path is None
                &&& r.error matches Some(e) && e@ == "Invalid origin"@
            },
            r.success ==> {
                &&& r.capabilities.ltspice_available == self.ltspice_path is Some
                &&& same_text(r.ltspice_path, self.ltspice_path)
                &&& r.error is None
                &&& r.capabilities.supported_analyses@.len() == 3
                &&& r.capabilities.supported_analyses@[0]@ == "transient"@
                &&& r.capabilities.supported_analyses@[1]@ == "ac"@
                &&& r.capabilities.supported_analyses@[2]@ == "dc"@
            },
    {
        self.handshake_response(request.origin.as_str(), new_message_id(), now_ms())
    }

    /// Answers a cancel request; the decision names the process to signal.
    pub fn handle_cancel(&mut self, request: &CancelRequest) -> (r: (CancelResponse, CancelDecision))
        ensures
            r.0.success == names_current(*old(self), request.request_id@),
            r.0.success == r.1.success,
            r.0.request_id@ == request.request_id@,
            r.0.msg_type@ == "cancel_response"@,
            r.1.signal_pid == (if r.0.success && old(self).current_process_id != 0 {
                Some(old(self).current_process_id)
            } else {
                None
            }),
            *final(self) == cancel_next(*old(self), request.request_id@),
    {
        let decision = self.request_cancel(request.request_id.as_str());
        let response = CancelResponse {
            id: new_message_id(),
            msg_type: text("cancel_response"),
            request_id: text(request.request_id.as_str()),
            timestamp: now_ms(),
            success: decision.success,
        };
        (response, decision)
    }

    /// Answers a ping with the current status.
    pub fn pong(&self) -> (r: PongResponse)
        ensures
            r.msg_type@ == "pong"@,
            r.status@ == (if self.is_simulating { "busy"@ } else { "ready"@ }),
    {
        PongResponse { id: new_message_id(), msg_type: text("pong"), timestamp: now_ms(), status: self.ping_status() }
    }
}

/// A cancel that names the job in flight sets the flag that makes the job end
/// as cancelled, and recording the engine's process id keeps it; a cancel
/// that names another job changes nothing.
pub proof fn lemma_cancel_semantics(s: AppState, id: Seq<char>, pid: u32)
    ensures
        names_current(s, id) ==> ends_cancelled(cancel_next(s, id)),
        names_current(s, id) ==> ends_cancelled(AppState { current_process_id: pid, ..cancel_next(s, id) }),
        !names_current(s, id) ==> cancel_next(s, id) == s,
{
}

/// The error text a failed job reports.
pub open spec fn outcome_error(o: JobOutcome) -> Option<Seq<char>> {
    match o {
        JobOutcome::Completed(_) => None,
        JobOutcome::Failed(m) => Some(m@),
        JobOutcome::Cancelled => Some("Simulation cancelled"@),
        JobOutcome::Busy => Some("Another simulation is already running"@),
        JobOutcome::EngineUnavailable => Some("LTspice not found on this system"@),
    }
}

/// The terminal response to a simulate request: it echoes the request id,
/// succeeds only for a completed job, and otherwise carries the error text. A
/// job refused at admission reports no execution time.
pub fn simulation_response(
    request_id: &str,
    id: String,
    timestamp: u64,
    execution_time: u64,
    outcome: JobOutcome,
) -> (r: SimulationResponse)
    ensures
        r.id == id,
        r.timestamp == timestamp,
        r.msg_type@ == "simulation_result"@,
        r.request_id@ == request_id@,
        r.simulator@ == "ltspice"@,
        r.success == outcome is Completed,
        match outcome {
            JobOutcome::Completed(res) => r.results == Some(res) && r.error is None,
            _ => r.results is None && (r.error matches Some(e) && Some(e@) == outcome_error(outcome)),
        },
        r.execution_time == (if outcome is Busy || outcome is EngineUnavailable { 0 } else { execution_time }),
{
    let ghost o = outcome;
    let (success, results, error, time): (bool, Option<SimulationResults>, Option<String>, u64) = match outcome {
        JobOutcome::Completed(res) => (true, Some(res), None, execution_time),
        JobOutcome::Failed(m) => (false, None, Some(m), execution_time),
        JobOutcome::Cancelled => (false, None, Some(text("Simulation cancelled")), execution_time),
        JobOutcome::Busy => (false, None, Some(text("Another simulation is already running")), 0),
        JobOutcome::EngineUnavailable => (false, None, Some(text("LTspice not found on this system")), 0),
    };
    SimulationResponse {
        id,
        msg_type: text("simulation_result"),
        request_id: text(request_id),
        timestamp,
        success,
        results,
        error,
        execution_time: time,
        simulator: text("ltspice"),
    }
}

/// The progress message sent as soon as a simulate request is accepted.
pub fn preparing_progress(request_id: &str) -> (r: SimulationProgress)
    ensures
        r.request_id@ == request_id@,
        r.stage@ == "preparing"@,
        r.msg_type@ == "simulation_progress"@,
        r.message@ == "Preparing simulation..."@,
{
    SimulationProgress {
        id: new_message_id(),
        msg_type: text("simulation_progress"),
        request_id: text(request_id),
        timestamp: now_ms(),
        stage: text("preparing"),
        message: text("Preparing simulation..."),
    }
}

/// The kinds of request a connection handles.
pub enum MessageKind {
    Handshake,
    Simulate,
    Ping,
    Cancel,
    Unknown,
}

/// The kind named by a message's `type` field, matched exactly.
pub fn message_kind(msg_type: &str) -> (r: MessageKind)
    ensures
        msg_type@ == "handshake"@ <==> r is Handshake,
        msg_type@ == "simulate"@ <==> r is Simulate,
        msg_type@ == "ping"@ <==> r is Ping,
        msg_type@ == "cancel"@ <==> r is Cancel,
{
    let t = chars_of(msg_type);
    let t = t.as_slice();
    proof {
        reveal_strlit("handshake");
        reveal_strlit("simulate");
        reveal_strlit("ping");
        reveal_strlit("cancel");
        assert("handshake"@.len() == 9);
        assert("simulate"@.len() == 8);
        assert("ping"@.len() == 4);
        assert("cancel"@.len() == 6);
    }
    if same_chars(t, chars_of("handshake").as_slice()) {
        MessageKind::Handshake
    } else if same_chars(t, chars_of("simulate").as_slice()) {
        MessageKind::Simulate
    } else if same_chars(t, chars_of("ping").as_slice()) {
        MessageKind::Ping
    } else if same_chars(t, chars_of("cancel").as_slice()) {
        MessageKind::Cancel
    } else {
        MessageKind::Unknown
    }
}

/// One connection's protocol state: simulate requests are taken only once a
/// handshake has succeeded; a failed handshake leaves (or puts) the connection
/// back in the awaiting state without closing it.
pub struct Session {
    pub handshake_complete: bool,
}

impl Session {
    pub fn new() -> (r: Session)
        ensures
            !r.handshake_complete,
    {
        Session { handshake_complete: false }
    }

    /// Records the outcome of a handshake.
    pub fn record_handshake(&mut self, success: bool)
        ensures
            final(self).handshake_complete == success,
    {
        self.handshake_complete = success;
    }

    /// Whether a simulate request is taken (otherwise it is dropped unanswered).
    pub fn admits_simulation(&self) -> (r: bool)
        ensures
            r == self.handshake_complete,
    {
        self.handshake_complete
    }
}

} // verus!
