use kelicad_agent::agent::{simulation_response, preparing_progress, Admission, AppState, JobOutcome};
use kelicad_agent::protocol::{CancelRequest, Sample, Scalar, SimulationResults};

fn engine_state() -> AppState {
    let mut s = AppState::default();
    s.ltspice_path = Some("/usr/bin/ltspice".to_string());
    s
}

fn results() -> SimulationResults {
    SimulationResults {
        time: vec![Sample::Real(Scalar::Double(0))],
        traces: vec![],
        analysis_type: "transient".to_string(),
        x_axis_label: Some("time".to_string()),
    }
}

fn cancel(id: &str) -> CancelRequest {
    CancelRequest {
        id: "c-1".to_string(),
        msg_type: "cancel".to_string(),
        request_id: id.to_string(),
        timestamp: 1704067200000,
    }
}

#[test]
fn second_job_while_busy_is_rejected() {
    let mut s = engine_state();
    assert!(matches!(s.begin_simulation("sim-1"), Admission::Admitted(ref p) if p == "/usr/bin/ltspice"));
    assert!(s.is_simulating);
    assert_eq!(s.current_simulation_id, Some("sim-1".to_string()));
    assert!(matches!(s.begin_simulation("sim-2"), Admission::Busy));
    assert_eq!(s.current_simulation_id, Some("sim-1".to_string()));
    let r = simulation_response("sim-2", "r".to_string(), 1, 99, JobOutcome::Busy);
    assert!(!r.success);
    assert_eq!(r.error, Some("Another simulation is already running".to_string()));
    assert_eq!(r.execution_time, 0);
    assert_eq!(r.request_id, "sim-2");
}

#[test]
fn job_without_engine_is_rejected() {
    let mut s = AppState::default();
    assert!(matches!(s.begin_simulation("sim-1"), Admission::EngineUnavailable));
    assert!(!s.is_simulating);
    let r = simulation_response("sim-1", "r".to_string(), 1, 5, JobOutcome::EngineUnavailable);
    assert_eq!(r.error, Some("LTspice not found on this system".to_string()));
}

#[test]
fn cancel_of_other_job_is_refused() {
    let mut s = engine_state();
    s.begin_simulation("sim-1");
    s.record_process_id(77);
    let (resp, decision) = s.handle_cancel(&cancel("sim-9"));
    assert!(!resp.success);
    assert!(!decision.success);
    assert_eq!(decision.signal_pid, None);
    assert_eq!(resp.msg_type, "cancel_response");
    assert_eq!(resp.request_id, "sim-9");
    assert!(!s.cancel_requested);
    let outcome = s.finish_simulation(Ok(results()), 10);
    assert!(matches!(outcome, JobOutcome::Completed(_)));
    assert_eq!(s.simulation_count, 1);
    assert_eq!(s.last_simulation_time, Some(10));
}

#[test]
fn cancel_without_job_is_refused() {
    let mut s = engine_state();
    let (resp, decision) = s.handle_cancel(&cancel("sim-1"));
    assert!(!resp.success);
    assert_eq!(decision.signal_pid, None);
}

#[test]
fn cancel_of_current_job_reports_cancelled() {
    let mut s = engine_state();
    s.begin_simulation("sim-1");
    s.record_process_id(4242);
    let (resp, decision) = s.handle_cancel(&cancel("sim-1"));
    assert!(resp.success);
    assert_eq!(resp.msg_type, "cancel_response");
    assert_eq!(decision.signal_pid, Some(4242));
    let outcome = s.finish_simulation(Ok(results()), 10);
    assert!(matches!(outcome, JobOutcome::Cancelled));
    assert!(!s.is_simulating);
    assert!(!s.cancel_requested);
    assert_eq!(s.current_process_id, 0);
    assert_eq!(s.current_simulation_id, None);
    assert_eq!(s.simulation_count, 0);
    let r = simulation_response("sim-1", "r".to_string(), 1, 7, outcome);
    assert!(!r.success);
    assert_eq!(r.error, Some("Simulation cancelled".to_string()));
    assert_eq!(r.execution_time, 7);
}

#[test]
fn cancel_before_process_starts_signals_nothing() {
    let mut s = engine_state();
    s.begin_simulation("sim-1");
    let decision = s.request_cancel("sim-1");
    assert!(decision.success);
    assert_eq!(decision.signal_pid, None);
    assert!(s.cancel_requested);
}

#[test]
fn failed_job_reports_its_error() {
    let mut s = engine_state();
    s.begin_simulation("sim-1");
    let outcome = s.finish_simulation(Err("LTspice failed: boom".to_string()), 3);
    let r = simulation_response("sim-1", "r".to_string(), 1, 7, outcome);
    assert!(!r.success);
    assert!(r.results.is_none());
    assert_eq!(r.error, Some("LTspice failed: boom".to_string()));
    assert_eq!(s.simulation_count, 0);
    assert!(!s.is_simulating);
}

#[test]
fn completed_job_reports_results() {
    let mut s = engine_state();
    s.begin_simulation("sim-1");
    let outcome = s.finish_simulation(Ok(results()), 3);
    let r = simulation_response("sim-1", "r".to_string(), 1, 1500, outcome);
    assert!(r.success);
    assert!(r.error.is_none());
    assert_eq!(r.execution_time, 1500);
    assert_eq!(r.simulator, "ltspice");
    assert_eq!(r.msg_type, "simulation_result");
    assert_eq!(r.results.unwrap().analysis_type, "transient");
}

#[test]
fn ping_reports_busy_while_simulating() {
    let mut s = engine_state();
    assert_eq!(s.pong().status, "ready");
    assert_eq!(s.pong().msg_type, "pong");
    s.begin_simulation("sim-1");
    assert_eq!(s.pong().status, "busy");
    assert_eq!(s.ping_status(), "busy");
}

#[test]
fn connection_counter_never_underflows() {
    let mut s = AppState::default();
    s.connection_closed();
    assert_eq!(s.ws_connections, 0);
    s.connection_opened();
    s.connection_opened();
    s.connection_closed();
    assert_eq!(s.ws_connections, 1);
}

#[test]
fn progress_echoes_request_id() {
    let p = preparing_progress("sim-123");
    assert_eq!(p.request_id, "sim-123");
    assert_eq!(p.stage, "preparing");
    assert_eq!(p.msg_type, "simulation_progress");
    assert_eq!(p.message, "Preparing simulation...");
}
