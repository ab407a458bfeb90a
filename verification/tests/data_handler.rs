use alpha_g_elogger::config::DataHandlerConfig;
use alpha_g_elogger::data_handler::{
    finish, get_final_odb, get_sequencer_headers, is_success, ChronoboxTimestampsArgs,
    ClientRequest, ErrorKind, Incoming, JobAction, JobError, JobEvent, JobState, LoadError,
    ParseError, Payload, ServerResponse,
};

/// The milliseconds that the jobs of these tests wait for a result.
const PATIENCE: u64 = 1000;

fn config() -> DataHandlerConfig {
    DataHandlerConfig { host: String::from("alphagdaq.cern.ch"), port: 8080 }
}

fn text(words: &str) -> JobEvent {
    JobEvent::Received(Incoming::Response(ServerResponse::Text(String::from(words))), 10)
}

fn token(token: &str) -> JobEvent {
    JobEvent::Received(Incoming::Response(ServerResponse::DownloadJWT(String::from(token))), 10)
}

fn error(message: &str) -> JobEvent {
    JobEvent::Received(Incoming::Response(ServerResponse::Error(String::from(message))), 10)
}

fn awaiting() -> JobState {
    JobState::Start
        .advance(JobEvent::ProbeStatus(200), PATIENCE)
        .advance(JobEvent::Connected, PATIENCE)
        .advance(JobEvent::Sent, PATIENCE)
}

#[test]
fn only_the_two_hundreds_are_success() {
    assert!(is_success(200));
    assert!(is_success(204));
    assert!(is_success(299));
    assert!(!is_success(199));
    assert!(!is_success(300));
    assert!(!is_success(404));
    assert!(!is_success(500));
    assert!(!is_success(0));
}

#[test]
fn a_job_starts_with_the_readiness_probe() {
    match JobState::Start.action(1234, &config(), PATIENCE) {
        JobAction::Probe { url } => assert_eq!(url, "http://alphagdaq.cern.ch:8080/1234"),
        other => panic!("unexpected action: {:?}", other),
    }
}

#[test]
fn a_data_handler_that_is_not_ready_gets_no_request() {
    let state = JobState::Start.advance(JobEvent::ProbeStatus(503), PATIENCE);
    assert!(matches!(state, JobState::Failed(JobError::NotReady)));
    assert!(state.is_over());
    assert!(matches!(state.action(1234, &config(), PATIENCE), JobAction::GiveUp));
    let state = state.advance(JobEvent::Connected, PATIENCE).advance(JobEvent::Sent, PATIENCE).advance(token("t"), PATIENCE);
    assert!(matches!(state, JobState::Failed(JobError::NotReady)));
    assert!(matches!(state.action(1234, &config(), PATIENCE), JobAction::GiveUp));
}

#[test]
fn a_probe_without_an_answer_fails_the_job() {
    let state = JobState::Start.advance(JobEvent::ProbeFailed, PATIENCE);
    assert!(matches!(state, JobState::Failed(JobError::ProbeFailed)));
}

#[test]
fn a_job_runs_from_the_probe_to_the_download() {
    let state = JobState::Start.advance(JobEvent::ProbeStatus(200), PATIENCE);
    assert!(matches!(state, JobState::Ready));
    match state.action(7, &config(), PATIENCE) {
        JobAction::Connect { url } => assert_eq!(url, "ws://alphagdaq.cern.ch:8080/ws"),
        other => panic!("unexpected action: {:?}", other),
    }
    let state = state.advance(JobEvent::Connected, PATIENCE);
    assert!(matches!(state, JobState::Connected));
    assert!(matches!(state.action(7, &config(), PATIENCE), JobAction::Send));
    let state = state.advance(JobEvent::Sent, PATIENCE);
    assert!(matches!(state, JobState::AwaitingResult { .. }));
    assert!(matches!(
        state.action(7, &config(), PATIENCE),
        JobAction::Receive { within: PATIENCE }
    ));
    let state = state.advance(text("working"), PATIENCE);
    assert!(matches!(state, JobState::AwaitingResult { .. }));
    let state = state.advance(JobEvent::Received(Incoming::Other, 10), PATIENCE);
    assert!(matches!(state, JobState::AwaitingResult { .. }));
    assert!(!state.is_over());
    let state = state.advance(token("abc.def.ghi"), PATIENCE);
    assert!(matches!(&state, JobState::Downloading { token } if token == "abc.def.ghi"));
    match state.action(7, &config(), PATIENCE) {
        JobAction::Download { url } => {
            assert_eq!(url, "http://alphagdaq.cern.ch:8080/download/abc.def.ghi")
        }
        other => panic!("unexpected action: {:?}", other),
    }
    let state = state.advance(JobEvent::DownloadStatus(200), PATIENCE);
    assert!(matches!(state, JobState::Completed));
    assert!(state.is_over());
    assert!(matches!(state.action(7, &config(), PATIENCE), JobAction::Deliver));
    let state = state.advance(JobEvent::ReceiveFailed, PATIENCE);
    assert!(matches!(state, JobState::Completed));
}

#[test]
fn an_error_of_the_data_handler_fails_the_job_with_its_words() {
    let state = awaiting().advance(text("working"), PATIENCE).advance(error("no such run"), PATIENCE);
    assert!(matches!(&state, JobState::Failed(JobError::DataHandler(m)) if m == "no such run"));
    let state = state.advance(token("late"), PATIENCE);
    assert!(matches!(&state, JobState::Failed(JobError::DataHandler(m)) if m == "no such run"));
}

#[test]
fn every_failure_while_waiting_ends_the_job() {
    assert!(matches!(
        awaiting().advance(JobEvent::ReceiveFailed, PATIENCE),
        JobState::Failed(JobError::ReceiveFailed)
    ));
    assert!(matches!(
        awaiting().advance(JobEvent::ReceiveTimedOut, PATIENCE),
        JobState::Failed(JobError::TimedOut)
    ));
    assert!(matches!(
        awaiting().advance(JobEvent::Received(Incoming::Malformed, 10), PATIENCE),
        JobState::Failed(JobError::MalformedMessage)
    ));
}

#[test]
fn failures_on_the_way_end_the_job() {
    let ready = || JobState::Start.advance(JobEvent::ProbeStatus(204), PATIENCE);
    assert!(matches!(
        ready().advance(JobEvent::ConnectFailed, PATIENCE),
        JobState::Failed(JobError::ConnectFailed)
    ));
    assert!(matches!(
        ready().advance(JobEvent::Connected, PATIENCE).advance(JobEvent::SendFailed, PATIENCE),
        JobState::Failed(JobError::SendFailed)
    ));
    assert!(matches!(
        awaiting().advance(token("t"), PATIENCE).advance(JobEvent::DownloadFailed, PATIENCE),
        JobState::Failed(JobError::DownloadFailed)
    ));
    assert!(matches!(
        awaiting().advance(token("t"), PATIENCE).advance(JobEvent::DownloadStatus(404), PATIENCE),
        JobState::Failed(JobError::DownloadRefused)
    ));
}

#[test]
fn an_event_out_of_turn_fails_the_job() {
    assert!(matches!(
        JobState::Start.advance(JobEvent::Connected, PATIENCE),
        JobState::Failed(JobError::OutOfTurn)
    ));
    assert!(matches!(JobState::Start.advance(token("t"), PATIENCE), JobState::Failed(JobError::OutOfTurn)));
    assert!(matches!(
        JobState::Start.advance(JobEvent::ProbeStatus(200), PATIENCE).advance(JobEvent::Sent, PATIENCE),
        JobState::Failed(JobError::OutOfTurn)
    ));
    assert!(matches!(
        awaiting().advance(JobEvent::DownloadStatus(200), PATIENCE),
        JobState::Failed(JobError::OutOfTurn)
    ));
    assert!(matches!(
        awaiting().advance(token("t"), PATIENCE).advance(text("late"), PATIENCE),
        JobState::Failed(JobError::OutOfTurn)
    ));
}

#[test]
fn job_errors_have_a_kind() {
    assert_eq!(JobError::ProbeFailed.kind(), ErrorKind::Transport);
    assert_eq!(JobError::ConnectFailed.kind(), ErrorKind::Transport);
    assert_eq!(JobError::SendFailed.kind(), ErrorKind::Transport);
    assert_eq!(JobError::ReceiveFailed.kind(), ErrorKind::Transport);
    assert_eq!(JobError::DownloadFailed.kind(), ErrorKind::Transport);
    assert_eq!(JobError::NotReady.kind(), ErrorKind::NotReady);
    assert_eq!(JobError::TimedOut.kind(), ErrorKind::Timeout);
    assert_eq!(JobError::MalformedMessage.kind(), ErrorKind::Protocol);
    assert_eq!(JobError::DataHandler(String::from("x")).kind(), ErrorKind::Protocol);
    assert_eq!(JobError::DownloadRefused.kind(), ErrorKind::Protocol);
    assert_eq!(JobError::OutOfTurn.kind(), ErrorKind::Protocol);
}

#[test]
fn job_errors_say_what_failed() {
    assert_eq!(
        JobError::ProbeFailed.message(9876),
        "failed GET request to data handler's `/9876` endpoint"
    );
    assert_eq!(JobError::NotReady.message(1), "data handler is not ready");
    assert_eq!(JobError::ConnectFailed.message(1), "failed to connect to data handler websocket");
    assert_eq!(
        JobError::SendFailed.message(1),
        "failed to send websocket request to data handler"
    );
    assert_eq!(JobError::ReceiveFailed.message(1), "failed to read data handler message");
    assert_eq!(JobError::TimedOut.message(1), "timed out waiting for a data handler message");
    assert_eq!(JobError::MalformedMessage.message(1), "failed to parse data handler message");
    assert_eq!(
        JobError::DataHandler(String::from("boom")).message(1),
        "data handler internal error: `boom`"
    );
    assert_eq!(
        JobError::DownloadFailed.message(1),
        "failed GET request to data handler's download endpoint"
    );
    assert_eq!(JobError::DownloadRefused.message(1), "failed to download from data handler");
    assert_eq!(JobError::OutOfTurn.message(1), "unexpected event for the state of the job");
}

#[test]
fn parse_errors_name_their_payload() {
    assert_eq!(ParseError::SpillLog.payload(), Payload::SpillLog);
    assert_eq!(ParseError::SequencerCsv.payload(), Payload::SequencerCsv);
    assert_eq!(ParseError::OdbStart.payload(), Payload::FinalOdb);
    assert_eq!(ParseError::Odb.payload(), Payload::FinalOdb);
    assert_eq!(ParseError::Odb.kind(), ErrorKind::Parse);
    assert_eq!(ParseError::SpillLog.message(), "failed to parse spill log");
    assert_eq!(ParseError::SequencerCsv.message(), "failed to parse sequencer CSV");
    assert_eq!(ParseError::OdbStart.message(), "failed to find start of ODB JSON");
    assert_eq!(ParseError::Odb.message(), "failed to parse final ODB");
}

#[test]
fn requests_know_their_run() {
    assert_eq!(ClientRequest::FinalOdb { run_number: 1 }.run_number(), 1);
    assert_eq!(ClientRequest::SequencerCsv { run_number: 2 }.run_number(), 2);
    assert_eq!(ClientRequest::SpillLog { run_number: 3 }.run_number(), 3);
    let args = ChronoboxTimestampsArgs {
        board_name: String::from("cb01"),
        channel_number: 4,
        t_bins: None,
        t_max: None,
        t_min: None,
    };
    assert_eq!(ClientRequest::ChronoboxPlot { run_number: 5, args }.run_number(), 5);
}

#[test]
fn sequencer_headers_are_three_line_feeds_apart() {
    let headers = vec![String::from("first"), String::from("second\nline"), String::from("third")];
    assert_eq!(
        get_sequencer_headers(JobState::Completed, &headers).unwrap(),
        "first\n\n\nsecond\nline\n\n\nthird"
    );
    assert_eq!(get_sequencer_headers(JobState::Completed, &Vec::new()).unwrap(), "");
    assert_eq!(
        get_sequencer_headers(JobState::Completed, &vec![String::from("only")]).unwrap(),
        "only"
    );
}

#[test]
fn a_job_that_did_not_complete_loads_no_sequencer_headers() {
    let headers = vec![String::from("first")];
    assert!(matches!(
        get_sequencer_headers(JobState::Failed(JobError::NotReady), &headers),
        Err(LoadError::Job(JobError::NotReady))
    ));
    assert!(matches!(
        get_sequencer_headers(JobState::Ready, &headers),
        Err(LoadError::Unfinished)
    ));
}

#[test]
fn a_data_handler_that_is_not_ready_loads_nothing() {
    let end = JobState::Start.advance(JobEvent::ProbeStatus(503), PATIENCE);
    assert!(matches!(end.action(1, &config(), PATIENCE), JobAction::GiveUp));
    assert!(matches!(
        get_final_odb(end, "{\"a\": 1}"),
        Err(LoadError::Job(JobError::NotReady))
    ));
    let end = JobState::Start
        .advance(JobEvent::ProbeStatus(404), PATIENCE)
        .advance(JobEvent::Connected, PATIENCE)
        .advance(JobEvent::DownloadStatus(200), PATIENCE);
    assert!(matches!(
        get_sequencer_headers(end, &vec![String::from("h")]),
        Err(LoadError::Job(JobError::NotReady))
    ));
}

#[test]
fn the_end_of_a_job_says_what_there_is_to_read() {
    assert!(finish(JobState::Completed).is_ok());
    assert!(matches!(
        finish(JobState::Failed(JobError::TimedOut)),
        Err(LoadError::Job(JobError::TimedOut))
    ));
    assert!(matches!(finish(JobState::Connected), Err(LoadError::Unfinished)));
    assert!(matches!(
        finish(JobState::Downloading { token: String::from("t") }),
        Err(LoadError::Unfinished)
    ));
}

#[test]
fn load_errors_have_a_kind_and_a_message() {
    assert_eq!(LoadError::Job(JobError::NotReady).kind(), ErrorKind::NotReady);
    assert_eq!(LoadError::Job(JobError::ConnectFailed).kind(), ErrorKind::Transport);
    assert_eq!(LoadError::Parse(ParseError::Odb).kind(), ErrorKind::Parse);
    assert_eq!(LoadError::Unfinished.kind(), ErrorKind::Protocol);
    assert_eq!(LoadError::Job(JobError::NotReady).message(3), "data handler is not ready");
    assert_eq!(LoadError::Parse(ParseError::Odb).message(3), "failed to parse final ODB");
    assert_eq!(LoadError::Unfinished.message(3), "the job has not ended");
}

#[test]
fn the_time_of_progress_texts_adds_up() {
    let state = awaiting();
    assert!(matches!(state, JobState::AwaitingResult { waited: 0 }));
    let state = state.advance(JobEvent::Received(Incoming::Other, 300), PATIENCE);
    assert!(matches!(state, JobState::AwaitingResult { waited: 300 }));
    assert!(matches!(
        state.action(1, &config(), PATIENCE),
        JobAction::Receive { within: 700 }
    ));
    let words = || Incoming::Response(ServerResponse::Text(String::from("working")));
    let state = state.advance(JobEvent::Received(words(), 699), PATIENCE);
    assert!(matches!(state, JobState::AwaitingResult { waited: 999 }));
    assert!(matches!(state.action(1, &config(), PATIENCE), JobAction::Receive { within: 1 }));
    let state = state.advance(JobEvent::Received(words(), 1), PATIENCE);
    assert!(matches!(state, JobState::Failed(JobError::TimedOut)));
    assert!(matches!(state.action(1, &config(), PATIENCE), JobAction::GiveUp));
}

#[test]
fn an_endless_stream_of_progress_texts_times_out() {
    let mut state = awaiting();
    let mut frames = 0;
    while !state.is_over() {
        let words = Incoming::Response(ServerResponse::Text(String::from("working")));
        state = state.advance(JobEvent::Received(words, 7), PATIENCE);
        frames += 1;
        assert!(frames <= 143, "the wait has no end");
    }
    assert_eq!(frames, 143);
    assert!(matches!(state, JobState::Failed(JobError::TimedOut)));
}

#[test]
fn a_wait_beyond_the_patience_times_out_at_once() {
    assert!(matches!(
        awaiting().advance(JobEvent::Received(Incoming::Other, 1000), PATIENCE),
        JobState::Failed(JobError::TimedOut)
    ));
    assert!(matches!(
        awaiting().advance(JobEvent::Received(Incoming::Other, u64::MAX), PATIENCE),
        JobState::Failed(JobError::TimedOut)
    ));
    assert!(matches!(
        awaiting()
            .advance(JobEvent::Received(Incoming::Other, 999), u64::MAX)
            .advance(JobEvent::Received(Incoming::Other, u64::MAX), u64::MAX),
        JobState::Failed(JobError::TimedOut)
    ));
    assert!(matches!(
        awaiting().advance(JobEvent::Received(Incoming::Other, 0), 0),
        JobState::Failed(JobError::TimedOut)
    ));
    assert!(matches!(awaiting().action(1, &config(), 0), JobAction::Receive { within: 0 }));
}

#[test]
fn a_result_ends_the_wait_however_long_it_took() {
    let sent = Incoming::Response(ServerResponse::DownloadJWT(String::from("t")));
    assert!(matches!(
        awaiting().advance(JobEvent::Received(sent, 5000), PATIENCE),
        JobState::Downloading { .. }
    ));
    let failed = Incoming::Response(ServerResponse::Error(String::from("e")));
    assert!(matches!(
        awaiting().advance(JobEvent::Received(failed, 5000), PATIENCE),
        JobState::Failed(JobError::DataHandler(_))
    ));
}
