//! Talking to the data handler: the requests that it answers, the steps of
//! one job from the readiness probe to the download, and what the bodies
//! that it delivers hold.
//!
//! A job is a state machine. The caller asks the state what to do, does it,
//! and reports what happened; the state that follows says what comes next.

use crate::config::DataHandlerConfig;
use crate::odb::{json_document, Json};
use crate::spill_log::Seconds;
use crate::text::{decimal, decimal_string, find_char, first_index_of, join, joined};
use vstd::prelude::*;

verus! {

/// The time window and the channel of a plot of Chronobox timestamps.
#[derive(Debug)]
pub struct ChronoboxTimestampsArgs {
    pub board_name: String,
    pub channel_number: u8,
    pub t_bins: Option<u32>,
    pub t_max: Option<Seconds>,
    pub t_min: Option<Seconds>,
}

/// What the data handler can be asked for, each for one run.
#[derive(Debug)]
pub enum ClientRequest {
    ChronoboxPlot { run_number: u32, args: ChronoboxTimestampsArgs },
    FinalOdb { run_number: u32 },
    SequencerCsv { run_number: u32 },
    SpillLog { run_number: u32 },
}

/// What a [`ChronoboxTimestampsArgs`] says.
pub ghost struct PlotArgsView {
    pub board_name: Seq<char>,
    pub channel_number: u8,
    pub t_bins: Option<u32>,
    pub t_max: Option<Seconds>,
    pub t_min: Option<Seconds>,
}

/// What a [`ClientRequest`] says.
pub ghost enum RequestView {
    ChronoboxPlot { run_number: u32, args: PlotArgsView },
    FinalOdb { run_number: u32 },
    SequencerCsv { run_number: u32 },
    SpillLog { run_number: u32 },
}

impl View for ChronoboxTimestampsArgs {
    type V = PlotArgsView;

    open spec fn view(&self) -> PlotArgsView {
        PlotArgsView {
            board_name: self.board_name@,
            channel_number: self.channel_number,
            t_bins: self.t_bins,
            t_max: self.t_max,
            t_min: self.t_min,
        }
    }
}

impl View for ClientRequest {
    type V = RequestView;

    open spec fn view(&self) -> RequestView {
        match self {
            ClientRequest::ChronoboxPlot { run_number, args } => RequestView::ChronoboxPlot {
                run_number: *run_number,
                args: args@,
            },
            ClientRequest::FinalOdb { run_number } => RequestView::FinalOdb {
                run_number: *run_number,
            },
            ClientRequest::SequencerCsv { run_number } => RequestView::SequencerCsv {
                run_number: *run_number,
            },
            ClientRequest::SpillLog { run_number } => RequestView::SpillLog {
                run_number: *run_number,
            },
        }
    }
}

impl ClientRequest {
    /// The run that the request is about.
    pub open spec fn spec_run_number(self) -> u32 {
        match self {
            ClientRequest::ChronoboxPlot { run_number, .. } => run_number,
            ClientRequest::FinalOdb { run_number } => run_number,
            ClientRequest::SequencerCsv { run_number } => run_number,
            ClientRequest::SpillLog { run_number } => run_number,
        }
    }

    /// The run that the request is about.
    pub fn run_number(&self) -> (run_number: u32)
        ensures
            run_number == self.spec_run_number(),
    {
        match self {
            ClientRequest::ChronoboxPlot { run_number, .. } => *run_number,
            ClientRequest::FinalOdb { run_number } => *run_number,
            ClientRequest::SequencerCsv { run_number } => *run_number,
            ClientRequest::SpillLog { run_number } => *run_number,
        }
    }
}

/// What the data handler says on the websocket while it works on a request.
#[derive(Debug)]
pub enum ServerResponse {
    /// Progress, for a person to read.
    Text(String),
    /// The request failed, and why.
    Error(String),
    /// The result is ready; the token fetches it.
    DownloadJWT(String),
}

/// What arrived on the websocket.
#[derive(Debug)]
pub enum Incoming {
    /// A text frame with a message of the data handler.
    Response(ServerResponse),
    /// A text frame that holds no such message.
    Malformed,
    /// A frame that is no text.
    Other,
}

/// What the caller reports back after it did what the job asked for.
#[derive(Debug)]
pub enum JobEvent {
    /// The readiness probe was answered with this HTTP status.
    ProbeStatus(u16),
    /// The readiness probe got no answer.
    ProbeFailed,
    /// The websocket is open.
    Connected,
    /// The websocket could not be opened.
    ConnectFailed,
    /// The request is on its way.
    Sent,
    /// The request could not be sent.
    SendFailed,
    /// A frame arrived, after the caller had waited this many milliseconds
    /// for it.
    Received(Incoming, u64),
    /// Reading failed, or the connection was closed.
    ReceiveFailed,
    /// No frame arrived in the time that the job allowed for it.
    ReceiveTimedOut,
    /// The download was answered with this HTTP status.
    DownloadStatus(u16),
    /// The download got no answer.
    DownloadFailed,
}

/// Why a job failed.
#[derive(Debug)]
pub enum JobError {
    /// The readiness probe got no answer.
    ProbeFailed,
    /// The data handler is not ready for the run.
    NotReady,
    /// The websocket could not be opened.
    ConnectFailed,
    /// The request could not be sent.
    SendFailed,
    /// Reading from the websocket failed, or the connection was closed before
    /// the data handler gave a result.
    ReceiveFailed,
    /// The data handler stayed silent for longer than the caller allows.
    TimedOut,
    /// A text frame held no message of the data handler.
    MalformedMessage,
    /// The data handler reported that the request failed.
    DataHandler(String),
    /// The download got no answer.
    DownloadFailed,
    /// The download was answered, but not with success.
    DownloadRefused,
    /// The caller reported something that the job had not asked for.
    OutOfTurn,
}

/// The kinds of failure of a job or of reading what it delivered.
#[derive(Clone, Copy, Debug, PartialEq, Eq, Structural)]
pub enum ErrorKind {
    /// What the data handler delivered could not be read.
    Parse,
    /// The connection to the data handler failed.
    Transport,
    /// The data handler answered, but not as the protocol expects, or with an
    /// error of its own.
    Protocol,
    /// The data handler is not ready for the run.
    NotReady,
    /// The data handler did not answer in time.
    Timeout,
}

/// How far a job has come.
#[derive(Debug)]
pub enum JobState {
    /// Nothing was done yet.
    Start,
    /// The data handler is ready for the run.
    Ready,
    /// The websocket is open.
    Connected,
    /// The request was sent and no result has arrived in the milliseconds
    /// waited so far.
    AwaitingResult { waited: u64 },
    /// The result is ready to be fetched with this token.
    Downloading { token: String },
    /// The result was fetched: it is the body of the download's answer.
    Completed,
    /// The job failed.
    Failed(JobError),
}

/// What the caller is to do next for a job.
#[derive(Debug)]
pub enum JobAction {
    /// Send a GET request to this URL and report the status of the answer.
    Probe { url: String },
    /// Open a websocket to this URL.
    Connect { url: String },
    /// Send the job's request on the websocket.
    Send,
    /// Read the next frame from the websocket, and wait no longer for it
    /// than this many milliseconds.
    Receive { within: u64 },
    /// Close the websocket, send a GET request to this URL and report the
    /// status of the answer.
    Download { url: String },
    /// Hand the body of the download's answer to whoever asked for it.
    Deliver,
    /// Close what is open and report the failure.
    GiveUp,
}

/// Whether an HTTP status says that the request succeeded.
pub open spec fn spec_is_success(status: u16) -> bool {
    200 <= status <= 299
}

/// Whether an HTTP status says that the request succeeded.
pub fn is_success(status: u16) -> (success: bool)
    ensures
        success == spec_is_success(status),
{
    200 <= status && status <= 299
}

/// The state of a job that goes on waiting after a frame that took `elapsed`
/// milliseconds to arrive: the time adds up, and the job fails once it has
/// waited `patience` milliseconds or more.
pub open spec fn still_waiting(waited: u64, elapsed: u64, patience: u64) -> JobState {
    if waited + elapsed >= patience {
        JobState::Failed(JobError::TimedOut)
    } else {
        JobState::AwaitingResult { waited: (waited + elapsed) as u64 }
    }
}

/// The milliseconds that a job which has waited `waited` of them may still
/// wait for its result.
pub open spec fn time_left(waited: u64, patience: u64) -> u64 {
    if waited < patience {
        (patience - waited) as u64
    } else {
        0
    }
}

/// The state after `event` was reported in `state`, for a job that waits at
/// most `patience` milliseconds for its result.
///
/// The readiness probe comes first and must succeed before anything is sent.
/// While the result is awaited, progress texts and frames that are no text
/// only use up the time; a token, an error, a failure to read or the end of
/// the time end the wait. A job that is completed or has failed stays as it
/// is. An event that does not answer what the state asked for makes the job
/// fail.
pub open spec fn next_state(state: JobState, event: JobEvent, patience: u64) -> JobState {
    match state {
        JobState::Completed => JobState::Completed,
        JobState::Failed(error) => JobState::Failed(error),
        JobState::Start => match event {
            JobEvent::ProbeStatus(status) => if spec_is_success(status) {
                JobState::Ready
            } else {
                JobState::Failed(JobError::NotReady)
            },
            JobEvent::ProbeFailed => JobState::Failed(JobError::ProbeFailed),
            _ => JobState::Failed(JobError::OutOfTurn),
        },
        JobState::Ready => match event {
            JobEvent::Connected => JobState::Connected,
            JobEvent::ConnectFailed => JobState::Failed(JobError::ConnectFailed),
            _ => JobState::Failed(JobError::OutOfTurn),
        },
        JobState::Connected => match event {
            JobEvent::Sent => JobState::AwaitingResult { waited: 0 },
            JobEvent::SendFailed => JobState::Failed(JobError::SendFailed),
            _ => JobState::Failed(JobError::OutOfTurn),
        },
        JobState::AwaitingResult { waited } => match event {
            JobEvent::Received(Incoming::Response(ServerResponse::Text(_)), elapsed) => still_waiting(
                waited,
                elapsed,
                patience,
            ),
            JobEvent::Received(Incoming::Response(ServerResponse::Error(message)), _) => JobState::Failed(
                JobError::DataHandler(message),
            ),
            JobEvent::Received(Incoming::Response(ServerResponse::DownloadJWT(token)), _) => JobState::Downloading {
                token,
            },
            JobEvent::Received(Incoming::Malformed, _) => JobState::Failed(
                JobError::MalformedMessage,
            ),
            JobEvent::Received(Incoming::Other, elapsed) => still_waiting(waited, elapsed, patience),
            JobEvent::ReceiveFailed => JobState::Failed(JobError::ReceiveFailed),
            JobEvent::ReceiveTimedOut => JobState::Failed(JobError::TimedOut),
            _ => JobState::Failed(JobError::OutOfTurn),
        },
        JobState::Downloading { token } => match event {
            JobEvent::DownloadStatus(status) => if spec_is_success(status) {
                JobState::Completed
            } else {
                JobState::Failed(JobError::DownloadRefused)
            },
            JobEvent::DownloadFailed => JobState::Failed(JobError::DownloadFailed),
            _ => JobState::Failed(JobError::OutOfTurn),
        },
    }
}

/// The state after a whole sequence of events was reported, one after the
/// other.
pub open spec fn state_after(state: JobState, events: Seq<JobEvent>, patience: u64) -> JobState
    decreases events.len(),
{
    if events.len() == 0 {
        state
    } else {
        state_after(next_state(state, events[0], patience), events.drop_first(), patience)
    }
}

/// Whether a state asks the caller to talk to the data handler beyond the
/// readiness probe: to open the websocket, to send, to read or to download.
pub open spec fn asks_for_job(state: JobState) -> bool {
    state is Ready || state is Connected || state is AwaitingResult || state is Downloading
}

/// A job that has ended stays as it is, whatever is reported afterwards.
pub proof fn lemma_ended_job_stays(state: JobState, events: Seq<JobEvent>, patience: u64)
    requires
        state is Completed || state is Failed,
    ensures
        state_after(state, events, patience) == state,
    decreases events.len(),
{
    if events.len() > 0 {
        lemma_ended_job_stays(state, events.drop_first(), patience);
    }
}

/// The readiness gate: a job asks for the websocket or the download, or is
/// completed, only after the readiness probe was answered with success as the
/// very first thing.
pub proof fn lemma_nothing_before_ready(events: Seq<JobEvent>, patience: u64)
    ensures
        asks_for_job(state_after(JobState::Start, events, patience)) || state_after(
            JobState::Start,
            events,
            patience,
        ) is Completed ==> events.len() > 0 && (events[0] matches JobEvent::ProbeStatus(status)
            && spec_is_success(status)),
{
    if events.len() > 0 {
        let first = next_state(JobState::Start, events[0], patience);
        if first is Failed {
            lemma_ended_job_stays(first, events.drop_first(), patience);
        }
    }
}

/// A data handler that is not ready ends the job at once: the job fails with
/// [`JobError::NotReady`], and nothing that is reported later changes that.
/// Such a job asks for nothing but to give up, whatever it was to fetch.
pub proof fn lemma_not_ready_ends_job(status: u16, later: Seq<JobEvent>, patience: u64)
    requires
        !spec_is_success(status),
    ensures
        state_after(JobState::Start, seq![JobEvent::ProbeStatus(status)] + later, patience)
            == JobState::Failed(JobError::NotReady),
        forall|action: JobAction, run_number: u32, host: Seq<char>, port: u16|
            is_action_of(
                action,
                state_after(
                    JobState::Start,
                    seq![JobEvent::ProbeStatus(status)] + later,
                    patience,
                ),
                run_number,
                host,
                port,
                patience,
            ) ==> action is GiveUp,
{
    let events = seq![JobEvent::ProbeStatus(status)] + later;
    assert(events.drop_first() =~= later);
    lemma_ended_job_stays(JobState::Failed(JobError::NotReady), later, patience);
}

/// The wait for the result ends only with a token, with an error or with a
/// failure: a progress text or a frame that is no text keeps the job waiting
/// while there is time, a token starts the download, and everything else
/// makes the job fail. An error that the data handler reports is the failure
/// of the job, with the data handler's own words.
pub proof fn lemma_wait_ends_with_token_or_failure(waited: u64, event: JobEvent, patience: u64)
    ensures
        match next_state(JobState::AwaitingResult { waited }, event, patience) {
            JobState::AwaitingResult { waited: longer } => event matches JobEvent::Received(
                incoming,
                elapsed,
            ) && (incoming is Other || (incoming matches Incoming::Response(response)
                && response is Text)) && longer == waited + elapsed && longer < patience,
            JobState::Downloading { token } => event matches JobEvent::Received(
                Incoming::Response(ServerResponse::DownloadJWT(sent)),
                _,
            ) && sent == token,
            JobState::Failed(_) => true,
            _ => false,
        },
        event matches JobEvent::Received(Incoming::Response(ServerResponse::Error(message)), _)
            ==> next_state(JobState::AwaitingResult { waited }, event, patience)
            == JobState::Failed(JobError::DataHandler(message)),
{
}

/// The milliseconds that the caller says it waited for the frames of a
/// sequence of events.
pub open spec fn time_reported(events: Seq<JobEvent>) -> int
    decreases events.len(),
{
    if events.len() == 0 {
        0
    } else {
        time_reported(events.drop_last()) + match events.last() {
            JobEvent::Received(_, elapsed) => elapsed as int,
            _ => 0,
        }
    }
}

/// A job that is past the wait never waits again.
proof fn lemma_no_way_back(state: JobState, events: Seq<JobEvent>, patience: u64)
    requires
        state is Downloading || state is Completed || state is Failed,
    ensures
        !(state_after(state, events, patience) is AwaitingResult),
    decreases events.len(),
{
    if events.len() > 0 {
        lemma_no_way_back(next_state(state, events[0], patience), events.drop_first(), patience);
    }
}

/// The time of the head of a sequence and of its rest add up.
proof fn lemma_time_reported_from_front(events: Seq<JobEvent>)
    requires
        events.len() > 0,
    ensures
        time_reported(events) == time_reported(seq![events[0]]) + time_reported(
            events.drop_first(),
        ),
    decreases events.len(),
{
    if events.len() == 1 {
        assert(events.drop_first() =~= Seq::<JobEvent>::empty());
        assert(seq![events[0]] =~= events);
    } else {
        lemma_time_reported_from_front(events.drop_last());
        assert(events.drop_last().drop_first() =~= events.drop_first().drop_last());
        assert(events.drop_last()[0] == events[0]);
        assert(events.drop_first().last() == events.last());
    }
}

/// The wait is bounded: a job that still waits for its result has waited
/// exactly the time that was reported for the frames since it began to wait,
/// and less than its patience. Whatever the data handler sends, be it
/// nothing or progress texts without end, the job has failed or moved on once
/// the reported time reaches the patience.
pub proof fn lemma_wait_is_bounded(waited: u64, events: Seq<JobEvent>, patience: u64)
    ensures
        state_after(JobState::AwaitingResult { waited }, events, patience)
            matches JobState::AwaitingResult { waited: longer } ==> longer == waited
            + time_reported(events) && (events.len() > 0 ==> longer < patience),
    decreases events.len(),
{
    if events.len() > 0 {
        let next = next_state(JobState::AwaitingResult { waited }, events[0], patience);
        let single = seq![events[0]];
        lemma_time_reported_from_front(events);
        assert(single.drop_last() =~= Seq::<JobEvent>::empty());
        assert(single.last() == events[0]);
        assert(time_reported(single.drop_last()) == 0);
        assert(time_reported(single) == match events[0] {
            JobEvent::Received(_, elapsed) => elapsed as int,
            _ => 0,
        });
        lemma_wait_ends_with_token_or_failure(waited, events[0], patience);
        match next {
            JobState::AwaitingResult { waited: longer } => {
                lemma_wait_is_bounded(longer, events.drop_first(), patience);
                if events.drop_first().len() == 0 {
                    assert(state_after(next, events.drop_first(), patience) == next);
                }
            },
            _ => {
                lemma_no_way_back(next, events.drop_first(), patience);
            },
        }
    }
}

/// The URL of the readiness probe of a run.
pub open spec fn readiness_url(host: Seq<char>, port: u16, run_number: u32) -> Seq<char> {
    "http://"@ + host + ":"@ + decimal(port as nat) + "/"@ + decimal(run_number as nat)
}

/// The URL of the data handler's websocket.
pub open spec fn websocket_url(host: Seq<char>, port: u16) -> Seq<char> {
    "ws://"@ + host + ":"@ + decimal(port as nat) + "/ws"@
}

/// The URL from which a token fetches its result.
pub open spec fn download_url(host: Seq<char>, port: u16, token: Seq<char>) -> Seq<char> {
    "http://"@ + host + ":"@ + decimal(port as nat) + "/download/"@ + token
}

/// Whether `action` is what `state` asks for, for a run and a data handler.
pub open spec fn is_action_of(
    action: JobAction,
    state: JobState,
    run_number: u32,
    host: Seq<char>,
    port: u16,
    patience: u64,
) -> bool {
    match state {
        JobState::Start => action matches JobAction::Probe { url } && url@ == readiness_url(
            host,
            port,
            run_number,
        ),
        JobState::Ready => action matches JobAction::Connect { url } && url@ == websocket_url(
            host,
            port,
        ),
        JobState::Connected => action is Send,
        JobState::AwaitingResult { waited } => action matches JobAction::Receive { within }
            && within == time_left(waited, patience),
        JobState::Downloading { token } => action matches JobAction::Download { url } && url@
            == download_url(host, port, token@),
        JobState::Completed => action is Deliver,
        JobState::Failed(_) => action is GiveUp,
    }
}

/// The address of the data handler as it stands in a URL: after the scheme,
/// the host, a colon and the port.
fn url_to(scheme: &str, config: &DataHandlerConfig) -> (url: String)
    ensures
        url@ == scheme@ + config.host@ + ":"@ + decimal(config.port as nat),
{
    let mut url = String::from_str(scheme);
    url.append(config.host.as_str());
    url.append(":");
    url.append(decimal_string(config.port as u64).as_str());
    url
}

impl JobError {
    /// The kind of this failure.
    pub open spec fn spec_kind(self) -> ErrorKind {
        match self {
            JobError::ProbeFailed => ErrorKind::Transport,
            JobError::NotReady => ErrorKind::NotReady,
            JobError::ConnectFailed => ErrorKind::Transport,
            JobError::SendFailed => ErrorKind::Transport,
            JobError::ReceiveFailed => ErrorKind::Transport,
            JobError::TimedOut => ErrorKind::Timeout,
            JobError::MalformedMessage => ErrorKind::Protocol,
            JobError::DataHandler(_) => ErrorKind::Protocol,
            JobError::DownloadFailed => ErrorKind::Transport,
            JobError::DownloadRefused => ErrorKind::Protocol,
            JobError::OutOfTurn => ErrorKind::Protocol,
        }
    }

    /// The kind of this failure.
    pub fn kind(&self) -> (kind: ErrorKind)
        ensures
            kind == self.spec_kind(),
    {
        match self {
            JobError::ProbeFailed => ErrorKind::Transport,
            JobError::NotReady => ErrorKind::NotReady,
            JobError::ConnectFailed => ErrorKind::Transport,
            JobError::SendFailed => ErrorKind::Transport,
            JobError::ReceiveFailed => ErrorKind::Transport,
            JobError::TimedOut => ErrorKind::Timeout,
            JobError::MalformedMessage => ErrorKind::Protocol,
            JobError::DataHandler(_) => ErrorKind::Protocol,
            JobError::DownloadFailed => ErrorKind::Transport,
            JobError::DownloadRefused => ErrorKind::Protocol,
            JobError::OutOfTurn => ErrorKind::Protocol,
        }
    }

    /// What the failure of a job for `run_number` says of itself.
    pub open spec fn spec_message(self, run_number: u32) -> Seq<char> {
        match self {
            JobError::ProbeFailed => "failed GET request to data handler's `/"@ + decimal(
                run_number as nat,
            ) + "` endpoint"@,
            JobError::NotReady => "data handler is not ready"@,
            JobError::ConnectFailed => "failed to connect to data handler websocket"@,
            JobError::SendFailed => "failed to send websocket request to data handler"@,
            JobError::ReceiveFailed => "failed to read data handler message"@,
            JobError::TimedOut => "timed out waiting for a data handler message"@,
            JobError::MalformedMessage => "failed to parse data handler message"@,
            JobError::DataHandler(message) => "data handler internal error: `"@ + message@ + "`"@,
            JobError::DownloadFailed => "failed GET request to data handler's download endpoint"@,
            JobError::DownloadRefused => "failed to download from data handler"@,
            JobError::OutOfTurn => "unexpected event for the state of the job"@,
        }
    }

    /// What the failure of a job for `run_number` says of itself.
    pub fn message(&self, run_number: u32) -> (message: String)
        ensures
            message@ == self.spec_message(run_number),
    {
        match self {
            JobError::ProbeFailed => {
                let mut message = String::from_str("failed GET request to data handler's `/");
                message.append(decimal_string(run_number as u64).as_str());
                message.append("` endpoint");
                message
            },
            JobError::NotReady => String::from_str("data handler is not ready"),
            JobError::ConnectFailed => String::from_str(
                "failed to connect to data handler websocket",
            ),
            JobError::SendFailed => String::from_str(
                "failed to send websocket request to data handler",
            ),
            JobError::ReceiveFailed => String::from_str("failed to read data handler message"),
            JobError::TimedOut => String::from_str("timed out waiting for a data handler message"),
            JobError::MalformedMessage => String::from_str("failed to parse data handler message"),
            JobError::DataHandler(reason) => {
                let mut message = String::from_str("data handler internal error: `");
                message.append(reason.as_str());
                message.append("`");
                message
            },
            JobError::DownloadFailed => String::from_str(
                "failed GET request to data handler's download endpoint",
            ),
            JobError::DownloadRefused => String::from_str("failed to download from data handler"),
            JobError::OutOfTurn => String::from_str("unexpected event for the state of the job"),
        }
    }
}

/// Goes on waiting after a frame that took `elapsed` milliseconds to arrive,
/// or gives up where the time is used up.
fn wait_on(waited: u64, elapsed: u64, patience: u64) -> (next: JobState)
    ensures
        next == still_waiting(waited, elapsed, patience),
{
    if waited >= patience || elapsed >= patience - waited {
        JobState::Failed(JobError::TimedOut)
    } else {
        JobState::AwaitingResult { waited: waited + elapsed }
    }
}

impl JobState {
    /// Whether the job has ended, well or not.
    pub open spec fn spec_is_over(self) -> bool {
        self is Completed || self is Failed
    }

    /// Whether the job has ended, well or not.
    pub fn is_over(&self) -> (over: bool)
        ensures
            over == self.spec_is_over(),
    {
        match self {
            JobState::Completed => true,
            JobState::Failed(_) => true,
            _ => false,
        }
    }

    /// The state after `event` was reported, for a job that waits at most
    /// `patience` milliseconds for its result.
    pub fn advance(self, event: JobEvent, patience: u64) -> (next: JobState)
        ensures
            next == next_state(self, event, patience),
    {
        match self {
            JobState::Completed => JobState::Completed,
            JobState::Failed(error) => JobState::Failed(error),
            JobState::Start => match event {
                JobEvent::ProbeStatus(status) => if is_success(status) {
                    JobState::Ready
                } else {
                    JobState::Failed(JobError::NotReady)
                },
                JobEvent::ProbeFailed => JobState::Failed(JobError::ProbeFailed),
                _ => JobState::Failed(JobError::OutOfTurn),
            },
            JobState::Ready => match event {
                JobEvent::Connected => JobState::Connected,
                JobEvent::ConnectFailed => JobState::Failed(JobError::ConnectFailed),
                _ => JobState::Failed(JobError::OutOfTurn),
            },
            JobState::Connected => match event {
                JobEvent::Sent => JobState::AwaitingResult { waited: 0 },
                JobEvent::SendFailed => JobState::Failed(JobError::SendFailed),
                _ => JobState::Failed(JobError::OutOfTurn),
            },
            JobState::AwaitingResult { waited } => match event {
                JobEvent::Received(incoming, elapsed) => match incoming {
                    Incoming::Response(response) => match response {
                        ServerResponse::Text(_) => wait_on(waited, elapsed, patience),
                        ServerResponse::Error(message) => JobState::Failed(
                            JobError::DataHandler(message),
                        ),
                        ServerResponse::DownloadJWT(token) => JobState::Downloading { token },
                    },
                    Incoming::Malformed => JobState::Failed(JobError::MalformedMessage),
                    Incoming::Other => wait_on(waited, elapsed, patience),
                },
                JobEvent::ReceiveFailed => JobState::Failed(JobError::ReceiveFailed),
                JobEvent::ReceiveTimedOut => JobState::Failed(JobError::TimedOut),
                _ => JobState::Failed(JobError::OutOfTurn),
            },
            JobState::Downloading { token } => match event {
                JobEvent::DownloadStatus(status) => if is_success(status) {
                    JobState::Completed
                } else {
                    JobState::Failed(JobError::DownloadRefused)
                },
                JobEvent::DownloadFailed => JobState::Failed(JobError::DownloadFailed),
                _ => JobState::Failed(JobError::OutOfTurn),
            },
        }
    }

    /// What the caller is to do next for the job of `run_number`, which waits
    /// at most `patience` milliseconds for its result.
    pub fn action(&self, run_number: u32, config: &DataHandlerConfig, patience: u64) -> (action:
        JobAction)
        ensures
            is_action_of(action, *self, run_number, config.host@, config.port, patience),
    {
        match self {
            JobState::Start => {
                let mut url = url_to("http://", config);
                url.append("/");
                url.append(decimal_string(run_number as u64).as_str());
                JobAction::Probe { url }
            },
            JobState::Ready => {
                let mut url = url_to("ws://", config);
                url.append("/ws");
                JobAction::Connect { url }
            },
            JobState::Connected => JobAction::Send,
            JobState::AwaitingResult { waited } => {
                if *waited < patience {
                    JobAction::Receive { within: patience - *waited }
                } else {
                    JobAction::Receive { within: 0 }
                }
            },
            JobState::Downloading { token } => {
                let mut url = url_to("http://", config);
                url.append("/download/");
                url.append(token.as_str());
                JobAction::Download { url }
            },
            JobState::Completed => JobAction::Deliver,
            JobState::Failed(_) => JobAction::GiveUp,
        }
    }
}

/// What the data handler delivers for the library to read.
#[derive(Clone, Copy, Debug, PartialEq, Eq, Structural)]
pub enum Payload {
    SpillLog,
    SequencerCsv,
    FinalOdb,
}

/// Why something that the data handler delivered could not be read.
#[derive(Clone, Copy, Debug, PartialEq, Eq, Structural)]
pub enum ParseError {
    /// The spill log is no table of records.
    SpillLog,
    /// The sequencer CSV is no table of sequences.
    SequencerCsv,
    /// The final ODB holds no `{` at which its JSON could start.
    OdbStart,
    /// The final ODB is no JSON document.
    Odb,
}

impl ParseError {
    /// The payload that could not be read.
    pub open spec fn spec_payload(self) -> Payload {
        match self {
            ParseError::SpillLog => Payload::SpillLog,
            ParseError::SequencerCsv => Payload::SequencerCsv,
            ParseError::OdbStart => Payload::FinalOdb,
            ParseError::Odb => Payload::FinalOdb,
        }
    }

    /// The payload that could not be read.
    pub fn payload(&self) -> (payload: Payload)
        ensures
            payload == self.spec_payload(),
    {
        match self {
            ParseError::SpillLog => Payload::SpillLog,
            ParseError::SequencerCsv => Payload::SequencerCsv,
            ParseError::OdbStart => Payload::FinalOdb,
            ParseError::Odb => Payload::FinalOdb,
        }
    }

    /// The kind of this failure: always [`ErrorKind::Parse`], which no failure
    /// of a job has.
    pub fn kind(&self) -> (kind: ErrorKind)
        ensures
            kind == ErrorKind::Parse,
    {
        ErrorKind::Parse
    }

    /// What the failure says of itself.
    pub open spec fn spec_message(self) -> Seq<char> {
        match self {
            ParseError::SpillLog => "failed to parse spill log"@,
            ParseError::SequencerCsv => "failed to parse sequencer CSV"@,
            ParseError::OdbStart => "failed to find start of ODB JSON"@,
            ParseError::Odb => "failed to parse final ODB"@,
        }
    }

    /// What the failure says of itself.
    pub fn message(&self) -> (message: String)
        ensures
            message@ == self.spec_message(),
    {
        match self {
            ParseError::SpillLog => String::from_str("failed to parse spill log"),
            ParseError::SequencerCsv => String::from_str("failed to parse sequencer CSV"),
            ParseError::OdbStart => String::from_str("failed to find start of ODB JSON"),
            ParseError::Odb => String::from_str("failed to parse final ODB"),
        }
    }
}

/// What the body of the final ODB holds: the JSON document that starts at the
/// first `{` of the body. What stands before it is passed over.
pub open spec fn final_odb(body: Seq<char>) -> Result<Json, ParseError> {
    let start = first_index_of(body, '{');
    if 0 <= start < body.len() {
        match json_document(body.skip(start)) {
            Some(odb) => Ok(odb),
            None => Err(ParseError::Odb),
        }
    } else {
        Err(ParseError::OdbStart)
    }
}

/// Reads the final ODB from the body that the data handler delivered for it.
pub fn read_final_odb(body: &str) -> (odb: Result<Json, ParseError>)
    ensures
        odb == final_odb(body@),
{
    match find_char(body, '{') {
        Some(start) => {
            let json = body.substring_char(start, body.unicode_len());
            assert(json@ =~= body@.skip(start as int));
            match Json::parse(json) {
                Some(odb) => Ok(odb),
                None => Err(ParseError::Odb),
            }
        },
        None => Err(ParseError::OdbStart),
    }
}

/// The text that lists the headers of the sequences of a run: the headers in
/// their order, three line feeds between each two.
pub open spec fn sequencer_headers(headers: Seq<Seq<char>>) -> Seq<char> {
    joined(headers, "\n\n\n"@)
}

/// Why something could not be loaded from the data handler.
#[derive(Debug)]
pub enum LoadError {
    /// The job that was to fetch it failed.
    Job(JobError),
    /// The job has not ended, so there is nothing to read yet.
    Unfinished,
    /// What the job delivered could not be read.
    Parse(ParseError),
}

impl LoadError {
    /// The kind of this failure.
    pub open spec fn spec_kind(self) -> ErrorKind {
        match self {
            LoadError::Job(error) => error.spec_kind(),
            LoadError::Unfinished => ErrorKind::Protocol,
            LoadError::Parse(_) => ErrorKind::Parse,
        }
    }

    /// The kind of this failure.
    pub fn kind(&self) -> (kind: ErrorKind)
        ensures
            kind == self.spec_kind(),
    {
        match self {
            LoadError::Job(error) => error.kind(),
            LoadError::Unfinished => ErrorKind::Protocol,
            LoadError::Parse(_) => ErrorKind::Parse,
        }
    }

    /// What the failure of a load for `run_number` says of itself.
    pub open spec fn spec_message(self, run_number: u32) -> Seq<char> {
        match self {
            LoadError::Job(error) => error.spec_message(run_number),
            LoadError::Unfinished => "the job has not ended"@,
            LoadError::Parse(error) => error.spec_message(),
        }
    }

    /// What the failure of a load for `run_number` says of itself.
    pub fn message(&self, run_number: u32) -> (message: String)
        ensures
            message@ == self.spec_message(run_number),
    {
        match self {
            LoadError::Job(error) => error.message(run_number),
            LoadError::Unfinished => String::from_str("the job has not ended"),
            LoadError::Parse(error) => error.message(),
        }
    }
}

/// What a job leaves to be read: nothing but its failure where it failed,
/// nothing at all before it has ended.
pub open spec fn job_end(job: JobState) -> Result<(), LoadError> {
    match job {
        JobState::Completed => Ok(()),
        JobState::Failed(error) => Err(LoadError::Job(error)),
        _ => Err(LoadError::Unfinished),
    }
}

/// The final ODB that a job loads: what the body holds where the job is
/// completed, and the failure of the job, without a look at the body,
/// everywhere else.
pub open spec fn loaded_odb(job: JobState, body: Seq<char>) -> Result<Json, LoadError> {
    match job_end(job) {
        Ok(_) => match final_odb(body) {
            Ok(odb) => Ok(odb),
            Err(error) => Err(LoadError::Parse(error)),
        },
        Err(error) => Err(error),
    }
}

/// The sequencer headers that a job loads: the text that lists them where the
/// job is completed, and the failure of the job everywhere else.
pub open spec fn loaded_headers(job: JobState, headers: Seq<Seq<char>>) -> Result<
    Seq<char>,
    LoadError,
> {
    match job_end(job) {
        Ok(_) => Ok(sequencer_headers(headers)),
        Err(error) => Err(error),
    }
}

/// What a loaded text says.
pub open spec fn loaded_text(loaded: Result<String, LoadError>) -> Result<Seq<char>, LoadError> {
    match loaded {
        Ok(text) => Ok(text@),
        Err(error) => Err(error),
    }
}

/// Says what the end of a job leaves to be read.
pub fn finish(job: JobState) -> (end: Result<(), LoadError>)
    ensures
        end == job_end(job),
{
    match job {
        JobState::Completed => Ok(()),
        JobState::Failed(error) => Err(LoadError::Job(error)),
        _ => Err(LoadError::Unfinished),
    }
}

/// Loads the final ODB of a run: `job` is the state in which the job for it
/// ended, `body` what its download delivered. A job that failed loads
/// nothing, whatever `body` holds.
pub fn get_final_odb(job: JobState, body: &str) -> (odb: Result<Json, LoadError>)
    ensures
        odb == loaded_odb(job, body@),
{
    match finish(job) {
        Ok(_) => match read_final_odb(body) {
            Ok(odb) => Ok(odb),
            Err(error) => Err(LoadError::Parse(error)),
        },
        Err(error) => Err(error),
    }
}

/// Loads the text that lists the headers of the sequences of a run: `job` is
/// the state in which the job for them ended, `headers` what was read from
/// its download. A job that failed loads nothing.
pub fn get_sequencer_headers(job: JobState, headers: &Vec<String>) -> (text: Result<
    String,
    LoadError,
>)
    ensures
        loaded_text(text) == loaded_headers(job, headers.deep_view()),
{
    match finish(job) {
        Ok(_) => Ok(join(headers, "\n\n\n")),
        Err(error) => Err(error),
    }
}

/// A data handler that is not ready loads nothing: whatever is reported after
/// the probe and whatever lies about as a body or as headers, the load of the
/// final ODB and the load of the sequencer headers fail with
/// [`JobError::NotReady`], and there is no document and no text.
pub proof fn lemma_not_ready_loads_nothing(
    status: u16,
    later: Seq<JobEvent>,
    patience: u64,
    body: Seq<char>,
    headers: Seq<Seq<char>>,
)
    requires
        !spec_is_success(status),
    ensures
        loaded_odb(
            state_after(JobState::Start, seq![JobEvent::ProbeStatus(status)] + later, patience),
            body,
        ) == Err::<Json, LoadError>(LoadError::Job(JobError::NotReady)),
        loaded_headers(
            state_after(JobState::Start, seq![JobEvent::ProbeStatus(status)] + later, patience),
            headers,
        ) == Err::<Seq<char>, LoadError>(LoadError::Job(JobError::NotReady)),
{
    lemma_not_ready_ends_job(status, later, patience);
}

} // verus!
