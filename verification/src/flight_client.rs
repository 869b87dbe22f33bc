//! The receiving and the sending side of a flight stream: how connections are asked for and asked
//! for again, and which messages a sender keeps until they are acknowledged.

use std::collections::VecDeque;

use vstd::prelude::*;

use crate::error::ErrorCode;
use crate::text::concat;
use crate::text::decimal;
use crate::text::decimal_text;
use crate::text::quote;
use crate::text::quoted;
use crate::text::texts;
use crate::types::clone_bytes;

verus! {

/// What a message is about: a command, or a path, as its type says.
#[derive(Debug)]
pub struct FlightDescriptor {
    pub descriptor_type: i32,
    pub cmd: Vec<u8>,
    pub path: Vec<String>,
}

#[verifier::ext_equal]
pub struct DescriptorView {
    pub descriptor_type: i32,
    pub cmd: Seq<u8>,
    pub path: Seq<Seq<char>>,
}

impl View for FlightDescriptor {
    type V = DescriptorView;

    open spec fn view(&self) -> DescriptorView {
        DescriptorView { descriptor_type: self.descriptor_type, cmd: self.cmd@, path: texts(self.path@) }
    }
}

impl Clone for FlightDescriptor {
    fn clone(&self) -> (r: Self)
        ensures
            r@ == self@,
    {
        let mut path: Vec<String> = Vec::new();
        let mut i: usize = 0;
        while i < self.path.len()
            invariant
                i <= self.path.len(),
                path.len() == i,
                forall|j: int| 0 <= j < i ==> (#[trigger] path@[j])@ == self.path@[j]@,
            decreases self.path.len() - i,
        {
            path.push(self.path[i].clone());
            i += 1;
        }
        assert(texts(path@) =~= texts(self.path@));
        FlightDescriptor { descriptor_type: self.descriptor_type, cmd: clone_bytes(&self.cmd), path }
    }
}

pub open spec fn descriptor_view(d: Option<FlightDescriptor>) -> Option<DescriptorView> {
    match d {
        Some(d) => Some(d@),
        None => None,
    }
}

#[derive(Debug)]
pub struct FlightData {
    pub flight_descriptor: Option<FlightDescriptor>,
    pub data_header: Vec<u8>,
    pub data_body: Vec<u8>,
    pub app_metadata: Vec<u8>,
}

#[verifier::ext_equal]
pub struct FlightDataView {
    pub flight_descriptor: Option<DescriptorView>,
    pub data_header: Seq<u8>,
    pub data_body: Seq<u8>,
    pub app_metadata: Seq<u8>,
}

impl View for FlightData {
    type V = FlightDataView;

    open spec fn view(&self) -> FlightDataView {
        FlightDataView {
            flight_descriptor: descriptor_view(self.flight_descriptor),
            data_header: self.data_header@,
            data_body: self.data_body@,
            app_metadata: self.app_metadata@,
        }
    }
}

/// Why a stream failed.
#[derive(Debug)]
pub struct Status {
    pub code: u32,
    pub message: String,
}

pub struct StatusView {
    pub code: u32,
    pub message: Seq<char>,
}

impl View for Status {
    type V = StatusView;

    open spec fn view(&self) -> StatusView {
        StatusView { code: self.code, message: self.message@ }
    }
}

/// What a stream hands out.
pub open spec fn message_view(m: Result<FlightData, Status>) -> Result<FlightDataView, StatusView> {
    match m {
        Ok(data) => Ok(data@),
        Err(status) => Err(status@),
    }
}

fn duplicate_flight_data(flight_data: FlightData) -> (r: (FlightData, FlightData))
    ensures
        r.0@ == flight_data@,
        r.1@ == flight_data@,
{
    let flight_descriptor = match &flight_data.flight_descriptor {
        Some(d) => Some(d.clone()),
        None => None,
    };
    let copy = FlightData {
        flight_descriptor,
        data_header: clone_bytes(&flight_data.data_header),
        data_body: clone_bytes(&flight_data.data_body),
        app_metadata: clone_bytes(&flight_data.app_metadata),
    };
    (copy, flight_data)
}

/// What was learnt by asking a stream for its next message.
#[derive(Debug)]
pub enum Polled {
    Pending,
    Ready(Option<Result<FlightData, Status>>),
}

pub enum PolledView {
    Pending,
    Ready(Option<Result<FlightDataView, StatusView>>),
}

impl View for Polled {
    type V = PolledView;

    open spec fn view(&self) -> PolledView {
        match *self {
            Polled::Pending => PolledView::Pending,
            Polled::Ready(None) => PolledView::Ready(None),
            Polled::Ready(Some(m)) => PolledView::Ready(Some(message_view(m))),
        }
    }
}

/// A message that is not acknowledged yet, under its number.
pub struct Unconfirmed {
    pub id: usize,
    pub message: Result<FlightDataView, StatusView>,
}

pub open spec fn unconfirmed(queue: Seq<(usize, Result<FlightData, Status>)>) -> Seq<Unconfirmed> {
    Seq::new(queue.len(), |i: int| Unconfirmed { id: queue[i].0, message: message_view(queue[i].1) })
}

/// What is left of a queue when the messages up to `seq` are acknowledged.
pub open spec fn acknowledged(queue: Seq<Unconfirmed>, seq: usize) -> Seq<Unconfirmed>
    decreases queue.len(),
{
    if queue.len() > 0 && queue[0].id <= seq {
        acknowledged(queue.skip(1), seq)
    } else {
        queue
    }
}

/// What a sender knows of the messages it has handed out.
pub struct AckView {
    pub seq: usize,
    pub window_size: usize,
    pub may_retry: bool,
    pub queue: Seq<Unconfirmed>,
}

pub open spec fn next_seq(seq: usize) -> usize {
    if seq == usize::MAX {
        0
    } else {
        (seq + 1) as usize
    }
}

/// A message goes out and is kept; what falls out of the window counts as acknowledged.
pub open spec fn handed_out(state: AckView, message: Result<FlightDataView, StatusView>) -> AckView {
    let queue = if state.seq >= state.window_size {
        acknowledged(state.queue, (state.seq - state.window_size) as usize)
    } else {
        state.queue
    };
    AckView { seq: next_seq(state.seq), queue: queue.push(Unconfirmed { id: state.seq, message }), ..state }
}

/// The stream is at its end: all that was handed out counts as acknowledged.
pub open spec fn ended(state: AckView) -> AckView {
    AckView {
        seq: next_seq(state.seq),
        queue: acknowledged(state.queue, state.seq),
        may_retry: false,
        ..state
    }
}

pub open spec fn polled(state: AckView, event: PolledView) -> AckView {
    match event {
        PolledView::Pending => state,
        PolledView::Ready(None) => ended(state),
        PolledView::Ready(Some(message)) => handed_out(state, message),
    }
}

/// How many messages a window of that size holds: one at least, the last one.
pub open spec fn window(size: usize) -> int {
    if size == 0 {
        1
    } else {
        size as int
    }
}

/// The messages that are kept are the last ones, without a gap; before the end of the stream as
/// many as the window holds, or all there were.
pub open spec fn ack_state_ok(state: AckView) -> bool {
    &&& state.queue.len() <= state.seq
    &&& state.queue.len() <= window(state.window_size)
    &&& forall|i: int|
        0 <= i < state.queue.len() ==> (#[trigger] state.queue[i]).id == state.seq - state.queue.len() + i
    &&& state.may_retry ==> state.queue.len() == (if state.seq < window(state.window_size) {
        state.seq as int
    } else {
        window(state.window_size)
    })
}

/// The messages that a sender has handed out and may have to hand out again.
#[derive(Debug)]
pub struct FlightDataAckState {
    seq: usize,
    auto_ack_window_size: usize,
    may_retry: bool,
    confirmation_queue: VecDeque<(usize, Result<FlightData, Status>)>,
}

impl View for FlightDataAckState {
    type V = AckView;

    closed spec fn view(&self) -> AckView {
        AckView {
            seq: self.seq,
            window_size: self.auto_ack_window_size,
            may_retry: self.may_retry,
            queue: unconfirmed(self.confirmation_queue@),
        }
    }
}

impl FlightDataAckState {
    pub fn create(window_size: usize) -> (r: FlightDataAckState)
        ensures
            r@ == (AckView { seq: 0, window_size, may_retry: true, queue: Seq::empty() }),
            ack_state_ok(r@),
    {
        let r = FlightDataAckState {
            seq: 0,
            auto_ack_window_size: window_size,
            may_retry: true,
            confirmation_queue: VecDeque::new(),
        };
        assert(r@.queue =~= Seq::empty());
        r
    }

    /// Drops the messages up to `seq`, which count as acknowledged.
    pub fn ack_message(&mut self, seq: usize)
        ensures
            final(self)@ == (AckView { queue: acknowledged(old(self)@.queue, seq), ..old(self)@ }),
    {
        let ghost before = self@;
        let mut stop = false;
        while !stop && self.confirmation_queue.len() > 0
            invariant
                acknowledged(before.queue, seq) == acknowledged(self@.queue, seq),
                self@ == (AckView { queue: self@.queue, ..before }),
                stop ==> acknowledged(self@.queue, seq) == self@.queue,
            decreases self.confirmation_queue@.len(), (if stop {
                0int
            } else {
                1
            }),
        {
            let ghost queue = self@.queue;
            if self.confirmation_queue[0].0 <= seq {
                let _ = self.confirmation_queue.pop_front();
                assert(self@.queue =~= queue.skip(1));
            } else {
                stop = true;
            }
        }
        assert(acknowledged(self@.queue, seq) == self@.queue);
    }

    pub fn end_of_stream(&mut self) -> (r: Polled)
        ensures
            final(self)@ == ended(old(self)@),
            r@ == PolledView::Ready(None),
    {
        let message_seq: usize = self.seq;
        self.seq = self.seq.wrapping_add(1);
        self.ack_message(message_seq);
        self.may_retry = false;
        Polled::Ready(None)
    }

    pub fn error_of_stream(&mut self, cause: Status) -> (r: Polled)
        ensures
            final(self)@ == handed_out(old(self)@, Err(cause@)),
            r@ == PolledView::Ready(Some(Err(cause@))),
    {
        let message_seq: usize = self.seq;
        self.seq = self.seq.wrapping_add(1);
        // Automatically acknowledge messages outside the ACK window.
        if message_seq >= self.auto_ack_window_size {
            self.ack_message(message_seq - self.auto_ack_window_size);
        }
        let copy = Status { code: cause.code, message: cause.message.clone() };
        let ghost queue = self@.queue;
        self.confirmation_queue.push_back((message_seq, Err(copy)));
        assert(self@.queue =~= queue.push(Unconfirmed { id: message_seq, message: Err(cause@) }));
        Polled::Ready(Some(Err(cause)))
    }

    /// Hands out a message and keeps it.
    pub fn message(&mut self, data: FlightData) -> (r: Polled)
        ensures
            final(self)@ == handed_out(old(self)@, Ok(data@)),
            r@ == PolledView::Ready(Some(Ok(data@))),
    {
        let message_seq: usize = self.seq;
        self.seq = self.seq.wrapping_add(1);
        let ghost sent = data@;
        let (data, duplicate) = duplicate_flight_data(data);
        // Automatically acknowledge messages outside the ACK window.
        if message_seq >= self.auto_ack_window_size {
            self.ack_message(message_seq - self.auto_ack_window_size);
        }
        let ghost queue = self@.queue;
        self.confirmation_queue.push_back((message_seq, Ok(data)));
        assert(self@.queue =~= queue.push(Unconfirmed { id: message_seq, message: Ok(sent) }));
        Polled::Ready(Some(Ok(duplicate)))
    }

    /// Passes on what the stream gave, and keeps what may have to be given again.
    pub fn poll_next(&mut self, event: Polled) -> (r: Polled)
        ensures
            r@ == event@,
            final(self)@ == polled(old(self)@, event@),
    {
        match event {
            Polled::Pending => Polled::Pending,
            Polled::Ready(None) => self.end_of_stream(),
            Polled::Ready(Some(Err(status))) => self.error_of_stream(status),
            Polled::Ready(Some(Ok(flight_data))) => self.message(flight_data),
        }
    }
}

proof fn lemma_acknowledged(queue: Seq<Unconfirmed>, first: int, seq: usize)
    requires
        forall|i: int| 0 <= i < queue.len() ==> (#[trigger] queue[i]).id == first + i,
    ensures
        ({
            let n = if seq < first {
                0
            } else if seq - first + 1 < queue.len() {
                seq - first + 1
            } else {
                queue.len() as int
            };
            acknowledged(queue, seq) == queue.skip(n)
        }),
    decreases queue.len(),
{
    assert(queue.skip(0) =~= queue);
    if queue.len() > 0 && queue[0].id <= seq {
        let rest = queue.skip(1);
        assert forall|i: int| 0 <= i < rest.len() implies (#[trigger] rest[i]).id == first + 1 + i by {
            assert(rest[i] == queue[i + 1]);
        }
        lemma_acknowledged(rest, first + 1, seq);
        let n = if seq < first + 1 {
            0
        } else if seq - first < rest.len() {
            seq - first
        } else {
            rest.len() as int
        };
        assert(rest.skip(n) =~= queue.skip(n + 1));
    }
}

/// Whatever a stream gives, the sender keeps its last messages without a gap: as many as the
/// window holds, or all there were, until the stream is at its end.
pub proof fn last_messages_are_kept(state: AckView, event: PolledView)
    requires
        ack_state_ok(state),
        state.seq < usize::MAX,
    ensures
        ack_state_ok(polled(state, event)),
        event == PolledView::Ready(None) ==> polled(state, event).queue.len() == 0,
{
    let first = state.seq - state.queue.len();
    lemma_acknowledged(state.queue, first, state.seq);
    if state.seq >= state.window_size {
        lemma_acknowledged(state.queue, first, (state.seq - state.window_size) as usize);
    }
}

/// A sender that has handed out the first `n` messages and nothing else.
pub open spec fn after_messages(
    window_size: usize,
    messages: Seq<Result<FlightDataView, StatusView>>,
    n: nat,
) -> AckView
    decreases n,
{
    if n == 0 {
        AckView { seq: 0, window_size, may_retry: true, queue: Seq::empty() }
    } else {
        handed_out(after_messages(window_size, messages, (n - 1) as nat), messages[n - 1])
    }
}

/// Of any number of messages exactly the last ones stay unacknowledged, in order and under their
/// numbers: as many as the window holds, or all of them.
pub proof fn messages_outside_the_window_are_acknowledged(
    window_size: usize,
    messages: Seq<Result<FlightDataView, StatusView>>,
    n: nat,
)
    requires
        n <= messages.len(),
        n < usize::MAX,
    ensures
        ({
            let state = after_messages(window_size, messages, n);
            let kept = if n < window(window_size) {
                n as int
            } else {
                window(window_size)
            };
            &&& state.seq == n
            &&& state.window_size == window_size
            &&& state.may_retry
            &&& state.queue == Seq::new(
                kept as nat,
                |i: int| Unconfirmed { id: (n - kept + i) as usize, message: messages[n - kept + i] },
            )
        }),
    decreases n,
{
    let state = after_messages(window_size, messages, n);
    if n > 0 {
        let m = (n - 1) as nat;
        messages_outside_the_window_are_acknowledged(window_size, messages, m);
        let before = after_messages(window_size, messages, m);
        let first = m - before.queue.len();
        if before.seq >= window_size {
            lemma_acknowledged(before.queue, first, (before.seq - window_size) as usize);
        }
    }
    let kept = if n < window(window_size) {
        n as int
    } else {
        window(window_size)
    };
    assert(state.queue =~= Seq::new(
        kept as nat,
        |i: int| Unconfirmed { id: (n - kept + i) as usize, message: messages[n - kept + i] },
    ));
}

/// How a connection was made, and how it is made again.
#[derive(Debug)]
pub struct ConnectionInfo {
    pub query_id: String,
    pub target: String,
    pub fragment: Option<usize>,
    pub source_address: String,
    pub retry_times: usize,
    /// In seconds.
    pub retry_interval: u64,
}

pub struct ConnectionView {
    pub query_id: Seq<char>,
    pub target: Seq<char>,
    pub fragment: Option<usize>,
    pub source_address: Seq<char>,
    pub retry_times: usize,
    pub retry_interval: u64,
}

impl View for ConnectionInfo {
    type V = ConnectionView;

    open spec fn view(&self) -> ConnectionView {
        ConnectionView {
            query_id: self.query_id@,
            target: self.target@,
            fragment: self.fragment,
            source_address: self.source_address@,
            retry_times: self.retry_times,
            retry_interval: self.retry_interval,
        }
    }
}

impl Clone for ConnectionInfo {
    fn clone(&self) -> (r: Self)
        ensures
            r@ == self@,
    {
        ConnectionInfo {
            query_id: self.query_id.clone(),
            target: self.target.clone(),
            fragment: self.fragment,
            source_address: self.source_address.clone(),
            retry_times: self.retry_times,
            retry_interval: self.retry_interval,
        }
    }
}

/// What accompanies a request.
#[derive(Debug)]
pub struct Metadata {
    pub entries: Vec<(String, String)>,
}

impl View for Metadata {
    type V = Seq<(Seq<char>, Seq<char>)>;

    open spec fn view(&self) -> Seq<(Seq<char>, Seq<char>)> {
        Seq::new(self.entries@.len(), |i: int| (self.entries@[i].0@, self.entries@[i].1@))
    }
}

impl Metadata {
    pub fn new() -> (r: Metadata)
        ensures
            r@ == Seq::<(Seq<char>, Seq<char>)>::empty(),
    {
        let r = Metadata { entries: Vec::new() };
        assert(r@ =~= Seq::empty());
        r
    }

    pub fn with(self, key: &str, value: &str) -> (r: Metadata)
        ensures
            r@ == self@.push((key@, value@)),
    {
        let ghost before = self@;
        let mut r = self;
        r.entries.push((key.to_owned(), value.to_owned()));
        assert(r@ =~= before.push((key@, value@)));
        r
    }
}

/// What accompanies the request for the messages of a connection from `seq` on.
pub open spec fn connection_metadata(info: ConnectionView, seq: nat) -> Seq<(Seq<char>, Seq<char>)> {
    match info.fragment {
        Some(fragment) => seq![
            ("x-type"@, "exchange_fragment"@),
            ("x-target"@, info.target),
            ("x-query-id"@, info.query_id),
            ("x-fragment-id"@, decimal(fragment as nat)),
            ("x-continue-from"@, decimal(seq)),
        ],
        None => seq![
            ("x-type"@, "request_server_exchange"@),
            ("x-target"@, info.target),
            ("x-query-id"@, info.query_id),
            ("x-continue-from"@, decimal(seq)),
        ],
    }
}

/// What accompanies the request for the messages of a connection from `seq` on.
pub fn reconnect(info: &ConnectionInfo, seq: usize) -> (r: Metadata)
    ensures
        r@ == connection_metadata(info@, seq as nat),
{
    let from = decimal_text(seq as u64);
    match info.fragment {
        Some(fragment_id) => {
            let fragment = decimal_text(fragment_id as u64);
            let r = Metadata::new()
                .with("x-type", "exchange_fragment")
                .with("x-target", info.target.as_str())
                .with("x-query-id", info.query_id.as_str())
                .with("x-fragment-id", fragment.as_str())
                .with("x-continue-from", from.as_str());
            assert(r@ =~= connection_metadata(info@, seq as nat));
            r
        },
        None => {
            let r = Metadata::new()
                .with("x-type", "request_server_exchange")
                .with("x-target", info.target.as_str())
                .with("x-query-id", info.query_id.as_str())
                .with("x-continue-from", from.as_str());
            assert(r@ =~= connection_metadata(info@, seq as nat));
            r
        },
    }
}

/// The request for the statistics of a query, and the connection that it makes.
pub fn request_server_exchange(
    query_id: &str,
    target: &str,
    source_address: &str,
    retry_times: usize,
    retry_interval: usize,
) -> (r: (Metadata, ConnectionInfo))
    ensures
        r.0@ == connection_metadata(r.1@, 0),
        r.1@ == (ConnectionView {
            query_id: query_id@,
            target: target@,
            fragment: None,
            source_address: source_address@,
            retry_times,
            retry_interval: retry_interval as u64,
        }),
{
    let info = ConnectionInfo {
        query_id: query_id.to_owned(),
        target: target.to_owned(),
        fragment: None,
        source_address: source_address.to_owned(),
        retry_times,
        retry_interval: retry_interval as u64,
    };
    (reconnect(&info, 0), info)
}

/// The request for the data of a fragment, and the connection that it makes.
pub fn do_get(
    query_id: &str,
    target: &str,
    fragment: usize,
    source_address: &str,
    retry_times: usize,
    retry_interval: usize,
) -> (r: (Metadata, ConnectionInfo))
    ensures
        r.0@ == connection_metadata(r.1@, 0),
        r.1@ == (ConnectionView {
            query_id: query_id@,
            target: target@,
            fragment: Some(fragment),
            source_address: source_address@,
            retry_times,
            retry_interval: retry_interval as u64,
        }),
{
    let info = ConnectionInfo {
        query_id: query_id.to_owned(),
        target: target.to_owned(),
        fragment: Some(fragment),
        source_address: source_address.to_owned(),
        retry_times,
        retry_interval: retry_interval as u64,
    };
    (reconnect(&info, 0), info)
}

/// What a request for an action came to: the body of the answer, or that there was none.
pub fn action_response(path: &str, response: Option<Vec<u8>>) -> (r: Result<Vec<u8>, ErrorCode>)
    ensures
        match response {
            Some(body) => r == Ok::<Vec<u8>, ErrorCode>(body),
            None => r matches Err(ErrorCode::EmptyDataFromServer(m)) && m@
                == "Can not receive data from flight server, action: "@ + quoted(path@),
        },
{
    match response {
        Some(body) => Ok(body),
        None => {
            let shown = quote(path);
            Err(empty_response(shown.as_str()))
        },
    }
}

/// That an action, given in quotes, was not answered.
pub fn empty_response(shown_path: &str) -> (r: ErrorCode)
    ensures
        r matches ErrorCode::EmptyDataFromServer(m) && m@
            == "Can not receive data from flight server, action: "@ + shown_path@,
{
    let m = concat("Can not receive data from flight server, action: ", shown_path, "", "");
    proof {
        reveal_strlit("");
        assert(m@ =~= "Can not receive data from flight server, action: "@ + shown_path@);
    }
    ErrorCode::EmptyDataFromServer(m)
}

/// That what an action is asked with cannot be written down.
pub fn request_payload_error(path: &str, cause: &str) -> (r: ErrorCode)
    ensures
        r matches ErrorCode::BadArguments(m) && m@ == "Request payload serialize error while in "@ + quoted(path@)
            + ", cause: "@ + cause@,
{
    let shown = quote(path);
    ErrorCode::BadArguments(
        concat("Request payload serialize error while in ", shown.as_str(), ", cause: ", cause),
    )
}

/// That the answer to an action cannot be read.
pub fn response_payload_error(path: &str, cause: &str) -> (r: ErrorCode)
    ensures
        r matches ErrorCode::BadBytes(m) && m@ == "Response payload deserialize error while in "@ + quoted(path@)
            + ", cause: "@ + cause@,
{
    let shown = quote(path);
    ErrorCode::BadBytes(
        concat("Response payload deserialize error while in ", shown.as_str(), ", cause: ", cause),
    )
}

/// What happened to a stream whose messages are passed on.
#[derive(Debug)]
pub enum StreamEvent {
    /// The receiver wants no more.
    Notified,
    Ended,
    Message(FlightData),
    Failed(Status),
    /// The message that was sent last has no receiver.
    SendFailed,
    Sent,
}

/// What is done next with a stream whose messages are passed on.
#[derive(Debug)]
pub enum StreamAction {
    /// Send a message, then wait for the next.
    Send(FlightData),
    /// Send the failure, then stop.
    SendAndStop(Status),
    Wait,
    Stop,
}

/// How the messages of a stream are passed on until it ends, fails, or no one wants more.
pub fn streaming_receiver(event: StreamEvent) -> (r: StreamAction)
    ensures
        match event {
            StreamEvent::Notified => r == StreamAction::Stop,
            StreamEvent::Ended => r == StreamAction::Stop,
            StreamEvent::Message(m) => r == StreamAction::Send(m),
            StreamEvent::Failed(status) => r == StreamAction::SendAndStop(status),
            StreamEvent::SendFailed => r == StreamAction::Stop,
            StreamEvent::Sent => r == StreamAction::Wait,
        },
{
    match event {
        StreamEvent::Notified => StreamAction::Stop,
        StreamEvent::Ended => StreamAction::Stop,
        StreamEvent::Message(m) => StreamAction::Send(m),
        StreamEvent::Failed(status) => StreamAction::SendAndStop(status),
        StreamEvent::SendFailed => StreamAction::Stop,
        StreamEvent::Sent => StreamAction::Wait,
    }
}

/// What sending came to.
pub fn send_result(delivered: bool) -> (r: Result<(), ErrorCode>)
    ensures
        delivered ==> r is Ok,
        !delivered ==> (r matches Err(ErrorCode::AbortedQuery(m)) && m@
            == "Aborted query, because the remote flight channel is closed."@),
{
    if delivered {
        Ok(())
    } else {
        Err(ErrorCode::AbortedQuery("Aborted query, because the remote flight channel is closed.".to_owned()))
    }
}

/// Where a receiver that retries stands.
#[derive(Debug)]
pub enum RetryPhase {
    /// It waits for a message.
    Receiving,
    /// It waits for a client to the source.
    Connecting,
    /// It has tried that many times in vain, and tries again.
    Reconnecting(usize),
    /// It pauses after that many attempts in vain.
    Sleeping(usize),
    Done,
}

/// What a receiver that retries is told.
#[derive(Debug)]
pub enum RecvEvent<P> {
    /// The next message, or the end of the stream.
    Received(Option<P>),
    Failed(ErrorCode),
    Connected,
    ConnectFailed(ErrorCode),
    Reconnected,
    ReconnectFailed,
    Slept,
}

/// What a receiver that retries does next.
#[derive(Debug)]
pub enum RecvAction<P> {
    /// Wait for a message.
    Receive,
    /// Make a client to this address.
    Connect(String),
    /// Ask for the messages from where it stopped, with this.
    Reconnect(Metadata),
    /// Put the new connection in the place of the broken one and close that, then wait for a
    /// message.
    Replace,
    /// Wait that many seconds.
    Sleep(u64),
    Return(Result<Option<P>, ErrorCode>),
    /// The event does not fit.
    Unexpected,
}

/// A receiver that connects again when the network fails.
#[derive(Debug)]
pub struct RetryableFlightReceiver {
    pub seq: usize,
    pub info: Option<ConnectionInfo>,
    pub phase: RetryPhase,
}

/// The next attempt to connect again, or that there were too many.
pub open spec fn attempt_ok<P>(info: ConnectionView, seq: usize, attempts: usize, phase: RetryPhase, action: RecvAction<P>) -> bool {
    if attempts < info.retry_times {
        phase == RetryPhase::Reconnecting(attempts) && (action matches RecvAction::Reconnect(m) && m@
            == connection_metadata(info, seq as nat))
    } else {
        phase == RetryPhase::Done && (action matches RecvAction::Return(Err(ErrorCode::Timeout(m))) && m@
            == "Exceed max retries time"@)
    }
}

/// The receiver after an event, and what it does next.
pub open spec fn receiver_steps<P>(
    before: RetryableFlightReceiver,
    event: RecvEvent<P>,
    after: RetryableFlightReceiver,
    action: RecvAction<P>,
) -> bool {
    &&& after.info == before.info
    &&& match (before.phase, event) {
        (RetryPhase::Receiving, RecvEvent::Received(m)) => {
            &&& after.seq == next_seq(before.seq)
            &&& after.phase == RetryPhase::Done
            &&& action == RecvAction::Return(Ok::<Option<P>, ErrorCode>(m))
        },
        (RetryPhase::Receiving, RecvEvent::Failed(cause)) => {
            &&& after.seq == before.seq
            // only retry when error is network problem
            &&& if cause is CannotConnectNode {
                match before.info {
                    Some(info) => after.phase == RetryPhase::Connecting && (action matches RecvAction::Connect(a)
                        && a@ == info.source_address@),
                    None => after.phase == RetryPhase::Receiving && action == RecvAction::<P>::Receive,
                }
            } else {
                after.phase == RetryPhase::Done && action == RecvAction::Return(Err::<Option<P>, ErrorCode>(cause))
            }
        },
        (RetryPhase::Connecting, RecvEvent::ConnectFailed(cause)) => {
            &&& after.seq == before.seq
            &&& after.phase == RetryPhase::Done
            &&& action == RecvAction::Return(Err::<Option<P>, ErrorCode>(cause))
        },
        (RetryPhase::Connecting, RecvEvent::Connected) => {
            &&& after.seq == before.seq
            &&& before.info matches Some(info) ==> attempt_ok(info@, before.seq, 0, after.phase, action)
        },
        (RetryPhase::Reconnecting(_), RecvEvent::Reconnected) => {
            &&& after.seq == before.seq
            &&& after.phase == RetryPhase::Receiving
            &&& action == RecvAction::<P>::Replace
        },
        (RetryPhase::Reconnecting(attempts), RecvEvent::ReconnectFailed) => {
            &&& after.seq == before.seq
            &&& after.phase == RetryPhase::Sleeping(attempts)
            &&& before.info matches Some(info) ==> action == RecvAction::<P>::Sleep(info.retry_interval)
        },
        (RetryPhase::Sleeping(attempts), RecvEvent::Slept) => {
            &&& after.seq == before.seq
            &&& before.info matches Some(info) ==> attempt_ok(
                info@,
                before.seq,
                (attempts + 1) as usize,
                after.phase,
                action,
            )
        },
        _ => after == before && action == RecvAction::<P>::Unexpected,
    }
}

/// What a receiver that retries may be in.
pub open spec fn receiver_ok(r: RetryableFlightReceiver) -> bool {
    match r.phase {
        RetryPhase::Receiving => true,
        RetryPhase::Done => true,
        RetryPhase::Connecting => r.info is Some,
        RetryPhase::Reconnecting(n) => r.info matches Some(info) && n < info.retry_times,
        RetryPhase::Sleeping(n) => r.info matches Some(info) && n < info.retry_times,
    }
}

impl RetryableFlightReceiver {
    pub fn dummy() -> (r: RetryableFlightReceiver)
        ensures
            r == (RetryableFlightReceiver { seq: 0, info: None, phase: RetryPhase::Receiving }),
            receiver_ok(r),
    {
        RetryableFlightReceiver { seq: 0, info: None, phase: RetryPhase::Receiving }
    }

    /// The next attempt to connect again.
    fn retry<P>(&mut self, attempts: usize) -> (r: RecvAction<P>)
        requires
            old(self).info is Some,
        ensures
            final(self).info == old(self).info,
            final(self).seq == old(self).seq,
            receiver_ok(*final(self)),
            old(self).info matches Some(info) && attempt_ok(info@, old(self).seq, attempts, final(self).phase, r),
    {
        match &self.info {
            Some(info) => if attempts < info.retry_times {
                let metadata = reconnect(info, self.seq);
                self.phase = RetryPhase::Reconnecting(attempts);
                RecvAction::Reconnect(metadata)
            } else {
                self.phase = RetryPhase::Done;
                RecvAction::Return(Err(ErrorCode::Timeout("Exceed max retries time".to_owned())))
            },
            None => RecvAction::Unexpected,
        }
    }

    /// What is done next to receive a message.
    pub fn recv<P>(&mut self, event: RecvEvent<P>) -> (r: RecvAction<P>)
        requires
            receiver_ok(*old(self)),
        ensures
            receiver_ok(*final(self)),
            receiver_steps(*old(self), event, *final(self), r),
    {
        match (&self.phase, event) {
            (RetryPhase::Receiving, RecvEvent::Received(message)) => {
                self.seq = self.seq.wrapping_add(1);
                self.phase = RetryPhase::Done;
                RecvAction::Return(Ok(message))
            },
            (RetryPhase::Receiving, RecvEvent::Failed(cause)) => {
                if matches!(cause, ErrorCode::CannotConnectNode(_)) {
                    match &self.info {
                        Some(info) => {
                            let address = info.source_address.clone();
                            self.phase = RetryPhase::Connecting;
                            RecvAction::Connect(address)
                        },
                        None => RecvAction::Receive,
                    }
                } else {
                    self.phase = RetryPhase::Done;
                    RecvAction::Return(Err(cause))
                }
            },
            (RetryPhase::Connecting, RecvEvent::ConnectFailed(cause)) => {
                self.phase = RetryPhase::Done;
                RecvAction::Return(Err(cause))
            },
            (RetryPhase::Connecting, RecvEvent::Connected) => self.retry(0),
            (RetryPhase::Reconnecting(_), RecvEvent::Reconnected) => {
                self.phase = RetryPhase::Receiving;
                RecvAction::Replace
            },
            (RetryPhase::Reconnecting(attempts), RecvEvent::ReconnectFailed) => {
                let attempts: usize = *attempts;
                match &self.info {
                    Some(info) => {
                        let interval: u64 = info.retry_interval;
                        self.phase = RetryPhase::Sleeping(attempts);
                        RecvAction::Sleep(interval)
                    },
                    None => RecvAction::Unexpected,
                }
            },
            (RetryPhase::Sleeping(attempts), RecvEvent::Slept) => {
                let attempts: usize = *attempts;
                self.retry(attempts + 1)
            },
            _ => RecvAction::Unexpected,
        }
    }
}

/// One end of a connection; `T` is the state that a sender shares with its stream, `S` what it
/// sends through, and `R` what a receiver receives from.
#[derive(Debug)]
pub enum FlightExchange<T, S, R> {
    Dummy,
    Sender(SenderPayload<T, S>),
    Receiver(ReceiverPayload<R>),
    MovedSender(SenderPayload<T, S>),
    MovedReceiver(ReceiverPayload<R>),
}

#[derive(Debug)]
pub struct SenderPayload<T, S> {
    pub state: T,
    pub sender: Option<S>,
}

#[derive(Debug)]
pub struct ReceiverPayload<R> {
    pub info: Option<ConnectionInfo>,
    pub inner: R,
}

#[derive(Debug)]
pub struct FlightSender<S> {
    pub tx: S,
}

impl<S> FlightSender<S> {
    pub fn create(tx: S) -> (r: FlightSender<S>)
        ensures
            r.tx == tx,
    {
        FlightSender { tx }
    }
}

impl<T, S, R: Clone> FlightExchange<T, S, R> {
    pub fn create_sender(state: T, sender: S) -> (r: FlightExchange<T, S, R>)
        ensures
            r == FlightExchange::<T, S, R>::Sender(SenderPayload { state, sender: Some(sender) }),
    {
        FlightExchange::Sender(SenderPayload { state, sender: Some(sender) })
    }

    pub fn create_receiver(inner: R, connection_info: Option<ConnectionInfo>) -> (r: FlightExchange<T, S, R>)
        ensures
            r == FlightExchange::<T, S, R>::Receiver(ReceiverPayload { info: connection_info, inner }),
    {
        FlightExchange::Receiver(ReceiverPayload { info: connection_info, inner })
    }

    /// Takes what is sent through out of a sender, once.
    pub fn take_as_sender(&mut self) -> (r: FlightSender<S>)
        requires
            *old(self) matches FlightExchange::Sender(v) && v.sender is Some,
        ensures
            *old(self) matches FlightExchange::Sender(v) && v.sender == Some(r.tx) && *final(self)
                == FlightExchange::<T, S, R>::MovedSender(SenderPayload { state: v.state, sender: None }),
    {
        let mut flight_sender = FlightExchange::Dummy;
        std::mem::swap(self, &mut flight_sender);
        match flight_sender {
            FlightExchange::Sender(v) => {
                let SenderPayload { state, sender } = v;
                *self = FlightExchange::MovedSender(SenderPayload { state, sender: None });
                FlightSender::create(sender.unwrap())
            },
            _ => {
                proof {
                    assert(false);
                }
                vstd::pervasive::unreached()
            },
        }
    }

    /// What a receiver receives from, and its connection; the receiver keeps both, once.
    pub fn take_as_receiver(&mut self) -> (r: (Option<ConnectionInfo>, R))
        requires
            *old(self) is Receiver,
        ensures
            *old(self) matches FlightExchange::Receiver(v) && {
                &&& *final(self) == FlightExchange::<T, S, R>::MovedReceiver(v)
                &&& cloned(v.inner, r.1)
                &&& match v.info {
                    Some(info) => r.0 matches Some(copy) && copy@ == info@,
                    None => r.0 is None,
                }
            },
    {
        let mut flight_receiver = FlightExchange::Dummy;
        std::mem::swap(self, &mut flight_receiver);
        match flight_receiver {
            FlightExchange::Receiver(v) => {
                let info = match &v.info {
                    Some(info) => Some(info.clone()),
                    None => None,
                };
                let inner = v.inner.clone();
                *self = FlightExchange::MovedReceiver(v);
                (info, inner)
            },
            _ => {
                proof {
                    assert(false);
                }
                vstd::pervasive::unreached()
            },
        }
    }
}

/// Messages that are acknowledged are those up to a number, and the later ones stay as they are.
pub proof fn later_messages_stay(queue: Seq<Unconfirmed>, seq: usize)
    requires
        forall|i: int, j: int| #![trigger queue[i], queue[j]] 0 <= i < j < queue.len() ==> queue[i].id < queue[j].id,
    ensures
        acknowledged(queue, seq) == queue.filter(|u: Unconfirmed| u.id > seq),
    decreases queue.len(),
{
    let later = |u: Unconfirmed| u.id > seq;
    if queue.len() > 0 && queue[0].id <= seq {
        let rest = queue.skip(1);
        assert forall|i: int, j: int| #![trigger rest[i], rest[j]] 0 <= i < j < rest.len() implies rest[i].id < rest[j].id by {
            assert(queue[i + 1].id < queue[j + 1].id);
        }
        later_messages_stay(rest, seq);
        assert(queue =~= seq![queue[0]] + rest);
        Seq::filter_distributes_over_add(seq![queue[0]], rest, later);
        reveal(Seq::filter);
        assert(!later(queue[0]));
        let one = seq![queue[0]];
        assert(one.drop_last() =~= Seq::<Unconfirmed>::empty());
        assert(one.last() == queue[0]);
        assert(one.drop_last().filter(later) =~= Seq::<Unconfirmed>::empty());
        assert(seq![queue[0]].filter(later) =~= Seq::<Unconfirmed>::empty());
        assert(queue.filter(later) =~= rest.filter(later));
    } else {
        assert forall|i: int| 0 <= i < queue.len() implies later(#[trigger] queue[i]) by {
            if i > 0 {
                assert(queue[0].id < queue[i].id);
            }
        }
        lemma_all_pass(queue, later);
    }
}

proof fn lemma_all_pass(queue: Seq<Unconfirmed>, later: spec_fn(Unconfirmed) -> bool)
    requires
        forall|i: int| 0 <= i < queue.len() ==> later(#[trigger] queue[i]),
    ensures
        queue.filter(later) == queue,
    decreases queue.len(),
{
    reveal(Seq::filter);
    if queue.len() > 0 {
        let before = queue.drop_last();
        assert forall|i: int| 0 <= i < before.len() implies later(#[trigger] before[i]) by {
            assert(later(queue[i]));
        }
        lemma_all_pass(before, later);
        assert(later(queue[queue.len() - 1]));
        assert(before.push(queue.last()) =~= queue);
    }
}

/// A message that is given out is kept under its number until it is outside the window; the next
/// one has the next number. The end of a stream is the last that is given out, and nothing can be
/// asked for again then.
pub proof fn messages_are_numbered(state: AckView, message: Result<FlightDataView, StatusView>)
    requires
        state.seq < usize::MAX,
    ensures
        ({
            let after = polled(state, PolledView::Ready(Some(message)));
            &&& after.seq == state.seq + 1
            &&& after.queue.len() > 0
            &&& after.queue.last() == (Unconfirmed { id: state.seq, message })
            &&& after.may_retry == state.may_retry
            &&& after.window_size == state.window_size
        }),
        polled(state, PolledView::Pending) == state,
        polled(state, PolledView::Ready(None)).seq == state.seq + 1,
        !polled(state, PolledView::Ready(None)).may_retry,
        window(state.window_size) == if state.window_size == 0 {
            1
        } else {
            state.window_size as int
        },
{
}

/// A receiver counts the messages that it hands on. Only a network that fails makes it connect
/// again, to the node that the messages come from, and only where it knows that node; any other
/// failure is handed on at once.
pub proof fn only_network_failures_are_retried<P>(
    before: RetryableFlightReceiver,
    event: RecvEvent<P>,
    after: RetryableFlightReceiver,
    action: RecvAction<P>,
)
    requires
        receiver_steps(before, event, after, action),
        before.phase is Receiving,
    ensures
        after.info == before.info,
        event matches RecvEvent::Received(m) ==> action == RecvAction::Return(Ok::<Option<P>, ErrorCode>(m)) && (before.seq
            < usize::MAX ==> after.seq == before.seq + 1),
        !(event is Received) ==> after.seq == before.seq,
        event matches RecvEvent::Failed(cause) ==> {
            &&& !(cause is CannotConnectNode) ==> action == RecvAction::Return(Err::<Option<P>, ErrorCode>(cause))
            &&& cause is CannotConnectNode && before.info is Some ==> after.phase is Connecting && (
            action matches RecvAction::Connect(address) && address@ == before.info->0.source_address@)
            &&& cause is CannotConnectNode && before.info is None ==> action is Receive && after.phase is Receiving
        },
{
}

/// A connection that was lost is asked for again from the message on that comes next, as often as
/// the connection allows and no more; between two times the receiver sleeps for the interval of the
/// connection. A connection that is there again is received from.
pub proof fn a_connection_is_retried_so_often<P>(
    before: RetryableFlightReceiver,
    event: RecvEvent<P>,
    after: RetryableFlightReceiver,
    action: RecvAction<P>,
    info: ConnectionInfo,
)
    requires
        receiver_ok(before),
        receiver_steps(before, event, after, action),
        before.info == Some(info),
    ensures
        after.seq == before.seq || before.phase is Receiving,
        ({
            let tried = match (before.phase, event) {
                (RetryPhase::Connecting, RecvEvent::Connected) => Some(0int),
                (RetryPhase::Sleeping(n), RecvEvent::Slept) => Some(n + 1),
                _ => None,
            };
            tried matches Some(n) ==> if n < info.retry_times {
                after.phase == RetryPhase::Reconnecting(n as usize) && (action matches RecvAction::Reconnect(m) && m@
                    == connection_metadata(info@, before.seq as nat))
            } else {
                after.phase is Done && (action matches RecvAction::Return(Err(e)) && e is Timeout)
            }
        }),
        before.phase matches RetryPhase::Reconnecting(n) ==> {
            &&& event is Reconnected ==> after.phase is Receiving && action is Replace
            &&& event is ReconnectFailed ==> after.phase == RetryPhase::Sleeping(n) && action == RecvAction::<P>::Sleep(
                info.retry_interval,
            )
        },
        before.phase is Connecting ==> (event matches RecvEvent::ConnectFailed(cause) ==> action == RecvAction::Return(
            Err::<Option<P>, ErrorCode>(cause),
        )),
{
}

}
