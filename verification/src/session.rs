//! One supervised process as the notification boundary sees it.
//!
//! Two streamers and a watcher work on one process, each at its own pace. This
//! module orders what they send into one sequence and states what holds of it.

use vstd::prelude::*;
use vstd::string::*;
use crate::streamer::{
    complete_lines, lemma_split_continues, lemma_texts_concat, state_after, texts_on,
    unfinished, written_lines, OutputLine, ReadEvent, StreamKind, StreamerState,
};
use crate::watcher::{
    action_on, ends_watch, probe_for, reported_after, Probe, WaitOutcome, WatchAction,
};

verus! {

/// What is sent to the user interface.
#[derive(Debug)]
pub enum Notification {
    /// A line of output.
    Output(OutputLine),
    /// The process is over.
    Finished,
}

/// The name of the event that carries output lines.
pub open spec fn output_event() -> Seq<char> {
    "output"@
}

/// The name of the event that says that the process is over.
pub open spec fn finished_event() -> Seq<char> {
    "finished"@
}

/// The name of `stream` in the payload of an output event.
pub open spec fn stream_name(stream: StreamKind) -> Seq<char> {
    match stream {
        StreamKind::Stdout => "stdout"@,
        StreamKind::Stderr => "stderr"@,
    }
}

impl StreamKind {
    /// The name of the stream in the payload of an output event.
    pub fn name(&self) -> (name: &'static str)
        ensures
            name@ == stream_name(*self),
    {
        match self {
            StreamKind::Stdout => "stdout",
            StreamKind::Stderr => "stderr",
        }
    }
}

impl Notification {
    /// The name of the event that carries this notification.
    pub fn event_name(&self) -> (name: &'static str)
        ensures
            name@ == match self {
                Notification::Output(_) => output_event(),
                Notification::Finished => finished_event(),
            },
    {
        match self {
            Notification::Output(_) => "output",
            Notification::Finished => "finished",
        }
    }
}

/// A notification as contracts see it.
pub enum Notice {
    Line(StreamKind, Seq<char>),
    Finished,
}

/// One thing that happens to a launched process and its three tasks.
pub enum TaskEvent {
    /// The streamer of `stream` has read.
    Read { stream: StreamKind, event: ReadEvent },
    /// The watcher has looked; of the process the operating system would
    /// say `status`. A look that ends the watch takes the process out of the
    /// slot in the same step.
    Look { status: WaitOutcome },
    /// The process has left the slot: it was stopped, or another process
    /// was launched.
    Vacate,
}

/// The state of a launched process and its three tasks.
pub struct SessionState {
    pub stdout: StreamerState,
    pub stderr: StreamerState,
    /// Whether the slot still holds the process.
    pub in_slot: bool,
    /// Whether the watcher has sent the completion signal.
    pub reported: bool,
}

/// The state right after the launch.
pub open spec fn launched() -> SessionState {
    SessionState {
        stdout: StreamerState { stream: StreamKind::Stdout, pending: Seq::empty(), open: true },
        stderr: StreamerState { stream: StreamKind::Stderr, pending: Seq::empty(), open: true },
        in_slot: true,
        reported: false,
    }
}

/// What a look shows in `state` where the operating system would say
/// `status` of the process.
pub open spec fn probe_in(state: SessionState, status: WaitOutcome) -> Probe {
    if state.in_slot {
        probe_for(Some(status))
    } else {
        probe_for(None)
    }
}

/// Each text of `texts` as a line notice of `stream`.
pub open spec fn line_notices(stream: StreamKind, texts: Seq<Seq<char>>) -> Seq<Notice> {
    Seq::new(texts.len(), |i: int| Notice::Line(stream, texts[i]))
}

/// What is sent on `event` in `state`.
pub open spec fn notices_on(state: SessionState, event: TaskEvent) -> Seq<Notice> {
    match event {
        TaskEvent::Read { stream: StreamKind::Stdout, event } => line_notices(
            StreamKind::Stdout,
            texts_on(state.stdout, event),
        ),
        TaskEvent::Read { stream: StreamKind::Stderr, event } => line_notices(
            StreamKind::Stderr,
            texts_on(state.stderr, event),
        ),
        TaskEvent::Look { status } => if action_on(state.reported, probe_in(state, status))
            == WatchAction::Report {
            seq![Notice::Finished]
        } else {
            Seq::empty()
        },
        TaskEvent::Vacate => Seq::empty(),
    }
}

/// The state after `event`.
pub open spec fn session_after(state: SessionState, event: TaskEvent) -> SessionState {
    match event {
        TaskEvent::Read { stream: StreamKind::Stdout, event } => SessionState {
            stdout: state_after(state.stdout, event),
            ..state
        },
        TaskEvent::Read { stream: StreamKind::Stderr, event } => SessionState {
            stderr: state_after(state.stderr, event),
            ..state
        },
        TaskEvent::Look { status } => SessionState {
            reported: reported_after(state.reported, probe_in(state, status)),
            in_slot: state.in_slot && action_on(state.reported, probe_in(state, status))
                != WatchAction::Report,
            ..state
        },
        TaskEvent::Vacate => SessionState { in_slot: false, ..state },
    }
}

/// The state after all of `events`, in their order.
pub open spec fn session_over(events: Seq<TaskEvent>) -> SessionState
    decreases events.len(),
{
    if events.len() == 0 {
        launched()
    } else {
        session_after(session_over(events.drop_last()), events.last())
    }
}

/// Everything that is sent over `events`, in the order of sending.
pub open spec fn notices_over(events: Seq<TaskEvent>) -> Seq<Notice>
    decreases events.len(),
{
    if events.len() == 0 {
        Seq::empty()
    } else {
        notices_over(events.drop_last()) + notices_on(
            session_over(events.drop_last()),
            events.last(),
        )
    }
}

/// Whether the process has left the slot before the event at `index`.
pub open spec fn vacated_before(events: Seq<TaskEvent>, index: int) -> bool {
    exists|earlier: int| 0 <= earlier < index && earlier < events.len() && events[earlier] is Vacate
}

/// Whether the event at `index` is a look that ends the watch: one that
/// finds the slot vacated, the process exited, or the query failing.
pub open spec fn ends_at(events: Seq<TaskEvent>, index: int) -> bool {
    &&& 0 <= index < events.len()
    &&& events[index] matches TaskEvent::Look { status }
    &&& (vacated_before(events, index) || status != WaitOutcome::Running)
}

/// Whether the event at `index` is a read that brought data.
pub open spec fn data_at(events: Seq<TaskEvent>, index: int) -> bool {
    &&& 0 <= index < events.len()
    &&& events[index] matches TaskEvent::Read { event, .. }
    &&& event is Data
}

/// Whether some look of `events` ends the watch.
pub open spec fn watch_ends(events: Seq<TaskEvent>) -> bool {
    exists|index: int| ends_at(events, index)
}

/// Whether every read that brought data came before every look that ends
/// the watch.
pub open spec fn output_drained_first(events: Seq<TaskEvent>) -> bool {
    forall|end: int, read: int|
        #![trigger ends_at(events, end), data_at(events, read)]
        ends_at(events, end) && data_at(events, read) ==> read < end
}

/// How many of `notices` say that the process is over.
pub open spec fn finished_in(notices: Seq<Notice>) -> nat
    decreases notices.len(),
{
    if notices.len() == 0 {
        0
    } else if notices.last() is Finished {
        finished_in(notices.drop_last()) + 1
    } else {
        finished_in(notices.drop_last())
    }
}

proof fn lemma_finished_in_concat(first: Seq<Notice>, second: Seq<Notice>)
    ensures
        finished_in(first + second) == finished_in(first) + finished_in(second),
    decreases second.len(),
{
    if second.len() == 0 {
        assert(first + second =~= first);
    } else {
        lemma_finished_in_concat(first, second.drop_last());
        assert((first + second).drop_last() =~= first + second.drop_last());
        assert((first + second).last() == second.last());
    }
}

proof fn lemma_lines_hold_no_finished(stream: StreamKind, texts: Seq<Seq<char>>)
    ensures
        finished_in(line_notices(stream, texts)) == 0,
    decreases texts.len(),
{
    if texts.len() > 0 {
        lemma_lines_hold_no_finished(stream, texts.drop_last());
        assert(line_notices(stream, texts).drop_last() =~= line_notices(
            stream,
            texts.drop_last(),
        ));
    }
}

proof fn lemma_ends_at_in_front(events: Seq<TaskEvent>, index: int)
    requires
        0 <= index < events.len() - 1,
    ensures
        ends_at(events.drop_last(), index) == ends_at(events, index),
        data_at(events.drop_last(), index) == data_at(events, index),
{
    let front = events.drop_last();
    assert(front[index] == events[index]);
    if vacated_before(front, index) {
        let earlier = choose|earlier: int|
            0 <= earlier < index && earlier < front.len() && front[earlier] is Vacate;
        assert(events[earlier] is Vacate);
    }
    if vacated_before(events, index) {
        let earlier = choose|earlier: int|
            0 <= earlier < index && earlier < events.len() && events[earlier] is Vacate;
        assert(front[earlier] is Vacate);
    }
}

proof fn lemma_in_slot_until_gone(events: Seq<TaskEvent>)
    ensures
        session_over(events).in_slot <==> !vacated_before(events, events.len() as int)
            && !session_over(events).reported,
    decreases events.len(),
{
    if events.len() > 0 {
        let front = events.drop_last();
        lemma_in_slot_until_gone(front);
        if vacated_before(front, front.len() as int) {
            let earlier = choose|earlier: int|
                0 <= earlier < front.len() && earlier < front.len() && front[earlier] is Vacate;
            assert(events[earlier] is Vacate);
        }
        if vacated_before(events, events.len() as int) {
            let earlier = choose|earlier: int|
                0 <= earlier < events.len() && earlier < events.len() && events[earlier] is Vacate;
            if earlier < front.len() {
                assert(front[earlier] is Vacate);
            }
        }
        if events.last() is Vacate {
            assert(events[events.len() - 1] is Vacate);
        }
    }
}

proof fn lemma_last_look_ends(events: Seq<TaskEvent>)
    requires
        events.len() > 0,
        events.last() is Look,
        !session_over(events.drop_last()).reported,
    ensures
        ends_at(events, events.len() - 1) <==> ends_watch(
            probe_in(session_over(events.drop_last()), events.last()->status),
        ),
{
    let front = events.drop_last();
    lemma_in_slot_until_gone(front);
    if vacated_before(front, front.len() as int) {
        let earlier = choose|earlier: int|
            0 <= earlier < front.len() && earlier < front.len() && front[earlier] is Vacate;
        assert(events[earlier] is Vacate);
    }
    if vacated_before(events, events.len() - 1) {
        let earlier = choose|earlier: int|
            0 <= earlier < events.len() - 1 && earlier < events.len() && events[earlier] is Vacate;
        assert(front[earlier] is Vacate);
    }
}

proof fn lemma_reported_iff_watch_ends(events: Seq<TaskEvent>)
    ensures
        session_over(events).reported <==> watch_ends(events),
    decreases events.len(),
{
    if events.len() > 0 {
        let front = events.drop_last();
        lemma_reported_iff_watch_ends(front);
        if events.last() is Look && !session_over(front).reported {
            lemma_last_look_ends(events);
        }
        if watch_ends(front) {
            let index = choose|index: int| ends_at(front, index);
            lemma_ends_at_in_front(events, index);
        }
        if watch_ends(events) {
            let index = choose|index: int| ends_at(events, index);
            if index < events.len() - 1 {
                lemma_ends_at_in_front(events, index);
            }
        }
    }
}

/// One completion signal for each process: over any order of events, the
/// signal is sent exactly once if some look ends the watch, and not at all
/// before that.
pub proof fn lemma_one_completion_signal(events: Seq<TaskEvent>)
    ensures
        finished_in(notices_over(events)) == if watch_ends(events) {
            1nat
        } else {
            0nat
        },
    decreases events.len(),
{
    lemma_reported_iff_watch_ends(events);
    if events.len() > 0 {
        let front = events.drop_last();
        let state = session_over(front);
        lemma_one_completion_signal(front);
        lemma_reported_iff_watch_ends(front);
        lemma_finished_in_concat(notices_over(front), notices_on(state, events.last()));
        match events.last() {
            TaskEvent::Read { stream, event } => {
                lemma_lines_hold_no_finished(StreamKind::Stdout, texts_on(state.stdout, event));
                lemma_lines_hold_no_finished(StreamKind::Stderr, texts_on(state.stderr, event));
            },
            TaskEvent::Look { status } => {
                let sent = notices_on(state, events.last());
                if !state.reported {
                    lemma_last_look_ends(events);
                }
                if action_on(state.reported, probe_in(state, status)) == WatchAction::Report {
                    assert(sent.len() == 1 && sent.last() is Finished);
                    assert(sent.drop_last().len() == 0);
                    assert(finished_in(sent.drop_last()) == 0);
                    assert(finished_in(sent) == 1);
                }
            },
            TaskEvent::Vacate => {},
        }
    }
}

/// Nothing after the completion signal: where both pipes have been drained
/// before the watcher sees the end of the process, the signal is the last
/// thing sent, and no output line follows it.
pub proof fn lemma_signal_comes_last(events: Seq<TaskEvent>, index: int)
    requires
        output_drained_first(events),
        0 <= index < notices_over(events).len(),
        notices_over(events)[index] is Finished,
    ensures
        index == notices_over(events).len() - 1,
    decreases events.len(),
{
    if events.len() > 0 {
        let front = events.drop_last();
        let state = session_over(front);
        let sent = notices_on(state, events.last());
        assert forall|end: int, read: int|
            #![trigger ends_at(front, end), data_at(front, read)]
            ends_at(front, end) && data_at(front, read) implies read < end by {
            lemma_ends_at_in_front(events, end);
            lemma_ends_at_in_front(events, read);
            assert(ends_at(events, end) && data_at(events, read));
        }
        lemma_reported_iff_watch_ends(front);
        if index < notices_over(front).len() {
            lemma_signal_comes_last(front, index);
            lemma_one_completion_signal(front);
            lemma_holds_finished(notices_over(front), index);
            // The signal has been sent: the watch has ended among the earlier
            // events, so the last event brings neither data nor a second signal.
            let end = choose|end: int| ends_at(front, end);
            lemma_ends_at_in_front(events, end);
            assert(ends_at(events, end));
            assert(!data_at(events, events.len() - 1));
            assert(sent.len() == 0);
        } else {
            let offset = index - notices_over(front).len();
            assert(sent[offset] is Finished);
            assert(sent.len() == 1);
        }
    }
}

proof fn lemma_holds_finished(notices: Seq<Notice>, index: int)
    requires
        0 <= index < notices.len(),
        notices[index] is Finished,
    ensures
        finished_in(notices) >= 1,
    decreases notices.len(),
{
    if index < notices.len() - 1 {
        lemma_holds_finished(notices.drop_last(), index);
    }
}

/// The state of the streamer of `stream`.
pub open spec fn stream_state(state: SessionState, stream: StreamKind) -> StreamerState {
    match stream {
        StreamKind::Stdout => state.stdout,
        StreamKind::Stderr => state.stderr,
    }
}

/// Whether `event` is a read on `stream` that brought data.
pub open spec fn brings_data(event: TaskEvent, stream: StreamKind) -> bool {
    &&& event matches TaskEvent::Read { stream: read, event: result }
    &&& read == stream
    &&& result is Data
}

/// The bytes that the streamer of `stream` takes in over `events`: the data
/// of its reads, one after the other, up to the read that ends the stream.
pub open spec fn taken_in(events: Seq<TaskEvent>, stream: StreamKind) -> Seq<u8>
    decreases events.len(),
{
    if events.len() == 0 {
        Seq::empty()
    } else if brings_data(events.last(), stream) && stream_state(
        session_over(events.drop_last()),
        stream,
    ).open {
        taken_in(events.drop_last(), stream) + events.last()->Read_event->Data_0@
    } else {
        taken_in(events.drop_last(), stream)
    }
}

/// The texts of the lines of `stream` among `notices`, in their order.
pub open spec fn lines_from(notices: Seq<Notice>, stream: StreamKind) -> Seq<Seq<char>>
    decreases notices.len(),
{
    if notices.len() == 0 {
        Seq::empty()
    } else if notices.last() matches Notice::Line(of, text) && of == stream {
        lines_from(notices.drop_last(), stream).push(notices.last()->Line_1)
    } else {
        lines_from(notices.drop_last(), stream)
    }
}

proof fn lemma_lines_from_concat(first: Seq<Notice>, second: Seq<Notice>, stream: StreamKind)
    ensures
        lines_from(first + second, stream) == lines_from(first, stream) + lines_from(
            second,
            stream,
        ),
    decreases second.len(),
{
    if second.len() == 0 {
        assert(first + second =~= first);
        assert(lines_from(first, stream) + lines_from(second, stream) =~= lines_from(
            first,
            stream,
        ));
    } else {
        lemma_lines_from_concat(first, second.drop_last(), stream);
        assert((first + second).drop_last() =~= first + second.drop_last());
        assert((first + second).last() == second.last());
        assert(lines_from(first + second, stream) =~= lines_from(first, stream) + lines_from(
            second,
            stream,
        ));
    }
}

proof fn lemma_lines_from_line_notices(of: StreamKind, texts: Seq<Seq<char>>, stream: StreamKind)
    ensures
        lines_from(line_notices(of, texts), stream) == if of == stream {
            texts
        } else {
            Seq::empty()
        },
    decreases texts.len(),
{
    if texts.len() > 0 {
        lemma_lines_from_line_notices(of, texts.drop_last(), stream);
        assert(line_notices(of, texts).drop_last() =~= line_notices(of, texts.drop_last()));
        assert(line_notices(of, texts).last() == Notice::Line(of, texts.last()));
        if of == stream {
            assert(texts.drop_last().push(texts.last()) =~= texts);
        }
    }
}

proof fn lemma_pending_is_unfinished(events: Seq<TaskEvent>, stream: StreamKind)
    ensures
        stream_state(session_over(events), stream).stream == stream,
        stream_state(session_over(events), stream).open ==> stream_state(
            session_over(events),
            stream,
        ).pending == unfinished(taken_in(events, stream)),
    decreases events.len(),
{
    if events.len() > 0 {
        lemma_pending_is_unfinished(events.drop_last(), stream);
        let before = stream_state(session_over(events.drop_last()), stream);
        let taken = taken_in(events.drop_last(), stream);
        if brings_data(events.last(), stream) && before.open {
            lemma_split_continues(taken, events.last()->Read_event->Data_0@);
        }
    }
}

/// Line order at the boundary: whatever the three tasks do in between, the
/// lines of one stream that are sent are the lines of the bytes that its
/// streamer took in, each once and in the order in which they were written.
pub proof fn lemma_stream_keeps_line_order(events: Seq<TaskEvent>, stream: StreamKind)
    ensures
        lines_from(notices_over(events), stream) == written_lines(taken_in(events, stream)),
    decreases events.len(),
{
    if events.len() > 0 {
        let front = events.drop_last();
        let state = session_over(front);
        let sent = notices_on(state, events.last());
        let taken = taken_in(front, stream);
        lemma_stream_keeps_line_order(front, stream);
        lemma_pending_is_unfinished(front, stream);
        lemma_lines_from_concat(notices_over(front), sent, stream);
        match events.last() {
            TaskEvent::Read { stream: of, event } => {
                lemma_lines_from_line_notices(of, texts_on(stream_state(state, of), event), stream);
                if of == stream && event is Data && stream_state(state, stream).open {
                    let chunk = event->Data_0@;
                    lemma_split_continues(taken, chunk);
                    lemma_texts_concat(
                        complete_lines(taken),
                        complete_lines(unfinished(taken) + chunk),
                    );
                } else {
                    assert(lines_from(sent, stream) =~= Seq::<Seq<char>>::empty());
                    assert(lines_from(notices_over(front), stream) + lines_from(sent, stream)
                        =~= lines_from(notices_over(front), stream));
                }
            },
            TaskEvent::Vacate => {
                assert(lines_from(sent, stream) =~= Seq::<Seq<char>>::empty());
                assert(lines_from(notices_over(front), stream) + lines_from(sent, stream)
                    =~= lines_from(notices_over(front), stream));
            },
            TaskEvent::Look { status } => {
                if sent.len() > 0 {
                    assert(sent.last() is Finished);
                    assert(sent.drop_last().len() == 0);
                    assert(lines_from(sent.drop_last(), stream).len() == 0);
                }
                assert(lines_from(sent, stream) =~= Seq::<Seq<char>>::empty());
                assert(lines_from(notices_over(front), stream) + lines_from(sent, stream)
                    =~= lines_from(notices_over(front), stream));
            },
        }
    }
}

/// A process that exits is signalled: where some look finds the process
/// exited, the completion signal is sent exactly once.
pub proof fn lemma_exit_is_signalled(events: Seq<TaskEvent>, look: int)
    requires
        0 <= look < events.len(),
        events[look] == (TaskEvent::Look { status: WaitOutcome::Exited }),
    ensures
        finished_in(notices_over(events)) == 1,
{
    assert(ends_at(events, look));
    lemma_one_completion_signal(events);
}

/// A process that is stopped is signalled: where the watcher looks once more
/// after the process has left the slot, the completion signal is sent exactly
/// once, whatever the operating system would say of the process.
pub proof fn lemma_stop_is_signalled(events: Seq<TaskEvent>, stop: int, look: int)
    requires
        0 <= stop < look < events.len(),
        events[stop] is Vacate,
        events[look] is Look,
    ensures
        finished_in(notices_over(events)) == 1,
{
    assert(vacated_before(events, look));
    assert(ends_at(events, look));
    lemma_one_completion_signal(events);
}

/// Completion empties the slot: once a look has ended the watch, the slot
/// no longer holds the process, so that a stop which follows finds nothing to
/// stop and every later look finds the slot vacated.
pub proof fn lemma_completion_empties_slot(events: Seq<TaskEvent>, status: WaitOutcome)
    requires
        watch_ends(events),
    ensures
        !session_over(events).in_slot,
        probe_in(session_over(events), status) == Probe::Vacated,
{
    lemma_reported_iff_watch_ends(events);
    lemma_in_slot_until_gone(events);
}

} // verus!
