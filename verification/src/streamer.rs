//! Turning the bytes of one output pipe into lines.
//!
//! A pipe delivers bytes in chunks of arbitrary size. The streamer keeps the
//! bytes after the last newline until the rest of their line arrives, and hands
//! out every completed line as text, in the order in which the lines were
//! written.

use vstd::prelude::*;
use vstd::slice::*;
use vstd::utf8::*;
use crate::text::text_from_utf8;

verus! {

/// The byte that ends a line.
pub const NEWLINE: u8 = 10;

/// The byte that is dropped when it stands directly before the newline.
pub const CARRIAGE_RETURN: u8 = 13;

/// The two output streams of a process.
#[derive(Clone, Copy, Debug, PartialEq, Eq, Structural)]
pub enum StreamKind {
    Stdout,
    Stderr,
}

/// One line of output, delivered once and not kept.
#[derive(Debug)]
pub struct OutputLine {
    pub stream: StreamKind,
    pub text: String,
}

/// What one read on the pipe gave.
#[derive(Debug)]
pub enum ReadEvent {
    /// The bytes that were read.
    Data(Vec<u8>),
    /// The writing end is closed and all bytes have been read.
    EndOfStream,
    /// The operating system reported an error.
    Failed,
}

/// What the reader does after one read.
#[derive(Debug)]
pub struct StreamStep {
    /// The lines to deliver now, in this order.
    pub lines: Vec<OutputLine>,
    /// Whether to read again. Once `false`, the streamer is done.
    pub keep_reading: bool,
}

/// The state of a streamer as contracts see it.
pub struct StreamerState {
    pub stream: StreamKind,
    /// The bytes of the line that no newline has ended yet.
    pub pending: Seq<u8>,
    /// Whether the streamer still reads.
    pub open: bool,
}

/// The bytes after the last newline of `bytes`: the line that is not finished
/// yet.
pub open spec fn unfinished(bytes: Seq<u8>) -> Seq<u8>
    decreases bytes.len(),
{
    if bytes.len() == 0 || bytes.last() == NEWLINE {
        Seq::empty()
    } else {
        unfinished(bytes.drop_last()).push(bytes.last())
    }
}

/// The lines of `bytes` that a newline has ended, in order, each without its
/// newline.
pub open spec fn complete_lines(bytes: Seq<u8>) -> Seq<Seq<u8>>
    decreases bytes.len(),
{
    if bytes.len() == 0 {
        Seq::empty()
    } else if bytes.last() == NEWLINE {
        complete_lines(bytes.drop_last()).push(unfinished(bytes.drop_last()))
    } else {
        complete_lines(bytes.drop_last())
    }
}

/// The lines of `lines`, each followed by a newline, one after the other.
pub open spec fn joined(lines: Seq<Seq<u8>>) -> Seq<u8>
    decreases lines.len(),
{
    if lines.len() == 0 {
        Seq::empty()
    } else {
        joined(lines.drop_last()) + lines.last().push(NEWLINE)
    }
}

/// `line` without the carriage return at its end, if it has one.
pub open spec fn without_carriage_return(line: Seq<u8>) -> Seq<u8> {
    if line.len() > 0 && line.last() == CARRIAGE_RETURN {
        line.drop_last()
    } else {
        line
    }
}

/// The complete lines of `bytes`, each without the carriage return at its
/// end.
pub open spec fn line_bodies(bytes: Seq<u8>) -> Seq<Seq<u8>> {
    Seq::new(
        complete_lines(bytes).len(),
        |i: int| without_carriage_return(complete_lines(bytes)[i]),
    )
}

/// The byte vectors of `lines` as byte sequences.
pub open spec fn byte_views(lines: Seq<Vec<u8>>) -> Seq<Seq<u8>> {
    Seq::new(lines.len(), |i: int| lines[i]@)
}

/// The text of one line as it is delivered: the line without a closing
/// carriage return, decoded as UTF-8. A line that is not UTF-8 has no text.
pub open spec fn line_text(line: Seq<u8>) -> Option<Seq<char>> {
    let body = without_carriage_return(line);
    if valid_utf8(body) {
        Some(decode_utf8(body))
    } else {
        None
    }
}

/// The texts of the lines that have one, in the order of the lines.
pub open spec fn texts(lines: Seq<Seq<u8>>) -> Seq<Seq<char>>
    decreases lines.len(),
{
    if lines.len() == 0 {
        Seq::empty()
    } else {
        match line_text(lines.last()) {
            Some(text) => texts(lines.drop_last()).push(text),
            None => texts(lines.drop_last()),
        }
    }
}

/// The lines that a process has delivered once it has written `written`.
pub open spec fn written_lines(written: Seq<u8>) -> Seq<Seq<char>> {
    texts(complete_lines(written))
}

/// The lines of `lines` as pairs of stream and text.
pub open spec fn line_views(lines: Seq<OutputLine>) -> Seq<(StreamKind, Seq<char>)> {
    Seq::new(lines.len(), |i: int| (lines[i].stream, lines[i].text@))
}

/// Each text of `texts` as a line of `stream`.
pub open spec fn tagged(stream: StreamKind, texts: Seq<Seq<char>>) -> Seq<(StreamKind, Seq<char>)> {
    Seq::new(texts.len(), |i: int| (stream, texts[i]))
}

/// The state after `event`. Data extends the unfinished line of an open
/// streamer. The end of the stream and a read error close it alike, and the
/// unfinished line is dropped; a closed streamer stays closed.
pub open spec fn state_after(state: StreamerState, event: ReadEvent) -> StreamerState {
    if state.open && event is Data {
        StreamerState { pending: unfinished(state.pending + event->Data_0@), ..state }
    } else {
        StreamerState { pending: Seq::empty(), open: false, ..state }
    }
}

/// The texts delivered on `event`: the lines that the new bytes complete, and
/// nothing once the stream has ended or failed.
pub open spec fn texts_on(state: StreamerState, event: ReadEvent) -> Seq<Seq<char>> {
    if state.open && event is Data {
        written_lines(state.pending + event->Data_0@)
    } else {
        Seq::empty()
    }
}

/// Reader of one pipe: splits what arrives into lines.
#[derive(Debug)]
pub struct OutputStreamer {
    stream: StreamKind,
    pending: Vec<u8>,
    open: bool,
}

impl View for OutputStreamer {
    type V = StreamerState;

    closed spec fn view(&self) -> StreamerState {
        StreamerState { stream: self.stream, pending: self.pending@, open: self.open }
    }
}

impl OutputStreamer {
    #[verifier::type_invariant]
    spec fn pending_has_no_newline(self) -> bool {
        !self.pending@.contains(NEWLINE)
    }

    /// A streamer for `stream` that has read nothing yet.
    pub fn new(stream: StreamKind) -> (streamer: Self)
        ensures
            streamer@ == (StreamerState { stream, pending: Seq::empty(), open: true }),
    {
        OutputStreamer { stream, pending: Vec::new(), open: true }
    }

    /// The stream this streamer reads.
    pub fn stream(&self) -> (stream: StreamKind)
        ensures
            stream == self@.stream,
    {
        self.stream
    }

    /// Whether the streamer is still reading.
    pub fn is_open(&self) -> (open: bool)
        ensures
            open == self@.open,
    {
        self.open
    }

    /// Takes the result of one read and says which lines to deliver and
    /// whether to read again.
    pub fn on_read(&mut self, event: ReadEvent) -> (step: StreamStep)
        ensures
            final(self)@ == state_after(old(self)@, event),
            line_views(step.lines@) == tagged(old(self)@.stream, texts_on(old(self)@, event)),
            step.keep_reading == final(self)@.open,
    {
        proof {
            use_type_invariant(&*self);
        }
        let stream = self.stream;
        let mut pending: Vec<u8> = Vec::new();
        core::mem::swap(&mut pending, &mut self.pending);
        match event {
            ReadEvent::Data(chunk) if self.open => {
                let ghost written = old(self)@.pending + chunk@;
                let bodies = cut_lines(&mut pending, chunk.as_slice());
                let lines = decode_lines(stream, bodies, Ghost(complete_lines(written)));
                proof {
                    lemma_unfinished_has_no_newline(written);
                }
                self.pending = pending;
                StreamStep { lines, keep_reading: true }
            },
            _ => {
                self.open = false;
                let lines: Vec<OutputLine> = Vec::new();
                assert(line_views(lines@) =~= tagged(stream, Seq::empty()));
                StreamStep { lines, keep_reading: false }
            },
        }
    }
}

/// Appends `chunk` to the unfinished line in `pending` and cuts off every
/// line that a newline completes. The lines come back in their order, each
/// without its newline and without a carriage return before it.
pub(crate) fn cut_lines(pending: &mut Vec<u8>, chunk: &[u8]) -> (lines: Vec<Vec<u8>>)
    requires
        !old(pending)@.contains(NEWLINE),
    ensures
        final(pending)@ == unfinished(old(pending)@ + chunk@),
        byte_views(lines@) == line_bodies(old(pending)@ + chunk@),
{
    let ghost start = pending@;
    let ghost whole = start + chunk@;
    let mut lines: Vec<Vec<u8>> = Vec::new();
    proof {
        lemma_no_newline(start);
        assert(whole.take(start.len() as int) =~= start);
        assert(byte_views(lines@) =~= line_bodies(start));
    }
    let mut i: usize = 0;
    while i < chunk.len()
        invariant
            i <= chunk.len(),
            whole == start + chunk@,
            pending@ == unfinished(whole.take(start.len() + i)),
            byte_views(lines@) == line_bodies(whole.take(start.len() + i)),
        decreases chunk.len() - i,
    {
        let byte = chunk[i];
        let ghost before = whole.take(start.len() + i);
        let ghost after = whole.take(start.len() + i + 1);
        proof {
            assert(after.drop_last() =~= before);
            assert(after.last() == byte);
        }
        if byte == NEWLINE {
            let mut line: Vec<u8> = Vec::new();
            core::mem::swap(&mut line, pending);
            let ghost raw = line@;
            let length = line.len();
            if length > 0 && line[length - 1] == CARRIAGE_RETURN {
                line.pop();
            }
            let ghost earlier = lines@;
            lines.push(line);
            proof {
                assert(line@ == without_carriage_return(raw));
                assert(complete_lines(after) == complete_lines(before).push(raw));
                assert(byte_views(earlier).len() == line_bodies(before).len());
                assert forall|k: int| 0 <= k < lines@.len() implies byte_views(lines@)[k]
                    == line_bodies(after)[k] by {
                    if k < earlier.len() {
                        assert(byte_views(earlier)[k] == line_bodies(before)[k]);
                    }
                }
                assert(byte_views(lines@) =~= line_bodies(after));
            }
        } else {
            pending.push(byte);
            assert(line_bodies(after) =~= line_bodies(before));
        }
        i += 1;
    }
    proof {
        assert(whole.take(start.len() + i) =~= whole);
    }
    lines
}

/// The texts of `bodies`, the lines `raw` without their carriage returns, as
/// lines of `stream`.
fn decode_lines(stream: StreamKind, bodies: Vec<Vec<u8>>, Ghost(raw): Ghost<Seq<Seq<u8>>>) -> (lines:
    Vec<OutputLine>)
    requires
        byte_views(bodies@).len() == raw.len(),
        forall|k: int|
            0 <= k < raw.len() ==> byte_views(bodies@)[k] == without_carriage_return(raw[k]),
    ensures
        line_views(lines@) == tagged(stream, texts(raw)),
{
    let ghost all = bodies@;
    let mut bodies = bodies;
    let mut lines: Vec<OutputLine> = Vec::new();
    proof {
        assert(raw.take(0) =~= Seq::<Seq<u8>>::empty());
        assert(line_views(lines@) =~= tagged(stream, texts(raw.take(0))));
        assert forall|k: int| 0 <= k < raw.len() implies all[k]@ == without_carriage_return(
            raw[k],
        ) by {
            assert(byte_views(all)[k] == all[k]@);
        }
    }
    let mut i: usize = 0;
    while i < bodies.len()
        invariant
            i <= bodies.len(),
            bodies@.len() == all.len(),
            all.len() == raw.len(),
            forall|k: int| i <= k < all.len() ==> bodies@[k] == all[k],
            forall|k: int| 0 <= k < raw.len() ==> all[k]@ == without_carriage_return(raw[k]),
            line_views(lines@) == tagged(stream, texts(raw.take(i as int))),
        decreases bodies.len() - i,
    {
        let mut body: Vec<u8> = Vec::new();
        core::mem::swap(&mut body, &mut bodies[i]);
        let ghost before = raw.take(i as int);
        let ghost after = raw.take(i + 1);
        proof {
            assert(body@ == without_carriage_return(raw[i as int]));
            assert(after.drop_last() =~= before);
            assert(after.last() == raw[i as int]);
        }
        match text_from_utf8(body) {
            Some(text) => {
                let ghost earlier = lines@;
                lines.push(OutputLine { stream, text });
                proof {
                    assert(texts(after) == texts(before).push(text@));
                    assert(line_views(earlier).len() == texts(before).len());
                    assert forall|k: int| 0 <= k < lines@.len() implies line_views(lines@)[k]
                        == tagged(stream, texts(after))[k] by {
                        if k < earlier.len() {
                            assert(line_views(earlier)[k] == tagged(stream, texts(before))[k]);
                        }
                    }
                    assert(line_views(lines@) =~= tagged(stream, texts(after)));
                }
            },
            None => {
                assert(texts(after) == texts(before));
            },
        }
        i += 1;
    }
    proof {
        assert(raw.take(i as int) =~= raw);
    }
    lines
}

/// Bytes without a newline hold no complete line and are unfinished as a
/// whole.
pub proof fn lemma_no_newline(bytes: Seq<u8>)
    requires
        !bytes.contains(NEWLINE),
    ensures
        complete_lines(bytes) == Seq::<Seq<u8>>::empty(),
        unfinished(bytes) == bytes,
    decreases bytes.len(),
{
    if bytes.len() > 0 {
        assert(bytes.last() == bytes[bytes.len() - 1]);
        assert forall|b: u8| bytes.drop_last().contains(b) implies bytes.contains(b) by {
            let i = choose|i: int| 0 <= i < bytes.drop_last().len() && bytes.drop_last()[i] == b;
            assert(bytes[i] == b);
        }
        lemma_no_newline(bytes.drop_last());
        assert(bytes.drop_last().push(bytes.last()) =~= bytes);
    }
}

/// The unfinished line never holds a newline.
pub proof fn lemma_unfinished_has_no_newline(bytes: Seq<u8>)
    ensures
        !unfinished(bytes).contains(NEWLINE),
    decreases bytes.len(),
{
    if bytes.len() == 0 || bytes.last() == NEWLINE {
        assert forall|i: int| 0 <= i < unfinished(bytes).len() implies unfinished(bytes)[i]
            != NEWLINE by {}
    } else {
        lemma_unfinished_has_no_newline(bytes.drop_last());
        let front = unfinished(bytes.drop_last());
        if front.push(bytes.last()).contains(NEWLINE) {
            let i = choose|i: int|
                0 <= i < front.push(bytes.last()).len() && front.push(bytes.last())[i] == NEWLINE;
            if i < front.len() {
                assert(front[i] == NEWLINE);
                assert(front.contains(NEWLINE));
            }
        }
    }
}

/// Splitting loses nothing and reorders nothing: the complete lines, each with
/// its newline, followed by the unfinished line, are the bytes themselves, and
/// no line holds a newline.
pub proof fn lemma_lines_partition(bytes: Seq<u8>)
    ensures
        joined(complete_lines(bytes)) + unfinished(bytes) == bytes,
        forall|i: int|
            0 <= i < complete_lines(bytes).len() ==> !(#[trigger] complete_lines(bytes)[i]).contains(
                NEWLINE,
            ),
        !unfinished(bytes).contains(NEWLINE),
    decreases bytes.len(),
{
    lemma_unfinished_has_no_newline(bytes);
    if bytes.len() == 0 {
        assert(joined(complete_lines(bytes)) + unfinished(bytes) =~= bytes);
    } else {
        let front = bytes.drop_last();
        lemma_lines_partition(front);
        lemma_unfinished_has_no_newline(front);
        assert(front.push(bytes.last()) =~= bytes);
        if bytes.last() == NEWLINE {
            let lines = complete_lines(front).push(unfinished(front));
            assert(lines.drop_last() =~= complete_lines(front));
            assert(joined(lines) + unfinished(bytes) =~= (joined(complete_lines(front))
                + unfinished(front)).push(NEWLINE));
        } else {
            assert(joined(complete_lines(bytes)) + unfinished(bytes) =~= (joined(
                complete_lines(front),
            ) + unfinished(front)).push(bytes.last()));
        }
    }
}

/// Reading on continues the split: what `first + second` splits into is what
/// `first` splits into, followed by what the unfinished line of `first` and
/// `second` split into.
pub proof fn lemma_split_continues(first: Seq<u8>, second: Seq<u8>)
    ensures
        complete_lines(first + second) == complete_lines(first) + complete_lines(
            unfinished(first) + second,
        ),
        unfinished(first + second) == unfinished(unfinished(first) + second),
    decreases second.len(),
{
    let rest = unfinished(first);
    if second.len() == 0 {
        lemma_unfinished_has_no_newline(first);
        lemma_no_newline(rest);
        assert(first + second =~= first);
        assert(rest + second =~= rest);
        assert(complete_lines(first) + complete_lines(rest) =~= complete_lines(first));
    } else {
        let front = second.drop_last();
        lemma_split_continues(first, front);
        assert((first + second).drop_last() =~= first + front);
        assert((rest + second).drop_last() =~= rest + front);
        assert((first + second).last() == second.last());
        assert((rest + second).last() == second.last());
        if second.last() == NEWLINE {
            assert(complete_lines(first + second) =~= complete_lines(first) + complete_lines(
                rest + second,
            ));
        }
    }
}

/// The texts of two runs of lines are the texts of the first run followed by
/// those of the second.
pub proof fn lemma_texts_concat(first: Seq<Seq<u8>>, second: Seq<Seq<u8>>)
    ensures
        texts(first + second) == texts(first) + texts(second),
    decreases second.len(),
{
    if second.len() == 0 {
        assert(first + second =~= first);
        assert(texts(first) + texts(second) =~= texts(first));
    } else {
        lemma_texts_concat(first, second.drop_last());
        assert((first + second).drop_last() =~= first + second.drop_last());
        assert((first + second).last() == second.last());
        match line_text(second.last()) {
            Some(text) => {
                assert(texts(first + second) =~= texts(first) + texts(second));
            },
            None => {},
        }
    }
}

/// The lines delivered while reading `chunks` one after the other, starting
/// with `pending` as the unfinished line.
pub open spec fn delivered(pending: Seq<u8>, chunks: Seq<Seq<u8>>) -> Seq<Seq<char>>
    decreases chunks.len(),
{
    if chunks.len() == 0 {
        Seq::empty()
    } else {
        written_lines(pending + chunks.first()) + delivered(
            unfinished(pending + chunks.first()),
            chunks.drop_first(),
        )
    }
}

/// Line order within one stream: however the written bytes are cut into
/// chunks, the lines delivered while reading the chunks are the lines of the
/// bytes as a whole, each once and in the order in which they were written.
pub proof fn lemma_chunking_keeps_lines(chunks: Seq<Seq<u8>>)
    ensures
        delivered(Seq::empty(), chunks) == written_lines(chunks.flatten()),
{
    lemma_delivered_from(Seq::empty(), chunks);
    assert(Seq::<u8>::empty() + chunks.flatten() =~= chunks.flatten());
}

proof fn lemma_delivered_from(pending: Seq<u8>, chunks: Seq<Seq<u8>>)
    requires
        !pending.contains(NEWLINE),
    ensures
        delivered(pending, chunks) == written_lines(pending + chunks.flatten()),
    decreases chunks.len(),
{
    lemma_no_newline(pending);
    if chunks.len() == 0 {
        assert(pending + chunks.flatten() =~= pending);
    } else {
        let head = pending + chunks.first();
        let tail = chunks.drop_first();
        lemma_unfinished_has_no_newline(head);
        lemma_delivered_from(unfinished(head), tail);
        lemma_split_continues(head, tail.flatten());
        lemma_texts_concat(complete_lines(head), complete_lines(unfinished(head) + tail.flatten()));
        assert(pending + chunks.flatten() =~= head + tail.flatten());
    }
}

} // verus!
