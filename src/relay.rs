use vstd::prelude::*;

use crate::decode::{decode_line, line_fragment, Fragment, FragmentView, Protocol};
use crate::lines::{
    lemma_lines_split, lemma_push_byte, lemma_tail_settled, lines_of, strip_cr, tail_of,
    without_cr, NEWLINE,
};
use crate::probe::{is_success_status, success_status};
use crate::sanitize::{sanitize, sanitized};

verus! {

/// Name of the event that carries one piece of surfaced text.
pub const CHUNK_EVENT: &'static str = "translation_chunk";

/// Name of the event that carries the whole text at the end.
pub const COMPLETE_EVENT: &'static str = "translation_complete";

/// Why a relay failed. Malformed lines are not failures: they are skipped.
#[derive(Debug)]
pub enum RelayError {
    /// The transport failed: no connection, a timeout, or a read error in the body.
    Network(String),
    /// The backend answered with a status outside the success class.
    Upstream(u16),
}

/// Where a relay stands: it goes from `Sending` to `Streaming`, then to
/// `Completed` or `Failed`, and never back.
#[derive(Debug)]
pub enum Phase {
    Sending,
    Streaming,
    Completed,
    Failed(RelayError),
}

/// An event pushed to the sink.
#[derive(Debug)]
pub enum SinkEvent {
    /// `translation_chunk`: one non-empty piece of surfaced text.
    Chunk(String),
    /// `translation_complete`: the whole accumulated text, once, at the end.
    Complete(String),
}

/// What a sink event stands for.
pub ghost enum Emission {
    Chunk(Seq<char>),
    Complete(Seq<char>),
}

impl View for SinkEvent {
    type V = Emission;

    open spec fn view(&self) -> Emission {
        match self {
            SinkEvent::Chunk(t) => Emission::Chunk(t@),
            SinkEvent::Complete(t) => Emission::Complete(t@),
        }
    }
}

impl SinkEvent {
    /// The event name under which the sink delivers this event.
    pub fn name(&self) -> (r: &'static str)
        ensures
            r@ == match self@ {
                Emission::Chunk(_) => CHUNK_EVENT@,
                Emission::Complete(_) => COMPLETE_EVENT@,
            },
    {
        match self {
            SinkEvent::Chunk(_) => CHUNK_EVENT,
            SinkEvent::Complete(_) => COMPLETE_EVENT,
        }
    }

    /// The event's payload.
    pub fn payload(&self) -> (r: &String)
        ensures
            r@ == match self@ {
                Emission::Chunk(t) => t,
                Emission::Complete(t) => t,
            },
    {
        match self {
            SinkEvent::Chunk(t) => t,
            SinkEvent::Complete(t) => t,
        }
    }
}

/// The views of a run of sink events.
pub open spec fn emissions(events: Seq<SinkEvent>) -> Seq<Emission> {
    events.map_values(|e: SinkEvent| e@)
}

/// The state of a relay as far as its sink and its result go: what it has
/// emitted, the text accumulated, and whether it has completed.
pub ghost struct Progress {
    pub emitted: Seq<Emission>,
    pub text: Seq<char>,
    pub complete: bool,
}

/// A relay before any fragment.
pub open spec fn initial() -> Progress {
    Progress { emitted: seq![], text: seq![], complete: false }
}

/// The text that a fragment surfaces: local-engine fragments are sanitized,
/// event-stream fragments are taken as they are.
pub open spec fn surfaced(protocol: Protocol, f: FragmentView) -> Seq<char> {
    match protocol {
        Protocol::LineJson => sanitized(f.text),
        Protocol::EventStream => f.text,
    }
}

/// One fragment handled: non-empty surfaced text is appended and emitted as a
/// chunk; a final fragment then emits the completion with the whole text.
pub open spec fn apply(protocol: Protocol, st: Progress, f: FragmentView) -> Progress {
    let t = surfaced(protocol, f);
    let st1 = if t.len() > 0 {
        Progress { emitted: st.emitted.push(Emission::Chunk(t)), text: st.text + t, complete: false }
    } else {
        st
    };
    if f.is_final {
        Progress {
            emitted: st1.emitted.push(Emission::Complete(st1.text)),
            text: st1.text,
            complete: true,
        }
    } else {
        st1
    }
}

/// One complete line handled. Nothing happens after completion, and a line
/// that decodes to no fragment changes nothing.
pub open spec fn step(protocol: Protocol, st: Progress, line: Seq<u8>) -> Progress {
    if st.complete {
        st
    } else {
        match line_fragment(protocol, without_cr(line)) {
            Some(f) => apply(protocol, st, f),
            None => st,
        }
    }
}

/// The lines handled in order.
pub open spec fn run(protocol: Protocol, st: Progress, lines: Seq<Seq<u8>>) -> Progress
    decreases lines.len(),
{
    if lines.len() == 0 {
        st
    } else {
        step(protocol, run(protocol, st, lines.drop_last()), lines.last())
    }
}

/// The end of the body: an unterminated last line is handled as a line, and
/// a stream that gave no final fragment completes with the text it has.
pub open spec fn finished(protocol: Protocol, st: Progress, tail: Seq<u8>) -> Progress {
    let st1 = if tail.len() > 0 {
        step(protocol, st, tail)
    } else {
        st
    };
    if st1.complete {
        st1
    } else {
        Progress {
            emitted: st1.emitted.push(Emission::Complete(st1.text)),
            text: st1.text,
            complete: true,
        }
    }
}

/// The concatenation of the chunk payloads among `es`, in order.
pub open spec fn chunk_text(es: Seq<Emission>) -> Seq<char>
    decreases es.len(),
{
    if es.len() == 0 {
        seq![]
    } else {
        match es.last() {
            Emission::Chunk(t) => chunk_text(es.drop_last()) + t,
            Emission::Complete(_) => chunk_text(es.drop_last()),
        }
    }
}

/// The shape every relay keeps: the text is the concatenation of the chunks;
/// only the last event may be a completion, it is one exactly when the relay
/// has completed, and it carries the text.
pub open spec fn progress_wf(st: Progress) -> bool {
    &&& st.text == chunk_text(st.emitted)
    &&& forall|i: int| 0 <= i < st.emitted.len() - 1 ==> #[trigger] st.emitted[i] is Chunk
    &&& st.complete <==> (st.emitted.len() > 0 && st.emitted.last() is Complete)
    &&& st.complete ==> st.emitted.last() == Emission::Complete(st.text)
}

pub proof fn lemma_apply_wf(protocol: Protocol, st: Progress, f: FragmentView)
    requires
        progress_wf(st),
        !st.complete,
    ensures
        progress_wf(apply(protocol, st, f)),
        st.emitted.len() <= apply(protocol, st, f).emitted.len(),
        apply(protocol, st, f).emitted.subrange(0, st.emitted.len() as int) == st.emitted,
{
    let t = surfaced(protocol, f);
    let st1 = if t.len() > 0 {
        Progress { emitted: st.emitted.push(Emission::Chunk(t)), text: st.text + t, complete: false }
    } else {
        st
    };
    if t.len() > 0 {
        assert(st1.emitted.drop_last() =~= st.emitted);
    }
    assert(progress_wf(st1));
    if f.is_final {
        let st2 = apply(protocol, st, f);
        assert(st2.emitted.drop_last() =~= st1.emitted);
        assert(progress_wf(st2));
        assert(st2.emitted.subrange(0, st.emitted.len() as int) =~= st.emitted);
    } else {
        assert(st1.emitted.subrange(0, st.emitted.len() as int) =~= st.emitted);
    }
}

pub proof fn lemma_step_wf(protocol: Protocol, st: Progress, line: Seq<u8>)
    requires
        progress_wf(st),
    ensures
        progress_wf(step(protocol, st, line)),
        st.emitted.len() <= step(protocol, st, line).emitted.len(),
        step(protocol, st, line).emitted.subrange(0, st.emitted.len() as int) == st.emitted,
{
    if !st.complete {
        if let Some(f) = line_fragment(protocol, without_cr(line)) {
            lemma_apply_wf(protocol, st, f);
        } else {
            assert(st.emitted.subrange(0, st.emitted.len() as int) =~= st.emitted);
        }
    } else {
        assert(st.emitted.subrange(0, st.emitted.len() as int) =~= st.emitted);
    }
}

pub proof fn lemma_run_wf(protocol: Protocol, st: Progress, lines: Seq<Seq<u8>>)
    requires
        progress_wf(st),
    ensures
        progress_wf(run(protocol, st, lines)),
    decreases lines.len(),
{
    if lines.len() > 0 {
        lemma_run_wf(protocol, st, lines.drop_last());
        lemma_step_wf(protocol, run(protocol, st, lines.drop_last()), lines.last());
    }
}

pub proof fn lemma_finished_wf(protocol: Protocol, st: Progress, tail: Seq<u8>)
    requires
        progress_wf(st),
    ensures
        progress_wf(finished(protocol, st, tail)),
        finished(protocol, st, tail).complete,
{
    let st1 = if tail.len() > 0 {
        step(protocol, st, tail)
    } else {
        st
    };
    if tail.len() > 0 {
        lemma_step_wf(protocol, st, tail);
    }
    if !st1.complete {
        let st2 = finished(protocol, st, tail);
        assert(st2.emitted.drop_last() =~= st1.emitted);
    }
}

/// Whatever lines a stream brings and however it ends, the relay completes
/// with exactly one `translation_complete` event: it is the last event, every
/// event before it is a chunk, and its payload is the final text returned.
pub proof fn lemma_completion_carries_result(
    protocol: Protocol,
    lines: Seq<Seq<u8>>,
    tail: Seq<u8>,
)
    ensures
        ({
            let st = finished(protocol, run(protocol, initial(), lines), tail);
            &&& st.complete
            &&& st.emitted.len() > 0
            &&& st.emitted.last() == Emission::Complete(st.text)
            &&& forall|i: int| 0 <= i < st.emitted.len() - 1 ==> #[trigger] st.emitted[i] is Chunk
        }),
{
    assert(progress_wf(initial()));
    lemma_run_wf(protocol, initial(), lines);
    lemma_finished_wf(protocol, run(protocol, initial(), lines), tail);
}

/// At every point of a relay, and at its end, the accumulated text is the
/// ordered concatenation of the `translation_chunk` payloads emitted so far.
pub proof fn lemma_result_is_chunk_concat(protocol: Protocol, lines: Seq<Seq<u8>>, tail: Seq<u8>)
    ensures
        run(protocol, initial(), lines).text == chunk_text(run(protocol, initial(), lines).emitted),
        finished(protocol, run(protocol, initial(), lines), tail).text == chunk_text(
            finished(protocol, run(protocol, initial(), lines), tail).emitted,
        ),
{
    assert(progress_wf(initial()));
    lemma_run_wf(protocol, initial(), lines);
    lemma_finished_wf(protocol, run(protocol, initial(), lines), tail);
}

pub proof fn lemma_run_append(
    protocol: Protocol,
    st: Progress,
    a: Seq<Seq<u8>>,
    b: Seq<Seq<u8>>,
)
    ensures
        run(protocol, st, a + b) == run(protocol, run(protocol, st, a), b),
    decreases b.len(),
{
    if b.len() == 0 {
        assert(a + b =~= a);
    } else {
        assert((a + b).drop_last() =~= a + b.drop_last());
        lemma_run_append(protocol, st, a, b.drop_last());
    }
}

/// A malformed line is skipped without ending the stream: handling `before`,
/// the malformed line, then `after` ends in the same state as handling
/// `before` and `after` alone, so the lines after it still decode.
pub proof fn lemma_malformed_line_skipped(
    protocol: Protocol,
    before: Seq<Seq<u8>>,
    bad: Seq<u8>,
    after: Seq<Seq<u8>>,
)
    requires
        malformed_line_of(protocol, bad),
    ensures
        run(protocol, initial(), before + seq![bad] + after) == run(
            protocol,
            initial(),
            before + after,
        ),
{
    lemma_run_append(protocol, initial(), before + seq![bad], after);
    lemma_run_append(protocol, initial(), before, after);
    assert((before + seq![bad]).drop_last() =~= before);
}

/// A line that fails to parse under `protocol`, carriage return and all.
pub open spec fn malformed_line_of(protocol: Protocol, line: Seq<u8>) -> bool {
    crate::decode::malformed_line(protocol, without_cr(line))
}

/// Where a body is cut into chunks does not matter: handling the bytes `a`
/// and then `b`, each after the unfinished line before it, ends in the same
/// state, with the same unfinished line, as handling `a + b` at once.
pub proof fn lemma_chunking_irrelevant(
    protocol: Protocol,
    st: Progress,
    pending: Seq<u8>,
    a: Seq<u8>,
    b: Seq<u8>,
)
    ensures
        run(
            protocol,
            run(protocol, st, lines_of(pending + a)),
            lines_of(tail_of(pending + a) + b),
        ) == run(protocol, st, lines_of(pending + a + b)),
        tail_of(tail_of(pending + a) + b) == tail_of(pending + a + b),
{
    lemma_lines_split(pending + a, b);
    lemma_run_append(protocol, st, lines_of(pending + a), lines_of(tail_of(pending + a) + b));
}

/// Two errors say the same.
pub open spec fn same_error(a: RelayError, b: RelayError) -> bool {
    match (a, b) {
        (RelayError::Network(x), RelayError::Network(y)) => x@ == y@,
        (RelayError::Upstream(x), RelayError::Upstream(y)) => x == y,
        _ => false,
    }
}

impl RelayError {
    /// A copy of this error.
    pub fn duplicate(&self) -> (r: RelayError)
        ensures
            same_error(r, *self),
    {
        match self {
            RelayError::Network(m) => RelayError::Network(m.clone()),
            RelayError::Upstream(c) => RelayError::Upstream(*c),
        }
    }
}

/// Drives one translation response: takes the response status, the body's
/// chunks and its end, decodes lines under the backend's protocol, and says
/// which events to push to the sink and how the call resolves.
pub struct Relay {
    protocol: Protocol,
    phase: Phase,
    pending: Vec<u8>,
    text: String,
    progress: Ghost<Progress>,
}

impl Relay {
    /// The protocol this relay decodes.
    pub closed spec fn protocol(&self) -> Protocol {
        self.protocol
    }

    /// Where the relay stands.
    pub closed spec fn phase(&self) -> Phase {
        self.phase
    }

    /// The bytes of a line that has not ended yet.
    pub closed spec fn pending(&self) -> Seq<u8> {
        self.pending@
    }

    /// What the relay has emitted and accumulated.
    pub closed spec fn progress(&self) -> Progress {
        self.progress@
    }

    pub closed spec fn wf(&self) -> bool {
        &&& self.text@ == self.progress@.text
        &&& progress_wf(self.progress@)
        &&& (self.phase is Completed ==> self.progress@.complete)
        &&& (self.phase is Streaming ==> !self.progress@.complete)
        &&& (self.phase is Sending ==> self.progress@ == initial())
        &&& tail_of(self.pending@) == self.pending@
        &&& lines_of(self.pending@) == Seq::<Seq<u8>>::empty()
    }

    /// A relay for a request whose response will come in `protocol`.
    pub fn new(protocol: Protocol) -> (r: Relay)
        ensures
            r.wf(),
            r.protocol() == protocol,
            r.phase() is Sending,
            r.progress() == initial(),
            r.pending().len() == 0,
    {
        Relay {
            protocol,
            phase: Phase::Sending,
            pending: Vec::new(),
            text: String::new(),
            progress: Ghost(initial()),
        }
    }

    /// The response status has come. A success status starts the stream; any
    /// other fails the relay with `Upstream`, before any event is emitted.
    pub fn on_response(&mut self, status: u16)
        requires
            old(self).wf(),
        ensures
            final(self).wf(),
            final(self).protocol() == old(self).protocol(),
            final(self).progress() == old(self).progress(),
            final(self).pending() == old(self).pending(),
            old(self).phase() is Sending && success_status(status) ==> final(self).phase() is Streaming,
            old(self).phase() is Sending && !success_status(status) ==> (final(self).phase() matches Phase::Failed(RelayError::Upstream(c)) && c == status),
            !(old(self).phase() is Sending) ==> final(self).phase() == old(self).phase(),
    {
        if let Phase::Sending = self.phase {
            if is_success_status(status) {
                self.phase = Phase::Streaming;
            } else {
                self.phase = Phase::Failed(RelayError::Upstream(status));
            }
        }
    }

    /// The transport failed, before a response or while reading the body. A
    /// relay that has not completed fails with `Network`; events already
    /// emitted stay emitted.
    pub fn on_transport_error(&mut self, message: String)
        requires
            old(self).wf(),
        ensures
            final(self).wf(),
            final(self).protocol() == old(self).protocol(),
            final(self).progress() == old(self).progress(),
            final(self).pending() == old(self).pending(),
            old(self).phase() is Sending || old(self).phase() is Streaming ==> (final(self).phase() matches Phase::Failed(RelayError::Network(m)) && m@ == message@),
            !(old(self).phase() is Sending || old(self).phase() is Streaming) ==> final(self).phase() == old(self).phase(),
    {
        match self.phase {
            Phase::Sending | Phase::Streaming => {
                self.phase = Phase::Failed(RelayError::Network(message));
            },
            _ => {},
        }
    }

    /// Handles one decoded fragment.
    fn apply_fragment(&mut self, frag: Fragment, events: &mut Vec<SinkEvent>)
        requires
            old(self).wf(),
            old(self).phase is Streaming,
        ensures
            final(self).wf(),
            final(self).protocol == old(self).protocol,
            final(self).pending@ == old(self).pending@,
            final(self).progress@ == apply(old(self).protocol, old(self).progress@, frag@),
            final(self).phase is Streaming || final(self).phase is Completed,
            emissions(final(events)@) == emissions(old(events)@) + final(self).progress@.emitted.subrange(
                old(self).progress@.emitted.len() as int,
                final(self).progress@.emitted.len() as int,
            ),
    {
        let ghost st = self.progress@;
        proof {
            lemma_apply_wf(self.protocol, st, frag@);
        }
        let t = if self.protocol.needs_sanitizing() {
            sanitize(frag.text.as_str())
        } else {
            frag.text
        };
        assert(t@ == surfaced(self.protocol, frag@));
        if !t.as_str().is_empty() {
            self.text.append(t.as_str());
            let ghost e = Emission::Chunk(t@);
            events.push(SinkEvent::Chunk(t));
            self.progress = Ghost(
                Progress {
                    emitted: self.progress@.emitted.push(e),
                    text: self.progress@.text + e->Chunk_0,
                    complete: false,
                },
            );
        }
        if frag.is_final {
            let ghost before = self.progress@;
            events.push(SinkEvent::Complete(self.text.clone()));
            self.progress = Ghost(
                Progress {
                    emitted: before.emitted.push(Emission::Complete(before.text)),
                    text: before.text,
                    complete: true,
                },
            );
            self.phase = Phase::Completed;
        }
        assert(emissions(events@) =~= emissions(old(events)@) + self.progress@.emitted.subrange(
            st.emitted.len() as int,
            self.progress@.emitted.len() as int,
        ));
    }

    /// Handles the pending bytes as one complete line and clears them.
    fn take_line(&mut self, events: &mut Vec<SinkEvent>)
        requires
            old(self).wf(),
            old(self).phase is Streaming || old(self).phase is Completed,
        ensures
            final(self).wf(),
            final(self).protocol == old(self).protocol,
            final(self).pending@.len() == 0,
            final(self).progress@ == step(old(self).protocol, old(self).progress@, old(self).pending@),
            final(self).phase is Streaming || final(self).phase is Completed,
            emissions(final(events)@) == emissions(old(events)@) + final(self).progress@.emitted.subrange(
                old(self).progress@.emitted.len() as int,
                final(self).progress@.emitted.len() as int,
            ),
    {
        let mut line: Vec<u8> = Vec::new();
        core::mem::swap(&mut line, &mut self.pending);
        assert(tail_of(self.pending@) == self.pending@);
        assert(lines_of(self.pending@) =~= Seq::<Seq<u8>>::empty());
        strip_cr(&mut line);
        let ghost st = self.progress@;
        if let Phase::Streaming = self.phase {
            match decode_line(self.protocol, line.as_slice()) {
                Some(frag) => {
                    self.apply_fragment(frag, events);
                },
                None => {
                    assert(emissions(events@) =~= emissions(old(events)@) + st.emitted.subrange(
                        st.emitted.len() as int,
                        st.emitted.len() as int,
                    ));
                },
            }
        } else {
            assert(emissions(events@) =~= emissions(old(events)@) + st.emitted.subrange(
                st.emitted.len() as int,
                st.emitted.len() as int,
            ));
        }
    }

    /// Takes the next chunk of the body. Its bytes join the line in progress;
    /// every line that a line feed ends is decoded and handled in order, and
    /// the events for them are returned, to be pushed to the sink in that
    /// order. A line split across chunks is handled once it is whole. After
    /// completion, or outside the streaming phase, a chunk changes nothing.
    pub fn feed(&mut self, chunk: &[u8]) -> (events: Vec<SinkEvent>)
        requires
            old(self).wf(),
        ensures
            final(self).wf(),
            final(self).protocol() == old(self).protocol(),
            old(self).phase() is Streaming ==> ({
                let st = run(
                    old(self).protocol(),
                    old(self).progress(),
                    lines_of(old(self).pending() + chunk@),
                );
                &&& final(self).progress() == st
                &&& final(self).pending() == tail_of(old(self).pending() + chunk@)
                &&& emissions(events@) == st.emitted.subrange(
                    old(self).progress().emitted.len() as int,
                    st.emitted.len() as int,
                )
                &&& (if st.complete {
                    final(self).phase() is Completed
                } else {
                    final(self).phase() is Streaming
                })
            }),
            !(old(self).phase() is Streaming) ==> *final(self) == *old(self) && events@.len() == 0,
    {
        let mut events: Vec<SinkEvent> = Vec::new();
        if !matches!(self.phase, Phase::Streaming) {
            return events;
        }
        let ghost start = self.pending@;
        let ghost st0 = self.progress@;
        assert(start + chunk@.subrange(0, 0) =~= start);
        let mut k: usize = 0;
        while k < chunk.len()
            invariant
                self.wf(),
                self.protocol == old(self).protocol,
                self.phase is Streaming || self.phase is Completed,
                k <= chunk@.len(),
                start == old(self).pending@,
                st0 == old(self).progress@,
                self.progress@ == run(self.protocol, st0, lines_of(start + chunk@.subrange(0, k as int))),
                self.pending@ == tail_of(start + chunk@.subrange(0, k as int)),
                st0.emitted.len() <= self.progress@.emitted.len(),
                self.progress@.emitted.subrange(0, st0.emitted.len() as int) == st0.emitted,
                emissions(events@) == self.progress@.emitted.subrange(
                    st0.emitted.len() as int,
                    self.progress@.emitted.len() as int,
                ),
            decreases chunk@.len() - k,
        {
            let b = chunk[k];
            let ghost seen = start + chunk@.subrange(0, k as int);
            proof {
                lemma_push_byte(seen, b);
                assert(seen.push(b) =~= start + chunk@.subrange(0, k + 1));
                assert(lines_of(seen).push(tail_of(seen)).drop_last() =~= lines_of(seen));
            }
            let ghost before = self.progress@;
            if b == NEWLINE {
                self.take_line(&mut events);
                proof {
                    lemma_step_wf(self.protocol, before, tail_of(seen));
                    assert(self.progress@.emitted.subrange(0, before.emitted.len() as int)
                        == before.emitted);
                    assert(self.progress@.emitted.subrange(0, st0.emitted.len() as int) =~= st0.emitted);
                    assert(emissions(events@) =~= self.progress@.emitted.subrange(
                        st0.emitted.len() as int,
                        self.progress@.emitted.len() as int,
                    ));
                }
            } else {
                self.pending.push(b);
                proof {
                    lemma_tail_settled(seen.push(b));
                }
            }
            k += 1;
        }
        assert(chunk@.subrange(0, chunk@.len() as int) =~= chunk@);
        events
    }

    /// The body has ended. An unterminated last line is handled as a line;
    /// then a relay still streaming completes with the text it has, emitting
    /// `translation_complete`. Outside the streaming phase nothing changes.
    pub fn finish(&mut self) -> (events: Vec<SinkEvent>)
        requires
            old(self).wf(),
        ensures
            final(self).wf(),
            final(self).protocol() == old(self).protocol(),
            old(self).phase() is Streaming ==> ({
                let st = finished(old(self).protocol(), old(self).progress(), old(self).pending());
                &&& final(self).progress() == st
                &&& final(self).phase() is Completed
                &&& emissions(events@) == st.emitted.subrange(
                    old(self).progress().emitted.len() as int,
                    st.emitted.len() as int,
                )
            }),
            !(old(self).phase() is Streaming) ==> *final(self) == *old(self) && events@.len() == 0,
    {
        let mut events: Vec<SinkEvent> = Vec::new();
        if !matches!(self.phase, Phase::Streaming) {
            return events;
        }
        let ghost st0 = self.progress@;
        assert(emissions(events@) =~= seq![]);
        if self.pending.len() > 0 {
            self.take_line(&mut events);
            proof {
                lemma_step_wf(self.protocol, st0, old(self).pending@);
                assert(emissions(events@) =~= self.progress@.emitted.subrange(
                    st0.emitted.len() as int,
                    self.progress@.emitted.len() as int,
                ));
            }
        } else {
            assert(st0.emitted.subrange(st0.emitted.len() as int, st0.emitted.len() as int) =~= seq![]);
        }
        if let Phase::Streaming = self.phase {
            let ghost before = self.progress@;
            let ghost ev0 = emissions(events@);
            assert(ev0 == before.emitted.subrange(st0.emitted.len() as int, before.emitted.len() as int));
            events.push(SinkEvent::Complete(self.text.clone()));
            assert(emissions(events@) =~= ev0.push(Emission::Complete(before.text)));
            self.progress = Ghost(
                Progress {
                    emitted: before.emitted.push(Emission::Complete(before.text)),
                    text: before.text,
                    complete: true,
                },
            );
            self.phase = Phase::Completed;
            proof {
                assert(self.progress@.emitted.drop_last() =~= before.emitted);
            }
            assert(emissions(events@) =~= self.progress@.emitted.subrange(
                st0.emitted.len() as int,
                self.progress@.emitted.len() as int,
            ));
        }
        events
    }

    /// How the relay resolved: the final text once completed, the error once
    /// failed, `None` while it is still sending or streaming.
    pub fn outcome(&self) -> (r: Option<Result<String, RelayError>>)
        requires
            self.wf(),
        ensures
            self.phase() is Completed ==> (r matches Some(Ok(t)) && t@ == self.progress().text),
            self.phase() matches Phase::Failed(e) ==> (r matches Some(Err(e2)) && same_error(e2, e)),
            self.phase() is Sending || self.phase() is Streaming ==> r is None,
    {
        match &self.phase {
            Phase::Completed => Some(Ok(self.text.clone())),
            Phase::Failed(e) => Some(Err(e.duplicate())),
            _ => None,
        }
    }
}

} // verus!
