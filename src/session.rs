//! One session: its frame store, both detectors and the clip-boundary state machine,
//! driven one frame at a time in arrival order.
use vstd::prelude::*;
use crate::decoder::{calculate_amplitude, peak_amplitude, lemma_peak_bounds};
use crate::detector::{
    SlidingWindowDetector, Trigger, observe_step, SPEECH_AMPLITUDE_THRESHOLD, SPEECH_WINDOW_SIZE,
    PAUSE_AMPLITUDE_THRESHOLD, PAUSE_WINDOW_SIZE,
};
use crate::machine::{
    ClipStateMachine, ClipRange, FrameSignal, MachineModel, AudioState, machine_step, initial_model,
    model_wf, machine_run, machine_emitted,
};
use crate::store::{FrameStore, retained};

verus! {

/// The mathematical state of a session.
pub struct SessionModel {
    pub frames: Map<i32, Seq<u8>>,
    pub speech_window: Seq<i16>,
    pub pause_window: Seq<i16>,
    pub machine: MachineModel,
}

pub open spec fn initial_session() -> SessionModel {
    SessionModel {
        frames: Map::empty(),
        speech_window: Seq::empty(),
        pause_window: Seq::empty(),
        machine: initial_model(),
    }
}

/// Windows within their capacities and a well-formed machine.
pub open spec fn session_wf(s: SessionModel) -> bool {
    &&& s.speech_window.len() <= SPEECH_WINDOW_SIZE
    &&& s.pause_window.len() <= PAUSE_WINDOW_SIZE
    &&& model_wf(s.machine)
}

/// The speech detector's answer and window after one amplitude.
pub open spec fn speech_step(window: Seq<i16>, amplitude: i16) -> (bool, Seq<i16>) {
    observe_step(
        window,
        SPEECH_WINDOW_SIZE as nat,
        SPEECH_WINDOW_SIZE as nat,
        Trigger::Above(SPEECH_AMPLITUDE_THRESHOLD),
        amplitude,
    )
}

/// The pause detector's answer and window after one amplitude.
pub open spec fn pause_step(window: Seq<i16>, amplitude: i16) -> (bool, Seq<i16>) {
    observe_step(
        window,
        PAUSE_WINDOW_SIZE as nat,
        PAUSE_WINDOW_SIZE as nat,
        Trigger::Below(PAUSE_AMPLITUDE_THRESHOLD),
        amplitude,
    )
}

/// One frame: its payload is stored, its peak amplitude feeds both detectors, and their
/// answers feed the state machine, which may hand out a range to assemble.
pub open spec fn session_step(s: SessionModel, sequence: i32, payload: Seq<u8>) -> (
    SessionModel,
    Option<ClipRange>,
) {
    let amplitude = peak_amplitude(payload) as i16;
    let (speech, speech_window) = speech_step(s.speech_window, amplitude);
    let (pause, pause_window) = pause_step(s.pause_window, amplitude);
    let (machine, range) = machine_step(s.machine, FrameSignal { speech, pause, sequence });
    (
        SessionModel { frames: s.frames.insert(sequence, payload), speech_window, pause_window, machine },
        range,
    )
}

pub struct Session {
    store: FrameStore,
    speech: SlidingWindowDetector,
    pause: SlidingWindowDetector,
    machine: ClipStateMachine,
}

impl View for Session {
    type V = SessionModel;

    closed spec fn view(&self) -> SessionModel {
        SessionModel {
            frames: self.store.frames(),
            speech_window: self.speech.window(),
            pause_window: self.pause.window(),
            machine: self.machine@,
        }
    }
}

impl Session {
    /// The detectors carry the speech and pause configurations, and every part is well formed.
    pub closed spec fn wf(&self) -> bool {
        &&& self.speech.wf()
        &&& self.speech.size() == SPEECH_WINDOW_SIZE
        &&& self.speech.required() == SPEECH_WINDOW_SIZE
        &&& self.speech.trigger() == Trigger::Above(SPEECH_AMPLITUDE_THRESHOLD)
        &&& self.pause.wf()
        &&& self.pause.size() == PAUSE_WINDOW_SIZE
        &&& self.pause.required() == PAUSE_WINDOW_SIZE
        &&& self.pause.trigger() == Trigger::Below(PAUSE_AMPLITUDE_THRESHOLD)
        &&& self.machine.wf()
        &&& self.store.wf()
    }

    /// A well-formed session has a well-formed model.
    pub proof fn lemma_wf_model(&self)
        requires
            self.wf(),
        ensures
            session_wf(self@),
    {
    }

    pub fn new() -> (s: Self)
        ensures
            s.wf(),
            s@ == initial_session(),
    {
        Session {
            store: FrameStore::new(),
            speech: SlidingWindowDetector::speech(),
            pause: SlidingWindowDetector::pause(),
            machine: ClipStateMachine::new(),
        }
    }

    pub fn store(&self) -> (r: &FrameStore)
        ensures
            r.frames() == self@.frames,
    {
        &self.store
    }

    pub fn state(&self) -> (r: AudioState)
        ensures
            r == self@.machine.state,
    {
        self.machine.state()
    }

    pub fn clip_start(&self) -> (r: Option<i32>)
        ensures
            r == self@.machine.clip_start,
    {
        self.machine.clip_start()
    }

    /// Feeds the speech detector one amplitude.
    pub fn speach_detection(&mut self, amplitude: i16) -> (detected: bool)
        requires
            old(self).wf(),
        ensures
            final(self).wf(),
            session_wf(final(self)@),
            (detected, final(self)@.speech_window) == speech_step(old(self)@.speech_window, amplitude),
            final(self)@ == (SessionModel { speech_window: final(self)@.speech_window, ..old(self)@ }),
    {
        self.speech.observe(amplitude)
    }

    /// Feeds the pause detector one amplitude.
    pub fn pause_detection(&mut self, amplitude: i16) -> (detected: bool)
        requires
            old(self).wf(),
        ensures
            final(self).wf(),
            session_wf(final(self)@),
            (detected, final(self)@.pause_window) == pause_step(old(self)@.pause_window, amplitude),
            final(self)@ == (SessionModel { pause_window: final(self)@.pause_window, ..old(self)@ }),
    {
        self.pause.observe(amplitude)
    }

    /// Processes one frame in arrival order; returns the range of a clip to assemble
    /// when this frame closes one.
    pub fn process_frame(&mut self, sequence_number: i32, payload: Vec<u8>) -> (r: Option<ClipRange>)
        requires
            old(self).wf(),
        ensures
            final(self).wf(),
            session_wf(final(self)@),
            (final(self)@, r) == session_step(old(self)@, sequence_number, payload@),
    {
        let amplitude: i16 = calculate_amplitude(payload.as_slice());
        proof {
            lemma_peak_bounds(payload@);
        }
        self.store.insert_message(sequence_number, payload);
        let pause_detected = self.pause_detection(amplitude);
        let speech_detected = self.speach_detection(amplitude);
        self.machine.on_frame(speech_detected, pause_detected, sequence_number)
    }

    /// Discards the frames that no clip can reach any more. An open clip reaches back to
    /// its start; with no clip open, the next clip starts at a frame still to come, so
    /// nothing stored is needed. Call it once the range handed out by the last frame,
    /// if any, has been gathered.
    pub fn discard_unreachable(&mut self)
        requires
            old(self).wf(),
        ensures
            final(self).wf(),
            final(self)@ == (SessionModel {
                frames: match old(self)@.machine.clip_start {
                    Some(start) => retained(old(self)@.frames, start),
                    None => Map::empty(),
                },
                ..old(self)@
            }),
    {
        match self.machine.clip_start() {
            Some(start) => self.store.discard_before(start),
            None => self.store.clear(),
        }
    }
}

/// A frame of an arrival stream shared by two sessions, tagged with the session it belongs to.
pub struct TaggedFrame {
    pub to_first: bool,
    pub sequence: i32,
    pub payload: Seq<u8>,
}

/// The frames of the stream that belong to the first session (`first`) or to the second.
pub open spec fn frames_for(stream: Seq<TaggedFrame>, first: bool) -> Seq<(i32, Seq<u8>)>
    decreases stream.len(),
{
    if stream.len() == 0 {
        Seq::empty()
    } else {
        let before = frames_for(stream.drop_last(), first);
        if stream.last().to_first == first {
            before.push((stream.last().sequence, stream.last().payload))
        } else {
            before
        }
    }
}

/// Appends a handed-out range, if any.
pub open spec fn push_range(out: Seq<ClipRange>, range: Option<ClipRange>) -> Seq<ClipRange> {
    match range {
        Some(r) => out.push(r),
        None => out,
    }
}

/// The session after processing `frames` in order.
pub open spec fn session_run(s: SessionModel, frames: Seq<(i32, Seq<u8>)>) -> SessionModel
    decreases frames.len(),
{
    if frames.len() == 0 {
        s
    } else {
        session_step(session_run(s, frames.drop_last()), frames.last().0, frames.last().1).0
    }
}

/// The ranges a session hands out while processing `frames` in order.
pub open spec fn session_emitted(s: SessionModel, frames: Seq<(i32, Seq<u8>)>) -> Seq<ClipRange>
    decreases frames.len(),
{
    if frames.len() == 0 {
        Seq::empty()
    } else {
        push_range(
            session_emitted(s, frames.drop_last()),
            session_step(session_run(s, frames.drop_last()), frames.last().0, frames.last().1).1,
        )
    }
}

/// Two sessions fed one interleaved stream, each frame going to the session it is
/// tagged for: both sessions' final states and the ranges each handed out.
pub open spec fn pair_run(a: SessionModel, b: SessionModel, stream: Seq<TaggedFrame>) -> (
    SessionModel,
    SessionModel,
    Seq<ClipRange>,
    Seq<ClipRange>,
)
    decreases stream.len(),
{
    if stream.len() == 0 {
        (a, b, Seq::empty(), Seq::empty())
    } else {
        let (x, y, out_x, out_y) = pair_run(a, b, stream.drop_last());
        let f = stream.last();
        if f.to_first {
            let (x2, r) = session_step(x, f.sequence, f.payload);
            (x2, y, push_range(out_x, r), out_y)
        } else {
            let (y2, r) = session_step(y, f.sequence, f.payload);
            (x, y2, out_x, push_range(out_y, r))
        }
    }
}

/// Sessions do not influence each other: however the frames of two sessions are
/// interleaved, each session ends in the state, and hands out the ranges, that its own
/// frames alone produce.
pub proof fn lemma_sessions_isolated(a: SessionModel, b: SessionModel, stream: Seq<TaggedFrame>)
    ensures
        pair_run(a, b, stream) == (
            session_run(a, frames_for(stream, true)),
            session_run(b, frames_for(stream, false)),
            session_emitted(a, frames_for(stream, true)),
            session_emitted(b, frames_for(stream, false)),
        ),
    decreases stream.len(),
{
    if stream.len() > 0 {
        let prev = stream.drop_last();
        lemma_sessions_isolated(a, b, prev);
        let f = stream.last();
        let own = frames_for(prev, f.to_first);
        assert(own.push((f.sequence, f.payload)).drop_last() =~= own);
    }
}

/// The detectors' answers that a session hands its state machine for each of `frames`.
pub open spec fn session_signals(s: SessionModel, frames: Seq<(i32, Seq<u8>)>) -> Seq<FrameSignal>
    decreases frames.len(),
{
    if frames.len() == 0 {
        Seq::empty()
    } else {
        let before = session_run(s, frames.drop_last());
        let amplitude = peak_amplitude(frames.last().1) as i16;
        session_signals(s, frames.drop_last()).push(
            FrameSignal {
                speech: speech_step(before.speech_window, amplitude).0,
                pause: pause_step(before.pause_window, amplitude).0,
                sequence: frames.last().0,
            },
        )
    }
}

/// Processing frames drives the state machine with the detectors' answers to them: the
/// session's machine state and the ranges it hands out are those of the machine run on
/// those answers, so every law of the machine holds of a stream of processed frames.
pub proof fn lemma_session_drives_machine(s: SessionModel, frames: Seq<(i32, Seq<u8>)>)
    ensures
        session_run(s, frames).machine == machine_run(s.machine, session_signals(s, frames)),
        session_emitted(s, frames) == machine_emitted(s.machine, session_signals(s, frames)),
        session_signals(s, frames).len() == frames.len(),
        forall|k: int|
            0 <= k < frames.len() ==> (#[trigger] session_signals(s, frames)[k]).sequence
                == frames[k].0,
    decreases frames.len(),
{
    if frames.len() > 0 {
        lemma_session_drives_machine(s, frames.drop_last());
        let sig = session_signals(s, frames);
        let prev = session_signals(s, frames.drop_last());
        assert(sig.drop_last() =~= prev);
        assert forall|k: int| 0 <= k < frames.len() implies (#[trigger] sig[k]).sequence == frames[k].0 by {
            if k < frames.len() - 1 {
                assert(sig[k] == prev[k]);
                assert(frames.drop_last()[k] == frames[k]);
            }
        }
    }
}

/// From Idle with no progress, five processed frames on each of which the speech
/// detector fires open a clip at the fifth frame's sequence number; four do not.
pub proof fn lemma_session_speech_opens_clip(s: SessionModel, frames: Seq<(i32, Seq<u8>)>)
    requires
        session_wf(s),
        s.machine.state == AudioState::Idle,
        s.machine.speech_count == 0,
        frames.len() == 5,
        forall|k: int| 0 <= k < 5 ==> (#[trigger] session_signals(s, frames)[k]).speech,
    ensures
        session_run(s, frames.drop_last()).machine.state == AudioState::Idle,
        session_run(s, frames).machine.state == AudioState::InSpeech,
        session_run(s, frames).machine.clip_start == Some(frames[4].0),
        session_emitted(s, frames) == Seq::<ClipRange>::empty(),
{
    lemma_session_drives_machine(s, frames);
    lemma_session_drives_machine(s, frames.drop_last());
    let sig = session_signals(s, frames);
    assert(sig.drop_last() =~= session_signals(s, frames.drop_last()));
    crate::machine::lemma_speech_opens_clip(s.machine, sig);
}

/// From InSpeech with no pause progress, three processed frames on each of which the
/// pause detector fires enter PostSpeech; the next frame on which either detector fires
/// hands out the range from the clip start to its sequence number and returns to Idle.
pub proof fn lemma_session_pause_closes_clip(s: SessionModel, frames: Seq<(i32, Seq<u8>)>)
    requires
        session_wf(s),
        s.machine.state == AudioState::InSpeech,
        s.machine.pause_count == 0,
        frames.len() == 4,
        forall|k: int| 0 <= k < 3 ==> (#[trigger] session_signals(s, frames)[k]).pause,
        session_signals(s, frames)[3].speech || session_signals(s, frames)[3].pause,
    ensures
        session_run(s, frames.drop_last()).machine.state == AudioState::PostSpeech,
        session_emitted(s, frames.drop_last()) == Seq::<ClipRange>::empty(),
        session_run(s, frames).machine.state == AudioState::Idle,
        session_run(s, frames).machine.clip_start == None::<i32>,
        session_emitted(s, frames) == seq![
            ClipRange { start: s.machine.clip_start.unwrap(), end: frames[3].0 },
        ],
{
    lemma_session_drives_machine(s, frames);
    lemma_session_drives_machine(s, frames.drop_last());
    let sig = session_signals(s, frames);
    let first = session_signals(s, frames.drop_last());
    assert(sig.drop_last() =~= first);
    assert(first.push(sig[3]) =~= sig);
    crate::machine::lemma_pause_closes_clip(s.machine, first, sig[3]);
}

} // verus!
