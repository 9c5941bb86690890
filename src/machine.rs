//! The clip-boundary state machine: Idle, InSpeech and PostSpeech, driven by the
//! detectors' answers for each frame.
use vstd::prelude::*;

verus! {

/// Detections in a row, in Idle, that open a clip.
pub const MIN_CONSECUTIVE_SPEECH_COUNT: usize = 5;

/// Detections in a row, in InSpeech, that close a clip.
pub const MIN_CONSECUTIVE_PAUSE_COUNT: usize = 3;

#[derive(Clone, Copy, Debug, PartialEq, Eq, Structural)]
pub enum AudioState {
    Idle,
    InSpeech,
    PostSpeech,
}

/// An inclusive range of sequence numbers that holds one utterance.
#[derive(Clone, Copy, Debug, PartialEq, Eq, Structural)]
pub struct ClipRange {
    pub start: i32,
    pub end: i32,
}

/// Frames by which the detectors' latency may displace a clip's true boundaries.
pub const OFFSET: i32 = 10;

impl ClipRange {
    /// The range widened by `offset` frames on both sides, clamped to the range of `i32`.
    /// The detectors fire only once a window has filled, so an utterance may begin
    /// before the reported start and end after the reported end; assembly uses the
    /// range as reported, and this estimate is offered for callers that want it.
    pub fn widened(self, offset: u32) -> (r: ClipRange)
        ensures
            r.start == if self.start - offset < i32::MIN {
                i32::MIN as int
            } else {
                self.start - offset
            },
            r.end == if self.end + offset > i32::MAX {
                i32::MAX as int
            } else {
                self.end + offset
            },
    {
        let start: i64 = self.start as i64 - offset as i64;
        let end: i64 = self.end as i64 + offset as i64;
        ClipRange {
            start: if start < i32::MIN as i64 {
                i32::MIN
            } else {
                start as i32
            },
            end: if end > i32::MAX as i64 {
                i32::MAX
            } else {
                end as i32
            },
        }
    }
}

/// The detectors' answers for one frame, with its sequence number.
pub struct FrameSignal {
    pub speech: bool,
    pub pause: bool,
    pub sequence: i32,
}

/// The mathematical state of the machine.
pub struct MachineModel {
    pub state: AudioState,
    pub speech_count: nat,
    pub pause_count: nat,
    pub clip_start: Option<i32>,
}

/// The state of a fresh machine.
pub open spec fn initial_model() -> MachineModel {
    MachineModel { state: AudioState::Idle, speech_count: 0, pause_count: 0, clip_start: None }
}

/// A clip start is held exactly outside Idle, and neither counter has reached its limit.
pub open spec fn model_wf(m: MachineModel) -> bool {
    &&& (m.state == AudioState::Idle) == (m.clip_start is None)
    &&& m.speech_count < MIN_CONSECUTIVE_SPEECH_COUNT
    &&& m.pause_count < MIN_CONSECUTIVE_PAUSE_COUNT
}

/// One frame: the new state and, on leaving PostSpeech, the range to assemble.
/// A frame on which neither detector fired is not evaluated and changes nothing.
pub open spec fn machine_step(m: MachineModel, f: FrameSignal) -> (MachineModel, Option<ClipRange>) {
    if !(f.speech || f.pause) {
        (m, None)
    } else {
        match m.state {
            AudioState::Idle => {
                if f.speech {
                    if m.speech_count + 1 >= MIN_CONSECUTIVE_SPEECH_COUNT {
                        (
                            MachineModel {
                                state: AudioState::InSpeech,
                                speech_count: 0,
                                clip_start: Some(f.sequence),
                                ..m
                            },
                            None,
                        )
                    } else {
                        (MachineModel { speech_count: m.speech_count + 1, ..m }, None)
                    }
                } else {
                    (MachineModel { speech_count: 0, ..m }, None)
                }
            },
            AudioState::InSpeech => {
                if f.pause {
                    if m.pause_count + 1 >= MIN_CONSECUTIVE_PAUSE_COUNT {
                        (MachineModel { state: AudioState::PostSpeech, pause_count: 0, ..m }, None)
                    } else {
                        (MachineModel { pause_count: m.pause_count + 1, ..m }, None)
                    }
                } else {
                    (MachineModel { pause_count: 0, ..m }, None)
                }
            },
            AudioState::PostSpeech => {
                (
                    MachineModel { state: AudioState::Idle, clip_start: None, ..m },
                    match m.clip_start {
                        Some(start) => Some(ClipRange { start, end: f.sequence }),
                        None => None,
                    },
                )
            },
        }
    }
}

/// The state after the frames `fs`, in order.
pub open spec fn machine_run(m: MachineModel, fs: Seq<FrameSignal>) -> MachineModel
    decreases fs.len(),
{
    if fs.len() == 0 {
        m
    } else {
        machine_step(machine_run(m, fs.drop_last()), fs.last()).0
    }
}

/// The ranges handed out while the frames `fs` are processed, in order.
pub open spec fn machine_emitted(m: MachineModel, fs: Seq<FrameSignal>) -> Seq<ClipRange>
    decreases fs.len(),
{
    if fs.len() == 0 {
        Seq::empty()
    } else {
        let prev = machine_emitted(m, fs.drop_last());
        match machine_step(machine_run(m, fs.drop_last()), fs.last()).1 {
            Some(r) => prev.push(r),
            None => prev,
        }
    }
}

pub struct ClipStateMachine {
    state: AudioState,
    speech_count: usize,
    pause_count: usize,
    clip_start: Option<i32>,
}

impl View for ClipStateMachine {
    type V = MachineModel;

    closed spec fn view(&self) -> MachineModel {
        MachineModel {
            state: self.state,
            speech_count: self.speech_count as nat,
            pause_count: self.pause_count as nat,
            clip_start: self.clip_start,
        }
    }
}

impl ClipStateMachine {
    pub open spec fn wf(&self) -> bool {
        model_wf(self@)
    }

    pub fn new() -> (m: Self)
        ensures
            m.wf(),
            m@ == initial_model(),
    {
        ClipStateMachine { state: AudioState::Idle, speech_count: 0, pause_count: 0, clip_start: None }
    }

    pub fn state(&self) -> (s: AudioState)
        ensures
            s == self@.state,
    {
        self.state
    }

    pub fn clip_start(&self) -> (s: Option<i32>)
        ensures
            s == self@.clip_start,
    {
        self.clip_start
    }

    /// Evaluates one frame's detector answers, when either fired, and returns the
    /// range to assemble when the frame closes PostSpeech.
    pub fn on_frame(&mut self, speech_detected: bool, pause_detected: bool, sequence: i32) -> (r:
        Option<ClipRange>)
        requires
            old(self).wf(),
        ensures
            final(self).wf(),
            (final(self)@, r) == machine_step(
                old(self)@,
                FrameSignal { speech: speech_detected, pause: pause_detected, sequence },
            ),
    {
        if !(speech_detected || pause_detected) {
            return None;
        }
        match self.state {
            AudioState::Idle => {
                if speech_detected {
                    self.speech_count = self.speech_count + 1;
                    if self.speech_count >= MIN_CONSECUTIVE_SPEECH_COUNT {
                        self.state = AudioState::InSpeech;
                        self.clip_start = Some(sequence);
                        self.speech_count = 0;
                    }
                } else {
                    self.speech_count = 0;
                }
                None
            },
            AudioState::InSpeech => {
                if pause_detected {
                    self.pause_count = self.pause_count + 1;
                    if self.pause_count >= MIN_CONSECUTIVE_PAUSE_COUNT {
                        self.state = AudioState::PostSpeech;
                        self.pause_count = 0;
                    }
                } else {
                    self.pause_count = 0;
                }
                None
            },
            AudioState::PostSpeech => {
                let r = match self.clip_start {
                    Some(start) => Some(ClipRange { start, end: sequence }),
                    None => None,
                };
                self.state = AudioState::Idle;
                self.clip_start = None;
                r
            },
        }
    }
}

/// Up to four speech detections in a row from Idle with no progress leave the machine
/// in Idle, counting them; no range is handed out.
pub proof fn lemma_speech_run_counts(m: MachineModel, fs: Seq<FrameSignal>)
    requires
        model_wf(m),
        m.state == AudioState::Idle,
        m.speech_count == 0,
        fs.len() < MIN_CONSECUTIVE_SPEECH_COUNT,
        forall|k: int| 0 <= k < fs.len() ==> (#[trigger] fs[k]).speech,
    ensures
        machine_run(m, fs) == (MachineModel { speech_count: fs.len(), ..m }),
        machine_emitted(m, fs) == Seq::<ClipRange>::empty(),
    decreases fs.len(),
{
    if fs.len() > 0 {
        lemma_speech_run_counts(m, fs.drop_last());
    }
}

/// From Idle with no progress, five speech detections in a row open a clip at the
/// fifth frame's sequence number, and four do not.
pub proof fn lemma_speech_opens_clip(m: MachineModel, fs: Seq<FrameSignal>)
    requires
        model_wf(m),
        m.state == AudioState::Idle,
        m.speech_count == 0,
        fs.len() == MIN_CONSECUTIVE_SPEECH_COUNT,
        forall|k: int| 0 <= k < fs.len() ==> (#[trigger] fs[k]).speech,
    ensures
        machine_run(m, fs.drop_last()).state == AudioState::Idle,
        machine_run(m, fs).state == AudioState::InSpeech,
        machine_run(m, fs).clip_start == Some(fs[4].sequence),
        machine_run(m, fs).speech_count == 0,
        machine_emitted(m, fs) == Seq::<ClipRange>::empty(),
{
    lemma_speech_run_counts(m, fs.drop_last());
}

/// A frame evaluated in Idle without a speech detection wipes out the progress made:
/// the machine is back where it was before the run of detections.
pub proof fn lemma_speech_miss_resets(m: MachineModel, fs: Seq<FrameSignal>)
    requires
        model_wf(m),
        m.state == AudioState::Idle,
        m.speech_count == 0,
        fs.len() >= 1,
        fs.len() <= MIN_CONSECUTIVE_SPEECH_COUNT,
        forall|k: int| 0 <= k < fs.len() - 1 ==> (#[trigger] fs[k]).speech,
        !fs.last().speech,
        fs.last().pause,
    ensures
        machine_run(m, fs) == m,
        machine_emitted(m, fs) == Seq::<ClipRange>::empty(),
{
    lemma_speech_run_counts(m, fs.drop_last());
}

/// From InSpeech with no pause progress, three pause detections in a row enter
/// PostSpeech; the next evaluated frame hands out the range from the clip start to its
/// own sequence number and returns to Idle with no clip start.
pub proof fn lemma_pause_closes_clip(m: MachineModel, fs: Seq<FrameSignal>, next: FrameSignal)
    requires
        model_wf(m),
        m.state == AudioState::InSpeech,
        m.pause_count == 0,
        fs.len() == MIN_CONSECUTIVE_PAUSE_COUNT,
        forall|k: int| 0 <= k < fs.len() ==> (#[trigger] fs[k]).pause,
        next.speech || next.pause,
    ensures
        machine_run(m, fs).state == AudioState::PostSpeech,
        machine_run(m, fs).clip_start == m.clip_start,
        machine_emitted(m, fs) == Seq::<ClipRange>::empty(),
        machine_run(m, fs.push(next)).state == AudioState::Idle,
        machine_run(m, fs.push(next)).clip_start == None::<i32>,
        machine_emitted(m, fs.push(next)) == seq![
            ClipRange { start: m.clip_start.unwrap(), end: next.sequence },
        ],
{
    let f2 = fs.drop_last();
    let f1 = f2.drop_last();
    let f0 = f1.drop_last();
    assert(f0.len() == 0);
    assert(machine_run(m, f0) == m);
    assert(machine_emitted(m, f0) == Seq::<ClipRange>::empty());
    assert(f1.last() == fs[0] && f2.last() == fs[1] && fs.last() == fs[2]);
    let m1 = machine_step(m, fs[0]).0;
    let m2 = machine_step(m1, fs[1]).0;
    assert(machine_run(m, f1) == m1);
    assert(machine_run(m, f2) == m2);
    assert(machine_run(m, fs) == machine_step(m2, fs[2]).0);
    assert(machine_emitted(m, f1) == Seq::<ClipRange>::empty());
    assert(machine_emitted(m, f2) == Seq::<ClipRange>::empty());
    assert(fs.push(next).drop_last() =~= fs);
}

} // verus!
