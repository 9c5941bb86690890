//! Assembly of a finished clip: its payloads are gathered from the frame store and
//! joined into one buffer, which is then written and handed to the converter.
use vstd::prelude::*;
use crate::store::{FrameStore, range_payloads};

verus! {

/// The payloads joined end to end, in order.
pub open spec fn joined(parts: Seq<Seq<u8>>) -> Seq<u8>
    decreases parts.len(),
{
    if parts.len() == 0 {
        Seq::empty()
    } else {
        joined(parts.drop_last()) + parts.last()
    }
}

/// A clip ready to be written: its identifier is the ending sequence number.
pub struct ClipJob {
    pub clip_id: i32,
    pub audio: Vec<u8>,
}

/// Joins the payloads of a batch, in order, into the buffer of the clip that ends at
/// `last_sequence`.
pub fn process_audio_batch(batch: &Vec<Vec<u8>>, last_sequence: i32) -> (job: ClipJob)
    ensures
        job.clip_id == last_sequence,
        job.audio@ == joined(batch.deep_view()),
{
    let mut audio: Vec<u8> = Vec::new();
    let mut i: usize = 0;
    while i < batch.len()
        invariant
            i <= batch@.len(),
            audio@ == joined(batch.deep_view().subrange(0, i as int)),
        decreases batch@.len() - i,
    {
        let part: &Vec<u8> = &batch[i];
        let ghost before = audio@;
        let mut j: usize = 0;
        while j < part.len()
            invariant
                j <= part@.len(),
                audio@ == before + part@.subrange(0, j as int),
            decreases part@.len() - j,
        {
            audio.push(part[j]);
            proof {
                assert(audio@ =~= before + part@.subrange(0, j + 1));
            }
            j = j + 1;
        }
        proof {
            assert(part@.subrange(0, part@.len() as int) =~= part@);
            let dv = batch.deep_view();
            assert(dv.subrange(0, i + 1).drop_last() =~= dv.subrange(0, i as int));
            assert(dv[i as int] =~= part@);
        }
        i = i + 1;
    }
    proof {
        assert(batch.deep_view().subrange(0, batch@.len() as int) =~= batch.deep_view());
    }
    ClipJob { clip_id: last_sequence, audio }
}

/// Gathers the clip `[start_sequence, end_sequence]` from the store. When no frame of
/// the range is stored there is nothing to write or convert, and the result is `None`.
pub fn process_audio_clip(store: &FrameStore, start_sequence: i32, end_sequence: i32) -> (job:
    Option<ClipJob>)
    ensures
        range_payloads(store.frames(), start_sequence as int, end_sequence as int).len() == 0
            <==> job is None,
        job matches Some(j) ==> j.clip_id == end_sequence && j.audio@ == joined(
            range_payloads(store.frames(), start_sequence as int, end_sequence as int),
        ),
{
    let batch = store.range_lookup(start_sequence, end_sequence);
    if batch.len() == 0 {
        None
    } else {
        Some(process_audio_batch(&batch, end_sequence))
    }
}

/// What the converter's caller reports back about one clip.
#[derive(Clone, Copy, Debug, PartialEq, Eq, Structural)]
pub enum AssemblyEvent {
    /// The joined buffer was written (`true`) or the write failed (`false`).
    Written(bool),
    /// The converter succeeded (`true`) or failed (`false`).
    Converted(bool),
}

/// What to do next with a clip.
#[derive(Clone, Copy, Debug, PartialEq, Eq, Structural)]
pub enum AssemblyAction {
    /// Run the converter on the written buffer.
    Convert,
    /// The clip is converted: remove the intermediate buffer.
    RemoveIntermediate,
    /// Give up on this clip; keep the intermediate buffer for inspection when it exists.
    Abort { keep_intermediate: bool },
}

/// The next step of a clip's assembly: convert after a successful write, remove the
/// intermediate buffer after a successful conversion, and otherwise abort, keeping the
/// buffer only when it was written.
pub fn next_assembly_action(event: AssemblyEvent) -> (action: AssemblyAction)
    ensures
        action == match event {
            AssemblyEvent::Written(true) => AssemblyAction::Convert,
            AssemblyEvent::Written(false) => AssemblyAction::Abort { keep_intermediate: false },
            AssemblyEvent::Converted(true) => AssemblyAction::RemoveIntermediate,
            AssemblyEvent::Converted(false) => AssemblyAction::Abort { keep_intermediate: true },
        },
{
    match event {
        AssemblyEvent::Written(ok) => {
            if ok {
                AssemblyAction::Convert
            } else {
                AssemblyAction::Abort { keep_intermediate: false }
            }
        },
        AssemblyEvent::Converted(ok) => {
            if ok {
                AssemblyAction::RemoveIntermediate
            } else {
                AssemblyAction::Abort { keep_intermediate: true }
            }
        },
    }
}

} // verus!
