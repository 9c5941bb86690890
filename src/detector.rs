//! Bounded-window threshold detectors: one instance detects speech, another pauses.
use vstd::prelude::*;

verus! {

/// Amplitude above which a frame counts toward speech.
pub const SPEECH_AMPLITUDE_THRESHOLD: i16 = 5000;

/// Number of frames the speech detector keeps, and needs, to fire.
pub const SPEECH_WINDOW_SIZE: usize = 5;

/// Amplitude below which a frame counts toward a pause.
pub const PAUSE_AMPLITUDE_THRESHOLD: i16 = 2000;

/// Number of frames the pause detector keeps, and needs, to fire.
pub const PAUSE_WINDOW_SIZE: usize = 15;

/// Which amplitudes count toward a detection.
#[derive(Clone, Copy, Debug)]
pub enum Trigger {
    /// Amplitudes strictly above the threshold qualify.
    Above(i16),
    /// Amplitudes strictly below the threshold qualify.
    Below(i16),
}

pub open spec fn qualifies(trigger: Trigger, amplitude: i16) -> bool {
    match trigger {
        Trigger::Above(t) => amplitude > t,
        Trigger::Below(t) => amplitude < t,
    }
}

/// Number of entries of `s` that satisfy the trigger.
pub open spec fn count_qualifying(s: Seq<i16>, trigger: Trigger) -> nat
    decreases s.len(),
{
    if s.len() == 0 {
        0
    } else {
        count_qualifying(s.drop_last(), trigger) + if qualifies(trigger, s.last()) {
            1nat
        } else {
            0nat
        }
    }
}

/// The window after one push: the oldest entry leaves once the window is over capacity.
pub open spec fn pushed_window(window: Seq<i16>, size: nat, amplitude: i16) -> Seq<i16> {
    let w = window.push(amplitude);
    if w.len() > size {
        w.drop_first()
    } else {
        w
    }
}

/// Outcome of one observation: whether the detector fires, and the window it leaves.
/// Firing clears the window.
pub open spec fn observe_step(
    window: Seq<i16>,
    size: nat,
    required: nat,
    trigger: Trigger,
    amplitude: i16,
) -> (bool, Seq<i16>) {
    let w = pushed_window(window, size, amplitude);
    if count_qualifying(w, trigger) >= required {
        (true, Seq::empty())
    } else {
        (false, w)
    }
}

/// The window after observing `values` in order, starting from `window`.
pub open spec fn window_after(
    window: Seq<i16>,
    size: nat,
    required: nat,
    trigger: Trigger,
    values: Seq<i16>,
) -> Seq<i16>
    decreases values.len(),
{
    if values.len() == 0 {
        window
    } else {
        observe_step(
            window_after(window, size, required, trigger, values.drop_last()),
            size,
            required,
            trigger,
            values.last(),
        ).1
    }
}

/// What the detector answers to each of `values` in order, starting from `window`.
pub open spec fn outputs(
    window: Seq<i16>,
    size: nat,
    required: nat,
    trigger: Trigger,
    values: Seq<i16>,
) -> Seq<bool>
    decreases values.len(),
{
    if values.len() == 0 {
        Seq::empty()
    } else {
        outputs(window, size, required, trigger, values.drop_last()).push(
            observe_step(
                window_after(window, size, required, trigger, values.drop_last()),
                size,
                required,
                trigger,
                values.last(),
            ).0,
        )
    }
}

/// A detector over the most recent `window_size` amplitudes.
pub struct SlidingWindowDetector {
    window: Vec<i16>,
    window_size: usize,
    required_count: usize,
    trigger: Trigger,
}

impl SlidingWindowDetector {
    pub closed spec fn window(&self) -> Seq<i16> {
        self.window@
    }

    pub closed spec fn size(&self) -> nat {
        self.window_size as nat
    }

    pub closed spec fn required(&self) -> nat {
        self.required_count as nat
    }

    pub closed spec fn trigger(&self) -> Trigger {
        self.trigger
    }

    /// The window never holds more than `window_size` entries.
    pub open spec fn wf(&self) -> bool {
        self.window().len() <= self.size()
    }

    pub fn new(window_size: usize, required_count: usize, trigger: Trigger) -> (d: Self)
        ensures
            d.wf(),
            d.window() == Seq::<i16>::empty(),
            d.size() == window_size,
            d.required() == required_count,
            d.trigger() == trigger,
    {
        SlidingWindowDetector { window: Vec::new(), window_size, required_count, trigger }
    }

    /// The speech detector: five frames in a row above the speech threshold.
    pub fn speech() -> (d: Self)
        ensures
            d.wf(),
            d.window() == Seq::<i16>::empty(),
            d.size() == SPEECH_WINDOW_SIZE,
            d.required() == SPEECH_WINDOW_SIZE,
            d.trigger() == Trigger::Above(SPEECH_AMPLITUDE_THRESHOLD),
    {
        Self::new(SPEECH_WINDOW_SIZE, SPEECH_WINDOW_SIZE, Trigger::Above(SPEECH_AMPLITUDE_THRESHOLD))
    }

    /// The pause detector: fifteen frames in a row below the pause threshold.
    pub fn pause() -> (d: Self)
        ensures
            d.wf(),
            d.window() == Seq::<i16>::empty(),
            d.size() == PAUSE_WINDOW_SIZE,
            d.required() == PAUSE_WINDOW_SIZE,
            d.trigger() == Trigger::Below(PAUSE_AMPLITUDE_THRESHOLD),
    {
        Self::new(PAUSE_WINDOW_SIZE, PAUSE_WINDOW_SIZE, Trigger::Below(PAUSE_AMPLITUDE_THRESHOLD))
    }

    /// Pushes one amplitude, evicting the oldest when over capacity, and fires when
    /// at least `required_count` entries of the window qualify; firing clears the window.
    pub fn observe(&mut self, amplitude: i16) -> (detected: bool)
        requires
            old(self).wf(),
        ensures
            final(self).wf(),
            (detected, final(self).window()) == observe_step(
                old(self).window(),
                old(self).size(),
                old(self).required(),
                old(self).trigger(),
                amplitude,
            ),
            final(self).size() == old(self).size(),
            final(self).required() == old(self).required(),
            final(self).trigger() == old(self).trigger(),
    {
        self.window.push(amplitude);
        if self.window.len() > self.window_size {
            self.window.remove(0);
            proof {
                assert(self.window@ =~= old(self).window@.push(amplitude).drop_first());
            }
        }
        let mut count: usize = 0;
        let mut i: usize = 0;
        while i < self.window.len()
            invariant
                i <= self.window@.len(),
                self.window@ == pushed_window(old(self).window@, self.window_size as nat, amplitude),
                count == count_qualifying(self.window@.subrange(0, i as int), self.trigger),
                count <= i,
            decreases self.window@.len() - i,
        {
            proof {
                assert(self.window@.subrange(0, i + 1).drop_last() =~= self.window@.subrange(0, i as int));
            }
            let qualifying = match self.trigger {
                Trigger::Above(t) => self.window[i] > t,
                Trigger::Below(t) => self.window[i] < t,
            };
            if qualifying {
                count = count + 1;
            }
            i = i + 1;
        }
        proof {
            assert(self.window@.subrange(0, self.window@.len() as int) =~= self.window@);
        }
        if count >= self.required_count {
            self.window.clear();
            true
        } else {
            false
        }
    }
}

/// A window never holds more qualifying entries than entries.
pub proof fn lemma_count_at_most_len(s: Seq<i16>, trigger: Trigger)
    ensures
        count_qualifying(s, trigger) <= s.len(),
    decreases s.len(),
{
    if s.len() > 0 {
        lemma_count_at_most_len(s.drop_last(), trigger);
    }
}

/// In a sequence of which every entry qualifies, all entries count.
pub proof fn lemma_count_all_qualifying(s: Seq<i16>, trigger: Trigger)
    requires
        forall|k: int| 0 <= k < s.len() ==> qualifies(trigger, #[trigger] s[k]),
    ensures
        count_qualifying(s, trigger) == s.len(),
    decreases s.len(),
{
    if s.len() > 0 {
        lemma_count_all_qualifying(s.drop_last(), trigger);
    }
}

/// From an empty window that needs all of its `size` entries, fewer than `size`
/// values never fire and are all kept in the window, in order.
pub proof fn lemma_short_run_kept(size: nat, trigger: Trigger, values: Seq<i16>)
    requires
        values.len() < size,
    ensures
        window_after(Seq::empty(), size, size, trigger, values) == values,
        forall|k: int|
            0 <= k < values.len() ==> !#[trigger] outputs(Seq::empty(), size, size, trigger, values)[k],
        outputs(Seq::empty(), size, size, trigger, values).len() == values.len(),
    decreases values.len(),
{
    if values.len() > 0 {
        let prefix = values.drop_last();
        lemma_short_run_kept(size, trigger, prefix);
        assert(prefix.push(values.last()) =~= values);
        lemma_count_at_most_len(values, trigger);
        let o = outputs(Seq::empty(), size, size, trigger, values);
        let op = outputs(Seq::empty(), size, size, trigger, prefix);
        assert forall|k: int| 0 <= k < values.len() implies !#[trigger] o[k] by {
            if k < prefix.len() {
                assert(o[k] == op[k]);
            }
        }
    }
}

/// With `required_count == window_size`, feeding `window_size` qualifying values to an
/// empty detector fires on the last of them and on no earlier one, and clears the window.
pub proof fn lemma_full_run_fires_once(size: nat, trigger: Trigger, values: Seq<i16>)
    requires
        size >= 1,
        values.len() == size,
        forall|k: int| 0 <= k < values.len() ==> qualifies(trigger, #[trigger] values[k]),
    ensures
        outputs(Seq::empty(), size, size, trigger, values).len() == size,
        forall|k: int|
            0 <= k < size - 1 ==> !#[trigger] outputs(Seq::empty(), size, size, trigger, values)[k],
        outputs(Seq::empty(), size, size, trigger, values)[size - 1],
        window_after(Seq::empty(), size, size, trigger, values) == Seq::<i16>::empty(),
{
    let prefix = values.drop_last();
    lemma_short_run_kept(size, trigger, prefix);
    assert(prefix.push(values.last()) =~= values);
    lemma_count_all_qualifying(values, trigger);
    let o = outputs(Seq::empty(), size, size, trigger, values);
    let op = outputs(Seq::empty(), size, size, trigger, prefix);
    assert forall|k: int| 0 <= k < size - 1 implies !#[trigger] o[k] by {
        assert(o[k] == op[k]);
    }
}

/// With `required_count == window_size`, feeding an empty detector `required_count - 1`
/// qualifying values and then one that does not qualify never fires.
pub proof fn lemma_broken_run_never_fires(size: nat, trigger: Trigger, values: Seq<i16>)
    requires
        size >= 1,
        values.len() == size,
        forall|k: int| 0 <= k < size - 1 ==> qualifies(trigger, #[trigger] values[k]),
        !qualifies(trigger, values[size - 1]),
    ensures
        outputs(Seq::empty(), size, size, trigger, values).len() == size,
        forall|k: int|
            0 <= k < size ==> !#[trigger] outputs(Seq::empty(), size, size, trigger, values)[k],
{
    let prefix = values.drop_last();
    lemma_short_run_kept(size, trigger, prefix);
    assert(prefix.push(values.last()) =~= values);
    lemma_count_all_qualifying(prefix, trigger);
    assert(values.drop_last() =~= prefix);
    let o = outputs(Seq::empty(), size, size, trigger, values);
    let op = outputs(Seq::empty(), size, size, trigger, prefix);
    assert forall|k: int| 0 <= k < size implies !#[trigger] o[k] by {
        if k < size - 1 {
            assert(o[k] == op[k]);
        }
    }
}

/// A detector answers once per value.
pub proof fn lemma_outputs_len(window: Seq<i16>, size: nat, required: nat, trigger: Trigger, values: Seq<i16>)
    ensures
        outputs(window, size, required, trigger, values).len() == values.len(),
    decreases values.len(),
{
    if values.len() > 0 {
        lemma_outputs_len(window, size, required, trigger, values.drop_last());
    }
}

/// Observing `a` and then `b` is observing `a + b`.
pub proof fn lemma_run_append(
    window: Seq<i16>,
    size: nat,
    required: nat,
    trigger: Trigger,
    a: Seq<i16>,
    b: Seq<i16>,
)
    ensures
        window_after(window, size, required, trigger, a + b) == window_after(
            window_after(window, size, required, trigger, a),
            size,
            required,
            trigger,
            b,
        ),
        outputs(window, size, required, trigger, a + b) == outputs(window, size, required, trigger, a)
            + outputs(window_after(window, size, required, trigger, a), size, required, trigger, b),
    decreases b.len(),
{
    if b.len() == 0 {
        assert(a + b =~= a);
        assert(outputs(window, size, required, trigger, a) + Seq::<bool>::empty() =~= outputs(
            window,
            size,
            required,
            trigger,
            a,
        ));
    } else {
        lemma_run_append(window, size, required, trigger, a, b.drop_last());
        assert((a + b).drop_last() =~= a + b.drop_last());
        assert((a + b).last() == b.last());
        let oa = outputs(window, size, required, trigger, a);
        let wa = window_after(window, size, required, trigger, a);
        let ob = outputs(wa, size, required, trigger, b.drop_last());
        let x = observe_step(window_after(wa, size, required, trigger, b.drop_last()), size, required, trigger, b.last()).0;
        assert((oa + ob).push(x) =~= oa + ob.push(x));
    }
}

/// The answer to the `k`-th value is the step taken from the window its predecessors left.
pub proof fn lemma_output_at(
    window: Seq<i16>,
    size: nat,
    required: nat,
    trigger: Trigger,
    values: Seq<i16>,
    k: int,
)
    requires
        0 <= k < values.len(),
    ensures
        outputs(window, size, required, trigger, values)[k] == observe_step(
            window_after(window, size, required, trigger, values.subrange(0, k)),
            size,
            required,
            trigger,
            values[k],
        ).0,
{
    let a = values.subrange(0, k + 1);
    let b = values.subrange(k + 1, values.len() as int);
    lemma_run_append(window, size, required, trigger, a, b);
    assert(a + b =~= values);
    assert(a.drop_last() =~= values.subrange(0, k));
    lemma_outputs_len(window, size, required, trigger, a.drop_last());
}

/// As long as a full-window detector has not fired, its window ends with the values fed
/// so far.
proof fn lemma_unfired_tail(window: Seq<i16>, size: nat, trigger: Trigger, values: Seq<i16>, k: int)
    requires
        window.len() <= size,
        0 <= k <= values.len(),
        k <= size,
        forall|j: int| 0 <= j < k ==> !#[trigger] outputs(window, size, size, trigger, values)[j],
    ensures
        ({
            let wk = window_after(window, size, size, trigger, values.subrange(0, k));
            &&& k <= wk.len() <= size
            &&& wk.subrange(wk.len() - k, wk.len() as int) == values.subrange(0, k)
        }),
    decreases k,
{
    if k == 0 {
        assert(values.subrange(0, 0) =~= Seq::<i16>::empty());
        let wk = window_after(window, size, size, trigger, values.subrange(0, 0));
        assert(wk.subrange(wk.len() as int, wk.len() as int) =~= Seq::<i16>::empty());
    } else {
        lemma_unfired_tail(window, size, trigger, values, k - 1);
        lemma_output_at(window, size, size, trigger, values, k - 1);
        assert(!outputs(window, size, size, trigger, values)[k - 1]);
        let prev = window_after(window, size, size, trigger, values.subrange(0, k - 1));
        let pre = values.subrange(0, k);
        assert(pre.drop_last() =~= values.subrange(0, k - 1));
        let wk = window_after(window, size, size, trigger, pre);
        assert(wk == pushed_window(prev, size, values[k - 1]));
        let pushed = prev.push(values[k - 1]);
        assert(pushed.subrange(pushed.len() - k, pushed.len() as int) =~= pre);
        if pushed.len() > size {
            assert(wk.subrange(wk.len() - k, wk.len() as int) =~= pre);
        }
    }
}

/// From a window at most `size` long, a full-window detector fed `size` qualifying values
/// fires on exactly one of them, and no later: it clears the window there, and the
/// values after that one are what the window holds at the end.
pub proof fn lemma_fires_once_from_any_window(
    window: Seq<i16>,
    size: nat,
    trigger: Trigger,
    values: Seq<i16>,
)
    requires
        size >= 1,
        window.len() <= size,
        values.len() == size,
        forall|k: int| 0 <= k < values.len() ==> qualifies(trigger, #[trigger] values[k]),
    ensures
        exists|i: int|
            0 <= i < size && #[trigger] outputs(window, size, size, trigger, values)[i] && (forall|
                j: int,
            |
                0 <= j < size && j != i ==> !#[trigger] outputs(window, size, size, trigger, values)[j])
                && window_after(window, size, size, trigger, values) == values.subrange(
                i + 1,
                size as int,
            ),
{
    lemma_fire_scan(window, size, trigger, values, 0);
}

proof fn lemma_fire_scan(window: Seq<i16>, size: nat, trigger: Trigger, values: Seq<i16>, k: int)
    requires
        size >= 1,
        window.len() <= size,
        values.len() == size,
        forall|j: int| 0 <= j < values.len() ==> qualifies(trigger, #[trigger] values[j]),
        0 <= k < size,
        forall|j: int| 0 <= j < k ==> !#[trigger] outputs(window, size, size, trigger, values)[j],
    ensures
        exists|i: int|
            0 <= i < size && #[trigger] outputs(window, size, size, trigger, values)[i] && (forall|
                j: int,
            |
                0 <= j < size && j != i ==> !#[trigger] outputs(window, size, size, trigger, values)[j])
                && window_after(window, size, size, trigger, values) == values.subrange(
                i + 1,
                size as int,
            ),
    decreases size - k,
{
    let o = outputs(window, size, size, trigger, values);
    lemma_outputs_len(window, size, size, trigger, values);
    lemma_output_at(window, size, size, trigger, values, k);
    lemma_unfired_tail(window, size, trigger, values, k);
    let wk = window_after(window, size, size, trigger, values.subrange(0, k));
    if o[k] {
        let a = values.subrange(0, k + 1);
        let b = values.subrange(k + 1, size as int);
        assert(a + b =~= values);
        assert(a.drop_last() =~= values.subrange(0, k));
        lemma_run_append(window, size, size, trigger, a, b);
        assert(window_after(window, size, size, trigger, a) == Seq::<i16>::empty());
        lemma_short_run_kept(size, trigger, b);
        lemma_outputs_len(window, size, size, trigger, a);
        let oa = outputs(window, size, size, trigger, a);
        let ob = outputs(Seq::empty(), size, size, trigger, b);
        assert forall|j: int| 0 <= j < size && j != k implies !#[trigger] o[j] by {
            if j > k {
                assert(o[j] == ob[j - k - 1]);
            }
        }
    } else if k + 1 < size {
        lemma_fire_scan(window, size, trigger, values, k + 1);
    } else {
        let v = values[k];
        let pushed = wk.push(v);
        let w2 = pushed_window(wk, size, v);
        assert(values.subrange(0, k).push(v) =~= values);
        if pushed.len() > size {
            assert(w2 =~= values);
        } else {
            assert(wk.subrange(0, wk.len() as int) =~= wk);
            assert(w2 =~= values);
        }
        lemma_count_all_qualifying(values, trigger);
        assert(false);
    }
}

} // verus!
