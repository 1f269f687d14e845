use vstd::prelude::*;
use std::collections::VecDeque;

use crate::chars::{chars_of, str_eq};
use crate::text::{contains_chars, matches_at, occurs_in};
use crate::unicode::{lowercase, to_lowercase};

verus! {

broadcast use vstd::std_specs::vecdeque::group_vec_dequeue_axioms;

/// The sample rate that the recognizer takes, in Hz.
pub const TARGET_SAMPLE_RATE: u32 = 16000;

/// How many samples before the key press are kept for a recording at
/// `sample_rate` (about 160 ms).
pub fn preroll_capacity(sample_rate: u32) -> (r: usize)
    ensures
        r == sample_rate as nat / 6,
{
    sample_rate as usize / 6
}

/// How many samples a recording at `sample_rate` takes before further
/// input is dropped (one minute).
pub fn recording_capacity(sample_rate: u32) -> (r: usize)
    requires
        sample_rate as nat * 60 <= usize::MAX,
    ensures
        r == sample_rate as nat * 60,
{
    sample_rate as usize * 60
}

/// The pre-roll after one sample `s` arrives: when it already holds
/// `cap` samples or more, its oldest sample leaves; then `s` comes in.
pub open spec fn preroll_step<T>(pre: Seq<T>, cap: nat, s: T) -> Seq<T> {
    if pre.len() >= cap && pre.len() > 0 {
        pre.drop_first().push(s)
    } else {
        pre.push(s)
    }
}

/// The pre-roll after the samples `block` arrive, one by one.
pub open spec fn preroll_after<T>(pre: Seq<T>, cap: nat, block: Seq<T>) -> Seq<T>
    decreases block.len(),
{
    if block.len() == 0 {
        pre
    } else {
        preroll_step(preroll_after(pre, cap, block.drop_last()), cap, block.last())
    }
}

/// The recording after the samples `block` arrive while recording: the
/// whole block is added while the recording holds fewer than `cap`
/// samples; else it is dropped.
pub open spec fn recording_after<T>(rec: Seq<T>, cap: nat, block: Seq<T>) -> Seq<T> {
    if rec.len() < cap {
        rec + block
    } else {
        rec
    }
}

/// The number of samples that a pre-roll of capacity `cap` keeps: `cap`,
/// and at least one.
pub open spec fn preroll_keep(cap: nat) -> nat {
    if cap == 0 {
        1
    } else {
        cap
    }
}

/// The last `n` elements of `s` (all of `s` where it has fewer).
pub open spec fn last_n<T>(s: Seq<T>, n: nat) -> Seq<T> {
    if s.len() <= n {
        s
    } else {
        s.skip(s.len() - n)
    }
}

/// The samples coming from the microphone, as the input callback files
/// them: while the push-to-talk key is up they go to a short pre-roll that
/// keeps only the latest ones; while it is down they go to the recording,
/// which starts with the pre-roll so that the first syllable is not lost.
/// `T` is the type of a sample.
pub struct CaptureBuffer<T> {
    recording: bool,
    buffer: Vec<T>,
    preroll: VecDeque<T>,
    preroll_cap: usize,
    recording_cap: usize,
}

impl<T: Copy> CaptureBuffer<T> {
    /// Whether a recording is under way.
    pub closed spec fn is_recording(&self) -> bool {
        self.recording
    }

    /// The samples of the recording.
    pub closed spec fn recorded(&self) -> Seq<T> {
        self.buffer@
    }

    /// The samples of the pre-roll, oldest first.
    pub closed spec fn preroll(&self) -> Seq<T> {
        self.preroll@
    }

    /// The pre-roll's capacity.
    pub closed spec fn preroll_cap(&self) -> nat {
        self.preroll_cap as nat
    }

    /// The recording's capacity.
    pub closed spec fn recording_cap(&self) -> nat {
        self.recording_cap as nat
    }

    /// An empty buffer, not recording, with the given capacities.
    pub fn new(preroll_cap: usize, recording_cap: usize) -> (r: CaptureBuffer<T>)
        ensures
            !r.is_recording(),
            r.recorded() == Seq::<T>::empty(),
            r.preroll() == Seq::<T>::empty(),
            r.preroll_cap() == preroll_cap,
            r.recording_cap() == recording_cap,
    {
        CaptureBuffer {
            recording: false,
            buffer: Vec::new(),
            preroll: VecDeque::new(),
            preroll_cap,
            recording_cap,
        }
    }

    /// Takes the capacities that go with a new input device; the samples
    /// held stay.
    pub fn set_capacities(&mut self, preroll_cap: usize, recording_cap: usize)
        ensures
            final(self).is_recording() == old(self).is_recording(),
            final(self).recorded() == old(self).recorded(),
            final(self).preroll() == old(self).preroll(),
            final(self).preroll_cap() == preroll_cap,
            final(self).recording_cap() == recording_cap,
    {
        self.preroll_cap = preroll_cap;
        self.recording_cap = recording_cap;
    }

    /// Whether a recording is under way.
    pub fn recording(&self) -> (r: bool)
        ensures
            r == self.is_recording(),
    {
        self.recording
    }

    /// Files a block of samples from the microphone.
    pub fn push_block(&mut self, block: &[T])
        ensures
            final(self).is_recording() == old(self).is_recording(),
            final(self).preroll_cap() == old(self).preroll_cap(),
            final(self).recording_cap() == old(self).recording_cap(),
            old(self).is_recording() ==> final(self).recorded() == recording_after(
                old(self).recorded(),
                old(self).recording_cap(),
                block@,
            ) && final(self).preroll() == old(self).preroll(),
            !old(self).is_recording() ==> final(self).preroll() == preroll_after(
                old(self).preroll(),
                old(self).preroll_cap(),
                block@,
            ) && final(self).recorded() == old(self).recorded(),
    {
        if self.recording {
            if self.buffer.len() < self.recording_cap {
                let mut i: usize = 0;
                let ghost start = self.buffer@;
                while i < block.len()
                    invariant
                        i <= block.len(),
                        self.recording == old(self).recording,
                        self.preroll_cap == old(self).preroll_cap,
                        self.recording_cap == old(self).recording_cap,
                        self.preroll@ == old(self).preroll@,
                        start == old(self).buffer@,
                        self.buffer@ == start + block@.take(i as int),
                    decreases block.len() - i,
                {
                    self.buffer.push(block[i]);
                    assert(block@.take(i + 1) =~= block@.take(i as int).push(block@[i as int]));
                    i += 1;
                }
                assert(block@.take(block.len() as int) =~= block@);
            }
        } else {
            let mut i: usize = 0;
            assert(block@.take(0) =~= Seq::<T>::empty());
            while i < block.len()
                invariant
                    i <= block.len(),
                    !self.recording,
                    self.preroll_cap == old(self).preroll_cap,
                    self.recording_cap == old(self).recording_cap,
                    self.buffer@ == old(self).buffer@,
                    self.preroll@ == preroll_after(
                        old(self).preroll@,
                        old(self).preroll_cap as nat,
                        block@.take(i as int),
                    ),
                decreases block.len() - i,
            {
                let s = block[i];
                assert(block@.take(i + 1).drop_last() =~= block@.take(i as int));
                if self.preroll.len() >= self.preroll_cap {
                    let _ = self.preroll.pop_front();
                }
                self.preroll.push_back(s);
                i += 1;
            }
            assert(block@.take(block.len() as int) =~= block@);
        }
    }

    /// Starts a recording: it begins with the samples of the pre-roll.
    pub fn start(&mut self)
        ensures
            final(self).is_recording(),
            final(self).recorded() == old(self).preroll(),
            final(self).preroll() == old(self).preroll(),
            final(self).preroll_cap() == old(self).preroll_cap(),
            final(self).recording_cap() == old(self).recording_cap(),
    {
        let mut b: Vec<T> = Vec::new();
        let mut i: usize = 0;
        while i < self.preroll.len()
            invariant
                i <= self.preroll@.len(),
                b@ == self.preroll@.take(i as int),
            decreases self.preroll@.len() - i,
        {
            b.push(self.preroll[i]);
            assert(self.preroll@.take(i + 1) =~= self.preroll@.take(i as int).push(
                self.preroll@[i as int],
            ));
            i += 1;
        }
        assert(self.preroll@.take(self.preroll@.len() as int) =~= self.preroll@);
        self.buffer = b;
        self.recording = true;
    }

    /// Ends the recording and hands over its samples.
    pub fn stop(&mut self) -> (r: Vec<T>)
        ensures
            !final(self).is_recording(),
            r@ == old(self).recorded(),
            final(self).recorded() == Seq::<T>::empty(),
            final(self).preroll() == old(self).preroll(),
            final(self).preroll_cap() == old(self).preroll_cap(),
            final(self).recording_cap() == old(self).recording_cap(),
    {
        self.recording = false;
        let mut taken: Vec<T> = Vec::new();
        std::mem::swap(&mut taken, &mut self.buffer);
        taken
    }
}

/// A microphone whose name marks it as a physical one (Realtek, a
/// microphone array, a headset, a microphone) and not a Steam or virtual
/// device; names are compared in lower case.
pub open spec fn preferred_input_name(name: Seq<char>) -> bool {
    let l = lowercase(name);
    &&& (occurs_in(l, "realtek"@) || occurs_in(l, "array"@) || occurs_in(l, "headset"@)
        || occurs_in(l, "microphone"@))
    &&& !occurs_in(l, "steam"@)
    &&& !occurs_in(l, "virtual"@)
}

fn has_word(l: &Vec<char>, w: &str) -> (b: bool)
    ensures
        b == occurs_in(l@, w@),
{
    let wc = chars_of(w);
    contains_chars(l, &wc)
}

/// Whether a microphone's name marks it as a physical one (see
/// [`preferred_input_name`]).
pub fn is_preferred_input(name: &str) -> (b: bool)
    ensures
        b == preferred_input_name(name@),
{
    let lower = to_lowercase(name);
    let l = chars_of(lower.as_str());
    (has_word(&l, "realtek") || has_word(&l, "array") || has_word(&l, "headset") || has_word(
        &l,
        "microphone",
    )) && !has_word(&l, "steam") && !has_word(&l, "virtual")
}

/// The plain values of a list of device names (`None` for a device whose
/// name could not be read).
pub open spec fn name_views(v: Seq<Option<String>>) -> Seq<Option<Seq<char>>> {
    v.map_values(|n: Option<String>| match n {
        Some(s) => Some(s@),
        None => None,
    })
}

/// The device is named, and named as a physical microphone.
pub open spec fn preferred_device(name: Option<Seq<char>>) -> bool {
    name matches Some(n) && preferred_input_name(n)
}

/// The microphone to use among the input devices named `names`: the first
/// whose name is known and marks it as a physical microphone. `None` means
/// that the system's default input device is to be used.
pub fn choose_input_device(names: &Vec<Option<String>>) -> (r: Option<usize>)
    ensures
        r matches Some(i) ==> i < names.len() && preferred_device(name_views(names@)[i as int]),
        r matches Some(i) ==> forall|j: int|
            0 <= j < i ==> !#[trigger] preferred_device(name_views(names@)[j]),
        r is None ==> forall|j: int|
            0 <= j < names.len() ==> !#[trigger] preferred_device(name_views(names@)[j]),
{
    let mut i: usize = 0;
    while i < names.len()
        invariant
            i <= names.len(),
            forall|j: int| 0 <= j < i ==> !#[trigger] preferred_device(name_views(names@)[j]),
        decreases names.len() - i,
    {
        match &names[i] {
            Some(n) => {
                if is_preferred_input(n.as_str()) {
                    return Some(i);
                }
            },
            None => {},
        }
        i += 1;
    }
    None
}

/// The input device named exactly `target` among the devices named
/// `names`: the first such, if any.
pub fn find_device(names: &Vec<Option<String>>, target: &str) -> (r: Option<usize>)
    ensures
        r matches Some(i) ==> i < names.len() && name_views(names@)[i as int] == Some(target@),
        r matches Some(i) ==> forall|j: int|
            0 <= j < i ==> name_views(names@)[j] != Some(target@),
        r is None ==> forall|j: int|
            0 <= j < names.len() ==> name_views(names@)[j] != Some(target@),
{
    let mut i: usize = 0;
    while i < names.len()
        invariant
            i <= names.len(),
            forall|j: int| 0 <= j < i ==> name_views(names@)[j] != Some(target@),
        decreases names.len() - i,
    {
        match &names[i] {
            Some(n) => {
                if str_eq(n.as_str(), target) {
                    return Some(i);
                }
            },
            None => {},
        }
        i += 1;
    }
    None
}

/// Law: a pre-roll that holds no more than it keeps goes on holding
/// exactly the latest samples, as many as it keeps: after any block it is
/// the last `preroll_keep(cap)` samples of what it held followed by the
/// block.
pub proof fn law_preroll_keeps_latest<T>(pre: Seq<T>, cap: nat, block: Seq<T>)
    requires
        pre.len() <= preroll_keep(cap),
    ensures
        preroll_after(pre, cap, block) == last_n(pre + block, preroll_keep(cap)),
        preroll_after(pre, cap, block).len() <= preroll_keep(cap),
    decreases block.len(),
{
    let k = preroll_keep(cap);
    if block.len() == 0 {
        assert(pre + block =~= pre);
    } else {
        let dl = block.drop_last();
        let s = block.last();
        law_preroll_keeps_latest(pre, cap, dl);
        let q = preroll_after(pre, cap, dl);
        let all = pre + dl;
        assert(pre + block =~= all.push(s));
        if q.len() >= cap && q.len() > 0 {
            assert(q.len() == k);
            if all.len() <= k {
                assert(q == all);
                assert(q.drop_first().push(s) =~= all.push(s).skip(all.push(s).len() - k));
            } else {
                assert(q.drop_first().push(s) =~= all.push(s).skip(all.push(s).len() - k));
            }
        } else {
            assert(q.len() < k);
            assert(q == all);
        }
    }
}

/// Law: while the recording is below its capacity, a block is added to
/// its end with its samples in the order in which they arrived, and what
/// was recorded before stays as it was; at capacity the block is dropped.
pub proof fn law_recording_keeps_arrival_order<T>(rec: Seq<T>, cap: nat, block: Seq<T>)
    ensures
        rec.len() < cap ==> recording_after(rec, cap, block).len() == rec.len() + block.len(),
        rec.len() < cap ==> forall|i: int|
            0 <= i < rec.len() ==> #[trigger] recording_after(rec, cap, block)[i] == rec[i],
        rec.len() < cap ==> forall|j: int|
            0 <= j < block.len() ==> #[trigger] recording_after(rec, cap, block)[rec.len() + j]
                == block[j],
        rec.len() >= cap ==> recording_after(rec, cap, block) == rec,
{
    if rec.len() < cap {
        assert forall|j: int| 0 <= j < block.len() implies #[trigger] recording_after(
            rec,
            cap,
            block,
        )[rec.len() + j] == block[j] by {
            assert((rec + block)[rec.len() + j] == block[j]);
        }
    }
}

/// Law: blocks that arrive one after the other while the recording stays
/// below its capacity are recorded one after the other, each in order: the
/// recording is what it held, then the first block, then the second.
pub proof fn law_recording_joins_blocks<T>(rec: Seq<T>, cap: nat, b1: Seq<T>, b2: Seq<T>)
    requires
        rec.len() + b1.len() < cap,
    ensures
        recording_after(recording_after(rec, cap, b1), cap, b2) =~= rec + b1 + b2,
{
    law_recording_keeps_arrival_order(rec, cap, b1);
    let r1 = recording_after(rec, cap, b1);
    law_recording_keeps_arrival_order(r1, cap, b2);
    let r2 = recording_after(r1, cap, b2);
    let want = rec + b1 + b2;
    assert forall|i: int| 0 <= i < want.len() implies r2[i] == want[i] by {
        if i < r1.len() {
            assert(r2[i] == r1[i]);
            if i < rec.len() {
                assert(r1[i] == rec[i]);
            } else {
                assert(r1[rec.len() + (i - rec.len())] == b1[i - rec.len()]);
            }
        } else {
            assert(r2[r1.len() + (i - r1.len())] == b2[i - r1.len()]);
        }
    }
}

/// The characters `w` stand somewhere in `l`, one after the other.
pub open spec fn has_text(l: Seq<char>, w: Seq<char>) -> bool {
    exists|i: int| 0 <= i && i + w.len() <= l.len() && #[trigger] l.subrange(i, i + w.len()) == w
}

proof fn lemma_has_text_occurs(l: Seq<char>, w: Seq<char>)
    ensures
        has_text(l, w) == occurs_in(l, w),
{
    if has_text(l, w) {
        let i = choose|i: int|
            0 <= i && i + w.len() <= l.len() && #[trigger] l.subrange(i, i + w.len()) == w;
        assert(matches_at(l, w, i));
    }
    if occurs_in(l, w) {
        let i = choose|i: int| matches_at(l, w, i);
        assert(l.subrange(i, i + w.len()) == w);
    }
}

/// Law: each of the words "realtek", "array", "headset" and "microphone"
/// marks a microphone as a physical one on its own, wherever it stands in
/// the lowercase name, unless the name also holds "steam" or "virtual";
/// a name with none of the four is never preferred.
pub proof fn law_preferred_input_keywords(name: Seq<char>)
    ensures
        ({
            let l = lowercase(name);
            &&& preferred_input_name(name) <==> ((has_text(l, "realtek"@) || has_text(l, "array"@)
                || has_text(l, "headset"@) || has_text(l, "microphone"@)) && !has_text(l, "steam"@)
                && !has_text(l, "virtual"@))
            &&& has_text(l, "headset"@) && !has_text(l, "steam"@) && !has_text(l, "virtual"@)
                ==> preferred_input_name(name)
            &&& has_text(l, "realtek"@) && !has_text(l, "steam"@) && !has_text(l, "virtual"@)
                ==> preferred_input_name(name)
            &&& has_text(l, "array"@) && !has_text(l, "steam"@) && !has_text(l, "virtual"@)
                ==> preferred_input_name(name)
            &&& has_text(l, "microphone"@) && !has_text(l, "steam"@) && !has_text(l, "virtual"@)
                ==> preferred_input_name(name)
        }),
{
    let l = lowercase(name);
    lemma_has_text_occurs(l, "realtek"@);
    lemma_has_text_occurs(l, "array"@);
    lemma_has_text_occurs(l, "headset"@);
    lemma_has_text_occurs(l, "microphone"@);
    lemma_has_text_occurs(l, "steam"@);
    lemma_has_text_occurs(l, "virtual"@);
}

} // verus!
