//! The eviction policy: which unpinned frame is given up next.

use vstd::prelude::*;
use crate::page::FrameId;

verus! {

/// An eviction policy. It keeps the frames that nobody holds and picks one of
/// them when a frame is needed.
pub trait Replacer {
    /// Whether the policy's state is consistent.
    spec fn valid(&self) -> bool;

    /// The frames that may be picked.
    spec fn candidates(&self) -> Set<FrameId>;

    /// Picks a frame and forgets it; there is none to pick exactly when no
    /// frame is a candidate.
    fn victim(&mut self) -> (picked: Option<FrameId>)
        requires
            old(self).valid(),
        ensures
            final(self).valid(),
            match picked {
                Some(frame) => old(self).candidates().contains(frame)
                    && final(self).candidates() == old(self).candidates().remove(frame),
                None => old(self).candidates() == Set::<FrameId>::empty()
                    && final(self).candidates() == old(self).candidates(),
            },
    ;

    /// Makes a frame a candidate.
    fn unpin(&mut self, id: FrameId)
        requires
            old(self).valid(),
        ensures
            final(self).valid(),
            final(self).candidates() == old(self).candidates().insert(id),
    ;

    /// Withdraws a frame from the candidates.
    fn pin(&mut self, id: FrameId)
        requires
            old(self).valid(),
        ensures
            final(self).valid(),
            final(self).candidates() == old(self).candidates().remove(id),
    ;
}

/// The number of entries at the front of `entries` whose reference bit is set.
pub open spec fn leading_set(entries: Seq<(FrameId, bool)>) -> nat
    decreases entries.len(),
{
    if entries.len() > 0 && entries[0].1 {
        1 + leading_set(entries.drop_first())
    } else {
        0
    }
}

/// What a clock holds: the tracked frames with their reference bits, in the
/// order in which they were added, and the position of the hand.
#[verifier::ext_equal]
pub struct Clock {
    pub entries: Seq<(FrameId, bool)>,
    pub hand: nat,
}

impl Clock {
    /// The tracked frames, in the order of the entries.
    pub open spec fn frames(self) -> Seq<FrameId> {
        self.entries.map_values(|e: (FrameId, bool)| e.0)
    }

    /// No frame is tracked twice, and the hand stands on an entry, or at 0
    /// where there is none.
    pub open spec fn valid(self) -> bool {
        &&& self.frames().no_duplicates()
        &&& self.entries.len() == 0 ==> self.hand == 0
        &&& self.entries.len() > 0 ==> self.hand < self.entries.len()
    }

    /// The clock after the entry at `index` has left. The hand keeps its
    /// position, and goes back to 0 where that position is past the end.
    pub open spec fn without(self, index: int) -> Clock {
        Clock {
            entries: self.entries.remove(index),
            hand: if self.hand >= self.entries.len() - 1 { 0 } else { self.hand },
        }
    }

    /// The clock after `frame` was unpinned: a frame not yet tracked is added
    /// at the end with its reference bit set.
    pub open spec fn unpinned(self, frame: FrameId) -> Clock {
        if self.frames().contains(frame) {
            self
        } else {
            Clock { entries: self.entries.push((frame, true)), hand: self.hand }
        }
    }

    /// The clock after `frame` was pinned: its entry, if any, has left.
    pub open spec fn pinned(self, frame: FrameId) -> Clock {
        if self.frames().contains(frame) {
            self.without(self.frames().index_of(frame))
        } else {
            self
        }
    }

    /// The entries as the hand meets them: from the hand to the end, then from
    /// the start to the hand.
    pub open spec fn clock_order(self) -> Seq<(FrameId, bool)> {
        self.entries.subrange(self.hand as int, self.entries.len() as int)
            + self.entries.subrange(0, self.hand as int)
    }

    /// The number of entries that the hand passes, clearing their bits, before
    /// it stops on the victim. Where every bit is set this is a full turn.
    pub open spec fn reprieved(self) -> nat {
        leading_set(self.clock_order())
    }

    /// The index of the entry on which the hand stops.
    pub open spec fn victim_index(self) -> int
        recommends
            self.entries.len() > 0,
    {
        ((self.hand + self.reprieved()) as int) % (self.entries.len() as int)
    }

    /// Whether the hand passes the entry at `index` on its way to the victim.
    pub open spec fn passed(self, index: int) -> bool
        recommends
            self.entries.len() > 0,
    {
        (index - self.hand) % (self.entries.len() as int) < self.reprieved()
    }

    /// The clock after the hand has gone to the victim: the bits of the entries
    /// that it passed are cleared, and it stands on the victim.
    pub open spec fn swept(self) -> Clock
        recommends
            self.entries.len() > 0,
    {
        Clock {
            entries: Seq::new(
                self.entries.len(),
                |i: int| (self.entries[i].0, self.entries[i].1 && !self.passed(i)),
            ),
            hand: self.victim_index() as nat,
        }
    }

    /// The frame that is picked next, if any is tracked.
    pub open spec fn victim(self) -> Option<FrameId> {
        if self.entries.len() == 0 {
            None
        } else {
            Some(self.entries[self.victim_index()].0)
        }
    }

    /// The clock after the next victim was picked.
    pub open spec fn evicted(self) -> Clock {
        if self.entries.len() == 0 {
            self
        } else {
            self.swept().without(self.victim_index())
        }
    }
}

/// For `0 <= a < 2 * n`, `a % n` is `a` or `a - n`.
proof fn lemma_wrap_up(a: int, n: int)
    requires
        0 <= a < 2 * n,
    ensures
        a % n == if a < n { a } else { a - n },
{
    if a < n {
        vstd::arithmetic::div_mod::lemma_small_mod(a as nat, n as nat);
    } else {
        vstd::arithmetic::div_mod::lemma_small_mod((a - n) as nat, n as nat);
        vstd::arithmetic::div_mod::lemma_mod_sub_multiples_vanish(a, n);
    }
}

/// For `-n <= a < n`, `a % n` is `a` or `a + n`.
proof fn lemma_wrap_down(a: int, n: int)
    requires
        -n <= a < n,
    ensures
        a % n == if a >= 0 { a } else { a + n },
{
    if a >= 0 {
        vstd::arithmetic::div_mod::lemma_small_mod(a as nat, n as nat);
    } else {
        vstd::arithmetic::div_mod::lemma_small_mod((a + n) as nat, n as nat);
        vstd::arithmetic::div_mod::lemma_mod_add_multiples_vanish(a, n);
    }
}

/// The leading entries with a set bit end at the first entry whose bit is
/// clear, or at the end of the sequence.
pub proof fn lemma_leading_set(entries: Seq<(FrameId, bool)>)
    ensures
        leading_set(entries) <= entries.len(),
        forall|j: int| 0 <= j < leading_set(entries) ==> (#[trigger] entries[j]).1,
        leading_set(entries) < entries.len() ==> !entries[leading_set(entries) as int].1,
    decreases entries.len(),
{
    if entries.len() > 0 && entries[0].1 {
        let rest = entries.drop_first();
        lemma_leading_set(rest);
        assert forall|j: int| 0 <= j < leading_set(entries) implies (#[trigger] entries[j]).1 by {
            if j > 0 {
                assert(entries[j] == rest[j - 1]);
            }
        }
        if leading_set(entries) < entries.len() {
            assert(entries[leading_set(entries) as int] == rest[leading_set(rest) as int]);
        }
    }
}

/// The clock (second chance) policy.
pub struct ClockReplacer {
    list: Vec<(FrameId, bool)>,
    current: usize,
}

impl View for ClockReplacer {
    type V = Clock;

    closed spec fn view(&self) -> Clock {
        Clock { entries: self.list@, hand: self.current as nat }
    }
}

impl ClockReplacer {
    /// A clock that tracks no frame.
    pub fn new() -> (clock: ClockReplacer)
        ensures
            clock@ == Clock::empty(),
            clock@.valid(),
    {
        ClockReplacer { list: Vec::new(), current: 0 }
    }

    fn remove(&mut self, index: usize)
        requires
            index < old(self).list.len(),
        ensures
            final(self)@ == old(self)@.without(index as int),
    {
        self.list.remove(index);
        if self.current >= self.list.len() {
            self.current = 0;
        }
    }

    /// The index of the entry of `id`, if it is tracked.
    fn position(&self, id: FrameId) -> (found: Option<usize>)
        ensures
            match found {
                Some(index) => index < self@.entries.len() && self@.frames()[index as int] == id
                    && (self@.frames().no_duplicates() ==> self@.frames().index_of(id) == index),
                None => !self@.frames().contains(id),
            },
    {
        let mut index: usize = 0;
        while index < self.list.len()
            invariant
                index <= self.list.len(),
                forall|j: int| 0 <= j < index ==> self@.frames()[j] != id,
            decreases self.list.len() - index,
        {
            if self.list[index].0 == id {
                proof {
                    let frames = self@.frames();
                    assert(frames[index as int] == id);
                    assert(frames.contains(id));
                    let first = frames.index_of(id);
                    assert(frames.no_duplicates() ==> first == index);
                }
                return Some(index);
            }
            index += 1;
        }
        None
    }
}

impl Clock {
    /// Taking one entry out takes its frame, and no other, out of the tracked
    /// frames, and keeps the clock valid.
    pub proof fn lemma_without(self, index: int)
        requires
            self.valid(),
            0 <= index < self.entries.len(),
        ensures
            self.without(index).valid(),
            self.without(index).frames() == self.frames().remove(index),
            self.without(index).frames().to_set() == self.frames().to_set().remove(
                self.frames()[index],
            ),
    {
        let frames = self.frames();
        let rest = self.without(index).frames();
        assert(rest =~= frames.remove(index));
        assert forall|f: FrameId| rest.to_set().contains(f) <==> frames.to_set().remove(
            frames[index],
        ).contains(f) by {
            if rest.contains(f) {
                let j = choose|j: int| 0 <= j < rest.len() && rest[j] == f;
                let k = if j < index { j } else { j + 1 };
                assert(frames[k] == f);
            }
            if frames.contains(f) && f != frames[index] {
                let k = choose|k: int| 0 <= k < frames.len() && frames[k] == f;
                let j = if k < index { k } else { k - 1 };
                assert(rest[j] == f);
            }
        }
        assert(rest.to_set() =~= frames.to_set().remove(frames[index]));
    }

    /// Unpinning adds the frame to the tracked frames and keeps the clock
    /// valid.
    pub proof fn lemma_unpinned(self, frame: FrameId)
        requires
            self.valid(),
        ensures
            self.unpinned(frame).valid(),
            self.unpinned(frame).frames().to_set() == self.frames().to_set().insert(frame),
            forall|f: FrameId| #[trigger]
                self.unpinned(frame).frames().contains(f) <==> self.frames().contains(f) || f
                    == frame,
    {
        let frames = self.frames();
        let after = self.unpinned(frame).frames();
        if frames.contains(frame) {
            assert(after.to_set() =~= frames.to_set().insert(frame));
        } else {
            assert(after =~= frames.push(frame));
            assert forall|f: FrameId| after.to_set().contains(f) <==> frames.to_set().insert(
                frame,
            ).contains(f) by {
                if after.contains(f) {
                    let j = choose|j: int| 0 <= j < after.len() && after[j] == f;
                    if j < frames.len() {
                        assert(frames[j] == f);
                    }
                }
                if frames.contains(f) {
                    let k = choose|k: int| 0 <= k < frames.len() && frames[k] == f;
                    assert(after[k] == f);
                }
                if f == frame {
                    assert(after[frames.len() as int] == f);
                }
            }
            assert(after.to_set() =~= frames.to_set().insert(frame));
        }
        assert forall|f: FrameId| #[trigger] after.contains(f) <==> frames.contains(f) || f
            == frame by {
            assert(after.to_set().contains(f) <==> after.contains(f));
            assert(frames.to_set().contains(f) <==> frames.contains(f));
        }
    }

    /// Pinning takes the frame out of the tracked frames and keeps the clock
    /// valid.
    pub proof fn lemma_pinned(self, frame: FrameId)
        requires
            self.valid(),
        ensures
            self.pinned(frame).valid(),
            self.pinned(frame).frames().to_set() == self.frames().to_set().remove(frame),
            forall|f: FrameId| #[trigger]
                self.pinned(frame).frames().contains(f) <==> self.frames().contains(f) && f
                    != frame,
    {
        let frames = self.frames();
        if frames.contains(frame) {
            self.lemma_without(frames.index_of(frame));
        } else {
            assert(frames.to_set() =~= frames.to_set().remove(frame));
        }
        let rest = self.pinned(frame).frames();
        assert forall|f: FrameId| #[trigger] rest.contains(f) <==> frames.contains(f) && f
            != frame by {
            assert(rest.to_set().contains(f) <==> rest.contains(f));
            assert(frames.to_set().contains(f) <==> frames.contains(f));
        }
    }
}

impl Clock {
    /// The entry that the hand meets after `steps` steps.
    pub proof fn lemma_clock_order(self, steps: int)
        requires
            self.valid(),
            0 <= steps < self.entries.len(),
        ensures
            self.clock_order().len() == self.entries.len(),
            0 <= (self.hand + steps) % (self.entries.len() as int) < self.entries.len(),
            self.clock_order()[steps] == self.entries[(self.hand + steps) % (
            self.entries.len() as int)],
    {
        lemma_wrap_up(self.hand + steps, self.entries.len() as int);
    }

    /// The hand stops on an entry, and picking the victim takes its frame, and
    /// no other, out of the tracked frames.
    pub proof fn lemma_evicted(self)
        requires
            self.valid(),
            self.entries.len() > 0,
        ensures
            0 <= self.victim_index() < self.entries.len(),
            self.victim() == Some(self.frames()[self.victim_index()]),
            self.frames().contains(self.victim()->0),
            self.swept().valid(),
            self.swept().frames() == self.frames(),
            self.evicted().valid(),
            self.evicted().frames().to_set() == self.frames().to_set().remove(self.victim()->0),
            forall|f: FrameId| #[trigger]
                self.evicted().frames().contains(f) <==> self.frames().contains(f) && f
                    != self.victim()->0,
    {
        let n = self.entries.len() as int;
        lemma_leading_set(self.clock_order());
        lemma_wrap_up((self.hand + self.reprieved()) as int, n);
        assert(self.swept().frames() =~= self.frames());
        self.swept().lemma_without(self.victim_index());
        assert(self.frames()[self.victim_index()] == self.victim()->0);
        let frames = self.frames();
        let rest = self.evicted().frames();
        assert forall|f: FrameId| #[trigger] rest.contains(f) <==> frames.contains(f) && f
            != self.victim()->0 by {
            assert(rest.to_set().contains(f) <==> rest.contains(f));
            assert(frames.to_set().contains(f) <==> frames.contains(f));
        }
    }
}

impl Replacer for ClockReplacer {
    open spec fn valid(&self) -> bool {
        self@.valid()
    }

    open spec fn candidates(&self) -> Set<FrameId> {
        self@.frames().to_set()
    }

    /// Picks the first frame in clock order whose reference bit is clear, and
    /// clears the bits of those before it; where every bit is set, the hand
    /// makes a full turn and picks the frame it started on.
    fn victim(&mut self) -> (picked: Option<FrameId>)
        ensures
            picked == old(self)@.victim(),
            final(self)@ == old(self)@.evicted(),
    {
        if self.list.is_empty() {
            proof {
                assert(self@.frames().to_set() =~= Set::<FrameId>::empty());
            }
            return None;
        }
        let ghost start = self@;
        let ghost n = self.list.len() as int;
        let ghost mut steps: int = 0;
        loop
            invariant
                start == old(self)@,
                start.valid(),
                n == start.entries.len(),
                n > 0,
                self.list.len() == n,
                0 <= steps <= n,
                steps <= start.reprieved(),
                self.current == (if start.hand + steps < n {
                    start.hand + steps
                } else {
                    start.hand + steps - n
                }),
                forall|i: int|
                    0 <= i < n ==> (#[trigger] self.list[i]).0 == start.entries[i].0,
                forall|i: int|
                    0 <= i < n ==> (#[trigger] self.list[i]).1 == (start.entries[i].1 && !((if i
                        >= start.hand {
                        i - start.hand
                    } else {
                        i - start.hand + n
                    }) < steps)),
            decreases n - steps,
        {
            if self.list[self.current].1 {
                proof {
                    assert(steps < n);
                    start.lemma_clock_order(steps);
                    lemma_wrap_up(start.hand + steps, n);
                    lemma_leading_set(start.clock_order());
                    assert(start.clock_order()[steps].1);
                    assert(start.reprieved() > steps);
                    lemma_wrap_up(self.current + 1, n);
                }
                let frame = self.list[self.current].0;
                self.list.set(self.current, (frame, false));
                self.current = (self.current + 1) % self.list.len();
                proof {
                    steps = steps + 1;
                }
            } else {
                proof {
                    lemma_leading_set(start.clock_order());
                    if steps < n {
                        start.lemma_clock_order(steps);
                        lemma_wrap_up(start.hand + steps, n);
                        assert(!start.clock_order()[steps].1);
                        assert(start.reprieved() == steps);
                    } else {
                        assert(start.reprieved() == n);
                    }
                    lemma_wrap_up((start.hand + start.reprieved()) as int, n);
                    assert(self.current == start.victim_index());
                    assert forall|i: int| 0 <= i < n implies self.list@[i]
                        == start.swept().entries[i] by {
                        lemma_wrap_down(i - start.hand, n);
                    }
                    assert(self.list@ =~= start.swept().entries);
                    assert(self@ == start.swept());
                    start.lemma_evicted();
                }
                let frame_id = self.list[self.current].0;
                self.remove(self.current);
                return Some(frame_id);
            }
        }
    }

    /// Tracks the frame, with its reference bit set, unless it is tracked
    /// already.
    fn unpin(&mut self, id: FrameId)
        ensures
            final(self)@ == old(self)@.unpinned(id),
    {
        proof {
            self@.lemma_unpinned(id);
        }
        let known = self.position(id).is_some();
        if !known {
            self.list.push((id, true));
        }
    }

    /// Stops tracking the frame.
    fn pin(&mut self, id: FrameId)
        ensures
            final(self)@ == old(self)@.pinned(id),
    {
        proof {
            self@.lemma_pinned(id);
        }
        if let Some(index) = self.position(id) {
            self.remove(index);
        }
    }
}

/// One entry of a clock, as it is reported.
pub struct ClockValue {
    pub clock_frame: i32,
    pub reference_value: bool,
}

/// A clock as it is reported: the position of the hand and the entries in
/// their order.
pub struct ClockReplacerRep {
    pub clock_hand: i32,
    pub clock: Vec<ClockValue>,
}

impl ClockReplacerRep {
    /// The reported entries as pairs of frame and reference bit.
    pub open spec fn entries(&self) -> Seq<(FrameId, bool)> {
        self.clock@.map_values(|value: ClockValue| (value.clock_frame, value.reference_value))
    }
}

impl ClockReplacer {
    /// Reports the clock: every entry in order, and the position of the hand
    /// as an `i32`.
    pub fn response(&self) -> (rep: ClockReplacerRep)
        ensures
            rep.entries() == self@.entries,
            rep.clock_hand == self@.hand as i32,
    {
        let mut clock: Vec<ClockValue> = Vec::new();
        let mut index: usize = 0;
        while index < self.list.len()
            invariant
                index <= self.list.len(),
                clock@.len() == index,
                forall|j: int|
                    0 <= j < index ==> (#[trigger] clock@[j]).clock_frame == self.list@[j].0
                        && clock@[j].reference_value == self.list@[j].1,
            decreases self.list.len() - index,
        {
            let (id, value) = self.list[index];
            clock.push(ClockValue { clock_frame: id, reference_value: value });
            index += 1;
        }
        let rep = ClockReplacerRep {
            clock_hand: #[verifier::truncate]
            (self.current as i32),
            clock,
        };
        proof {
            assert(rep.entries() =~= self@.entries);
        }
        rep
    }
}

impl Clock {
    /// A frame that was pinned is not the next victim, and a frame that is not
    /// tracked is never the victim.
    pub proof fn lemma_pinned_not_victim(self, frame: FrameId)
        requires
            self.valid(),
        ensures
            self.pinned(frame).victim() != Some(frame),
            !self.frames().contains(frame) ==> self.victim() != Some(frame),
    {
        self.lemma_pinned(frame);
        let after = self.pinned(frame);
        if after.entries.len() > 0 {
            after.lemma_evicted();
            assert(after.frames().to_set().contains(after.victim()->0));
        }
        if self.entries.len() > 0 {
            self.lemma_evicted();
        }
    }

    /// The clock that tracks no frame.
    pub open spec fn empty() -> Clock {
        Clock { entries: Seq::empty(), hand: 0 }
    }

    /// The clock after the frames of `frames` were unpinned, first to last.
    pub open spec fn unpinned_all(self, frames: Seq<FrameId>) -> Clock
        decreases frames.len(),
    {
        if frames.len() == 0 {
            self
        } else {
            self.unpinned_all(frames.drop_last()).unpinned(frames.last())
        }
    }

    /// The clock after `count` victims were picked.
    pub open spec fn evicted_times(self, count: nat) -> Clock
        decreases count,
    {
        if count == 0 {
            self
        } else {
            self.evicted_times((count - 1) as nat).evicted()
        }
    }

    /// The clock that tracks `frames` in this order, every reference bit being
    /// `bit`, with the hand on the first.
    pub open spec fn lined_up(frames: Seq<FrameId>, bit: bool) -> Clock {
        Clock { entries: frames.map_values(|f: FrameId| (f, bit)), hand: 0 }
    }

    /// Unpinning distinct frames into an empty clock lines them up with
    /// their bits set.
    pub proof fn lemma_unpinned_all(frames: Seq<FrameId>)
        requires
            frames.no_duplicates(),
        ensures
            Clock::empty().unpinned_all(frames) == Clock::lined_up(frames, true),
        decreases frames.len(),
    {
        if frames.len() == 0 {
            assert(Clock::lined_up(frames, true).entries =~= Seq::empty());
        } else {
            let before = frames.drop_last();
            Clock::lemma_unpinned_all(before);
            let clock = Clock::lined_up(before, true);
            assert(clock.frames() =~= before);
            assert(!before.contains(frames.last())) by {
                if before.contains(frames.last()) {
                    let i = choose|i: int| 0 <= i < before.len() && before[i] == frames.last();
                    assert(frames[i] == frames[frames.len() - 1]);
                }
            }
            assert(clock.unpinned(frames.last()).entries =~= Clock::lined_up(
                frames,
                true,
            ).entries);
        }
    }

    /// From a line of frames whose bits are all equal, the first frame is the
    /// victim, and the others stay lined up with their bits clear.
    pub proof fn lemma_lined_up_evicted(frames: Seq<FrameId>, bit: bool)
        requires
            frames.len() > 0,
        ensures
            Clock::lined_up(frames, bit).victim() == Some(frames[0]),
            Clock::lined_up(frames, bit).evicted() == Clock::lined_up(frames.drop_first(), false),
    {
        let clock = Clock::lined_up(frames, bit);
        let n = frames.len() as int;
        assert(clock.clock_order() =~= clock.entries);
        lemma_leading_set(clock.entries);
        if bit {
            assert(clock.reprieved() == n) by {
                if clock.reprieved() < n {
                    assert(clock.entries[clock.reprieved() as int].1);
                }
            }
            lemma_wrap_up(n, n);
        } else {
            assert(clock.reprieved() == 0);
            lemma_wrap_up(0, n);
        }
        assert(clock.victim_index() == 0);
        assert forall|i: int| 0 <= i < n implies clock.swept().entries[i] == (
            frames[i],
            false,
        ) by {
            lemma_wrap_down(i, n);
        }
        assert(clock.evicted().entries =~= Clock::lined_up(frames.drop_first(), false).entries);
    }

    /// Frames that were unpinned one after the other into an empty clock
    /// leave it in the order in which they came: after `count` victims the
    /// next victim is the frame at `count`, and none is left after the last.
    pub proof fn lemma_victims_in_order(frames: Seq<FrameId>, count: nat)
        requires
            frames.no_duplicates(),
            count <= frames.len(),
        ensures
            Clock::empty().unpinned_all(frames).evicted_times(count).victim() == if count
                < frames.len() {
                Some(frames[count as int])
            } else {
                None
            },
    {
        Clock::lemma_unpinned_all(frames);
        Clock::lemma_evicted_times(frames, count);
        let rest = frames.subrange(count as int, frames.len() as int);
        if count < frames.len() {
            Clock::lemma_lined_up_evicted(rest, count == 0);
        }
    }

    /// After `count` victims the line of frames has lost its first `count`
    /// frames.
    proof fn lemma_evicted_times(frames: Seq<FrameId>, count: nat)
        requires
            count <= frames.len(),
        ensures
            Clock::lined_up(frames, true).evicted_times(count) == Clock::lined_up(
                frames.subrange(count as int, frames.len() as int),
                count == 0,
            ),
        decreases count,
    {
        if count == 0 {
            assert(frames.subrange(0, frames.len() as int) =~= frames);
        } else {
            let before = (count - 1) as nat;
            Clock::lemma_evicted_times(frames, before);
            let rest = frames.subrange(before as int, frames.len() as int);
            Clock::lemma_lined_up_evicted(rest, before == 0);
            assert(rest.drop_first() =~= frames.subrange(count as int, frames.len() as int));
        }
    }
}

} // verus!
