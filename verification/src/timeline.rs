use vstd::prelude::*;

use osu_format::TimingPoint;

verus! {

#[verifier::external_type_specification]
#[verifier::external_body]
pub struct ExTimingPoint(TimingPoint);

/// Whether `result` is a point that `TimingPoint::inherit` can return for
/// `point` and the previous uninherited point `prev`. A relation and not a
/// function: the beat length of an inherited point is an f32 sum, and the
/// NaN that a sum may give is not fixed from one evaluation to the next.
pub uninterp spec fn inherit_result(point: TimingPoint, prev: TimingPoint, result: TimingPoint) -> bool;

/// The offset field of a timing point: the time in milliseconds from which
/// it applies.
pub uninterp spec fn timing_offset(point: TimingPoint) -> u32;

/// The inherited field of a timing point: whether it takes its beat length
/// relative to the last uninherited point.
pub uninterp spec fn timing_inherited(point: TimingPoint) -> bool;

/// Whether `point` is the point that `TimingPoint::default` builds: every
/// number zero and every flag false.
pub uninterp spec fn is_default_point(point: TimingPoint) -> bool;

/// What is known of a point that `TimingPoint::inherit` returns for `point`
/// and `prev`: it keeps the offset of `point`; an uninherited `point` comes
/// back unchanged; an inherited one takes the inherited flag of `prev`.
pub open spec fn inherits(point: TimingPoint, prev: TimingPoint, result: TimingPoint) -> bool {
    &&& inherit_result(point, prev, result)
    &&& timing_offset(result) == timing_offset(point)
    &&& !timing_inherited(point) ==> result == point
    &&& timing_inherited(point) ==> timing_inherited(result) == timing_inherited(prev)
}

/// `TimingPoint::inherit`: the point that `point` stands for once it takes
/// what it inherits from `prev`. The source clones `point`; when `point` is
/// inherited it then sets the beat length to the f32 sum of both beat
/// lengths and the inherited flag to that of `prev`. The contract states the
/// offset and the flag; of the beat length it says only that the result is
/// related to the two points by `inherit_result`.
#[verifier::external_body]
fn inherit(point: &TimingPoint, prev: &TimingPoint) -> (p: TimingPoint)
    ensures
        inherit_result(*point, *prev, p),
        timing_offset(p) == timing_offset(*point),
        !timing_inherited(*point) ==> p == *point,
        timing_inherited(*point) ==> timing_inherited(p) == timing_inherited(*prev),
{
    point.inherit(prev)
}

/// Reads the `offset` field of a timing point, named by `timing_offset`.
#[verifier::external_body]
fn offset_of(point: &TimingPoint) -> (o: u32)
    ensures
        o == timing_offset(*point),
{
    point.offset
}

/// Reads the `inherited` field of a timing point, named by `timing_inherited`.
#[verifier::external_body]
fn inherited_of(point: &TimingPoint) -> (i: bool)
    ensures
        i == timing_inherited(*point),
{
    point.inherited
}

/// `TimingPoint::clone`, which the crate derives: a copy of every field.
#[verifier::external_body]
fn copy_point(point: &TimingPoint) -> (p: TimingPoint)
    ensures
        p == *point,
{
    point.clone()
}

/// `TimingPoint::default`, which the crate derives: every field zero or
/// false, named by `is_default_point`; its offset is 0 and it is not
/// inherited.
#[verifier::external_body]
fn blank_point() -> (p: TimingPoint)
    ensures
        is_default_point(p),
        timing_offset(p) == 0,
        !timing_inherited(p),
{
    TimingPoint::default()
}

/// A timing point of the beatmap together with the two of its fields that
/// decide how the timeline walks through it, read once.
pub struct TimingEntry {
    offset: u32,
    inherited: bool,
    point: TimingPoint,
}

impl TimingEntry {
    /// Time in milliseconds from which the point applies.
    pub closed spec fn offset(self) -> u32 {
        self.offset
    }

    /// Whether the point takes its beat length relative to the last
    /// uninherited point.
    pub closed spec fn is_inherited(self) -> bool {
        self.inherited
    }

    /// The point itself.
    pub closed spec fn point(self) -> TimingPoint {
        self.point
    }

    /// The entry of `point`, with its offset and inherited fields read.
    pub fn new(point: TimingPoint) -> (e: TimingEntry)
        ensures
            e.point() == point,
            e.offset() == timing_offset(point),
            e.is_inherited() == timing_inherited(point),
    {
        let offset = offset_of(&point);
        let inherited = inherited_of(&point);
        TimingEntry { offset, inherited, point }
    }
}

/// Index of the first entry from `from` on whose offset lies after `t`, or
/// the number of entries when there is none.
pub open spec fn reached(entries: Seq<TimingEntry>, from: int, t: u32) -> int
    decreases entries.len() - from,
{
    if from < 0 || from >= entries.len() {
        if from < 0 { 0 } else { from }
    } else if entries[from].offset() > t {
        from
    } else {
        reached(entries, from + 1, t)
    }
}

/// The point that the last uninherited entry among the first `n` holds, or
/// `blank` when there is none.
pub open spec fn parent_point(entries: Seq<TimingEntry>, n: int, blank: TimingPoint) -> TimingPoint
    decreases n,
{
    if n <= 0 || n > entries.len() {
        blank
    } else if !entries[n - 1].is_inherited() {
        entries[n - 1].point()
    } else {
        parent_point(entries, n - 1, blank)
    }
}

/// Whether `p` is a point in effect once the first `n` entries have been
/// passed: the last of them, completed from the uninherited entry before
/// it, or `blank` before any entry.
pub open spec fn is_point_after(entries: Seq<TimingEntry>, n: int, blank: TimingPoint, p: TimingPoint) -> bool {
    if n <= 0 || n > entries.len() {
        p == blank
    } else {
        inherits(entries[n - 1].point(), parent_point(entries, n - 1, blank), p)
    }
}

/// Walks the timing points of a beatmap forward in time.
pub struct Timeline {
    entries: Vec<TimingEntry>,
    next: usize,
    current: TimingPoint,
    last_parent: TimingPoint,
    blank: TimingPoint,
}

impl Timeline {
    /// The stored points agree with the points passed.
    pub closed spec fn wf(&self) -> bool {
        &&& self.next <= self.entries@.len()
        &&& is_point_after(self.entries@, self.next as int, self.blank, self.current)
        &&& self.last_parent == parent_point(self.entries@, self.next as int, self.blank)
    }

    /// The timing points, in the order the timeline walks them.
    pub closed spec fn entries(&self) -> Seq<TimingEntry> {
        self.entries@
    }

    /// How many timing points have been passed.
    pub closed spec fn passed(&self) -> int {
        self.next as int
    }

    /// The point that stands before any timing point has been passed.
    pub closed spec fn blank(&self) -> TimingPoint {
        self.blank
    }

    /// The point in effect: the one that `at` returned last.
    pub closed spec fn current_point(&self) -> TimingPoint {
        self.current
    }

    /// A timeline at its start, before its first timing point.
    pub fn new(timing_points: Vec<TimingEntry>) -> (tl: Timeline)
        ensures
            tl.wf(),
            tl.entries() == timing_points@,
            tl.passed() == 0,
            tl.passed() <= tl.entries().len(),
            is_default_point(tl.blank()),
            timing_offset(tl.blank()) == 0,
            !timing_inherited(tl.blank()),
            tl.current_point() == tl.blank(),
    {
        let blank = blank_point();
        let current = copy_point(&blank);
        let last_parent = copy_point(&blank);
        Timeline { entries: timing_points, next: 0, current, last_parent, blank }
    }

    /// The point in effect at time `t`: passes every timing point whose
    /// offset is at most `t`, in order, up to the first one that lies after
    /// `t`, and returns the last point passed, completed from the
    /// uninherited point before it.
    pub fn at(&mut self, t: u32) -> (p: &TimingPoint)
        requires
            old(self).wf(),
        ensures
            final(self).wf(),
            final(self).entries() == old(self).entries(),
            final(self).blank() == old(self).blank(),
            final(self).passed() == reached(old(self).entries(), old(self).passed(), t),
            0 <= final(self).passed() <= final(self).entries().len(),
            *p == final(self).current_point(),
            is_point_after(final(self).entries(), final(self).passed(), final(self).blank(), *p),
            final(self).passed() == old(self).passed() ==> final(self).current_point() == old(
                self,
            ).current_point(),
            final(self).passed() == 0 ==> *p == final(self).blank(),
            final(self).passed() > 0 ==> timing_offset(*p) == timing_offset(
                final(self).entries()[final(self).passed() - 1].point(),
            ),
    {
        let ghost start = self.next as int;
        let ghost entries0 = self.entries@;
        let ghost blank0 = self.blank;
        let ghost current0 = self.current;
        let len = self.entries.len();
        while self.next < len
            invariant
                self.entries@ == entries0,
                self.blank == blank0,
                len == self.entries@.len(),
                start <= self.next <= len,
                self.next == start ==> self.current == current0,
                reached(self.entries@, start, t) == reached(self.entries@, self.next as int, t),
                is_point_after(self.entries@, self.next as int, self.blank, self.current),
                self.last_parent == parent_point(self.entries@, self.next as int, self.blank),
            ensures
                self.entries@ == entries0,
                self.blank == blank0,
                start <= self.next <= len,
                self.next == start ==> self.current == current0,
                reached(self.entries@, start, t) == self.next,
                is_point_after(self.entries@, self.next as int, self.blank, self.current),
                self.last_parent == parent_point(self.entries@, self.next as int, self.blank),
            decreases len - self.next,
        {
            let i = self.next;
            if self.entries[i].offset > t {
                break;
            }
            let current = inherit(&self.entries[i].point, &self.last_parent);
            let mut last_parent = copy_point(&self.last_parent);
            if !self.entries[i].inherited {
                last_parent = copy_point(&self.entries[i].point);
            }
            let ghost n = (i + 1) as int;
            assert(parent_point(self.entries@, n, self.blank) == last_parent);
            self.current = current;
            self.last_parent = last_parent;
            self.next = i + 1;
        }
        &self.current
    }
}

/// Asking twice for the same time passes no further timing point the
/// second time.
pub proof fn lemma_reached_idempotent(entries: Seq<TimingEntry>, from: int, t: u32)
    requires
        0 <= from <= entries.len(),
    ensures
        reached(entries, reached(entries, from, t), t) == reached(entries, from, t),
    decreases entries.len() - from,
{
    if from < entries.len() && entries[from].offset() <= t {
        lemma_reached_idempotent(entries, from + 1, t);
    }
}

/// Passing timing points stays within the entries and never goes back.
pub proof fn lemma_reached_bounds(entries: Seq<TimingEntry>, from: int, t: u32)
    requires
        0 <= from <= entries.len(),
    ensures
        from <= reached(entries, from, t) <= entries.len(),
    decreases entries.len() - from,
{
    if from < entries.len() && entries[from].offset() <= t {
        lemma_reached_bounds(entries, from + 1, t);
    }
}

/// The timeline only moves forward, and never further for an earlier time.
pub proof fn lemma_reached_monotone(entries: Seq<TimingEntry>, from: int, t1: u32, t2: u32)
    requires
        0 <= from <= entries.len(),
        t1 <= t2,
    ensures
        from <= reached(entries, from, t1) <= reached(entries, from, t2) <= entries.len(),
    decreases entries.len() - from,
{
    lemma_reached_bounds(entries, from, t2);
    if from < entries.len() && entries[from].offset() <= t1 {
        lemma_reached_monotone(entries, from + 1, t1, t2);
    }
}

/// Asking for `t1` and then for a later `t2` passes the same timing points
/// as asking for `t2` at once.
pub proof fn lemma_reached_compose(entries: Seq<TimingEntry>, from: int, t1: u32, t2: u32)
    requires
        0 <= from <= entries.len(),
        t1 <= t2,
    ensures
        reached(entries, reached(entries, from, t1), t2) == reached(entries, from, t2),
    decreases entries.len() - from,
{
    if from < entries.len() && entries[from].offset() <= t1 {
        lemma_reached_compose(entries, from + 1, t1, t2);
    }
}

/// Every timing point passed on the way lies at or before `t`, and the
/// first one not passed lies after it.
pub proof fn lemma_reached_exact(entries: Seq<TimingEntry>, from: int, t: u32)
    requires
        0 <= from <= entries.len(),
    ensures
        forall|i: int| from <= i < reached(entries, from, t) ==> entries[i].offset() <= t,
        reached(entries, from, t) < entries.len() ==> entries[reached(entries, from, t)].offset() > t,
    decreases entries.len() - from,
{
    if from < entries.len() && entries[from].offset() <= t {
        lemma_reached_exact(entries, from + 1, t);
    }
}

/// The point an entry is completed from is the last uninherited entry
/// before it, or the blank point when every entry before it is inherited.
pub proof fn lemma_parent_is_last_uninherited(entries: Seq<TimingEntry>, n: int, blank: TimingPoint)
    requires
        0 <= n <= entries.len(),
    ensures
        forall|i: int|
            0 <= i < n && !entries[i].is_inherited() && (forall|j: int|
                i < j < n ==> #[trigger] entries[j].is_inherited()) ==> parent_point(entries, n, blank)
                == #[trigger] entries[i].point(),
        (forall|j: int| 0 <= j < n ==> #[trigger] entries[j].is_inherited()) ==> parent_point(
            entries,
            n,
            blank,
        ) == blank,
    decreases n,
{
    if n > 0 {
        lemma_parent_is_last_uninherited(entries, n - 1, blank);
        assert forall|i: int|
            0 <= i < n && !entries[i].is_inherited() && (forall|j: int|
                i < j < n ==> #[trigger] entries[j].is_inherited()) implies parent_point(entries, n, blank)
            == #[trigger] entries[i].point() by {
            if i < n - 1 {
                assert(entries[n - 1].is_inherited());
                assert forall|j: int| i < j < n - 1 implies #[trigger] entries[j].is_inherited() by {
                    assert(i < j < n);
                }
            }
        }
        if forall|j: int| 0 <= j < n ==> #[trigger] entries[j].is_inherited() {
            assert(entries[n - 1].is_inherited());
            assert forall|j: int| 0 <= j < n - 1 implies #[trigger] entries[j].is_inherited() by {
                assert(0 <= j < n);
            }
        }
    }
}

/// The point in effect once `n` entries are passed: the blank point before
/// any; the last entry passed itself when it is uninherited; otherwise that
/// entry completed from the last uninherited entry before it, or from the
/// blank point when there is none.
pub proof fn lemma_point_after_explicit(entries: Seq<TimingEntry>, n: int, blank: TimingPoint, p: TimingPoint)
    requires
        0 <= n <= entries.len(),
        is_point_after(entries, n, blank, p),
    ensures
        n == 0 ==> p == blank,
        n > 0 ==> timing_offset(p) == timing_offset(entries[n - 1].point()),
        n > 0 && !timing_inherited(entries[n - 1].point()) ==> p == entries[n - 1].point(),
        n > 0 ==> forall|i: int|
            0 <= i < n - 1 && !entries[i].is_inherited() && (forall|j: int|
                i < j < n - 1 ==> #[trigger] entries[j].is_inherited()) ==> inherit_result(
                entries[n - 1].point(),
                #[trigger] entries[i].point(),
                p,
            ),
        n > 0 && (forall|j: int| 0 <= j < n - 1 ==> #[trigger] entries[j].is_inherited())
            ==> inherit_result(entries[n - 1].point(), blank, p),
{
    if n > 0 {
        lemma_parent_is_last_uninherited(entries, n - 1, blank);
    }
}

} // verus!
