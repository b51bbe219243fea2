use vstd::prelude::*;

use crate::difficulty::{HitAccuracy, lemma_hold_is_min};

verus! {

/// What kind of object a note is, as far as judging goes.
#[derive(Debug, Clone, Copy, PartialEq, Eq, Structural)]
pub enum NoteKind {
    /// A single tap.
    Circle,
    /// A note held from its time until `end_time`.
    LongNote { end_time: u32 },
    /// Any other object: it can only pass by unhit.
    Other,
}

/// One object of the beatmap, placed in its key column.
#[derive(Debug, Clone, Copy, PartialEq, Eq, Structural)]
pub struct Note {
    /// The key column the note falls in.
    pub column: u32,
    /// The time of the note in milliseconds.
    pub time: u32,
    pub kind: NoteKind,
}

impl Note {
    /// The time by which the note has to be over: the end of a long note,
    /// the time of any other note.
    pub open spec fn end(self) -> u32 {
        match self.kind {
            NoteKind::LongNote { end_time } => end_time,
            _ => self.time,
        }
    }

    /// The time by which the note has to be over: the end of a long note,
    /// the time of any other note.
    pub fn end_time(&self) -> (t: u32)
        ensures
            t == self.end(),
    {
        match self.kind {
            NoteKind::LongNote { end_time } => end_time,
            _ => self.time,
        }
    }
}

/// The notes of `notes` that fall in column `k`, in their order.
pub open spec fn notes_in_column(notes: Seq<Note>, k: int) -> Seq<Note>
    decreases notes.len(),
{
    if notes.len() == 0 {
        Seq::empty()
    } else {
        let rest = notes_in_column(notes.drop_last(), k);
        if notes.last().column == k {
            rest.push(notes.last())
        } else {
            rest
        }
    }
}

/// Sum of the first `n` numbers of `s`.
pub open spec fn sum_prefix(s: Seq<usize>, n: int) -> int
    decreases n,
{
    if n <= 0 || n > s.len() {
        0
    } else {
        sum_prefix(s, n - 1) + s[n - 1]
    }
}

/// The state of the hit line: for each key column, its notes, how many of
/// them have been judged, and the press judgement of a long note being held.
#[verifier::ext_equal]
pub struct LineState {
    pub columns: Seq<Seq<Note>>,
    pub passed: Seq<usize>,
    pub held: Seq<Option<HitAccuracy>>,
}

/// What a long note that passes its window unreleased is judged: the hold
/// of its press judgement, if it was pressed, with a miss.
pub open spec fn miss_result(held: Option<HitAccuracy>) -> HitAccuracy {
    match held {
        Some(pressed) => pressed.held(Some(HitAccuracy::Miss)),
        None => HitAccuracy::Miss,
    }
}

impl LineState {
    /// Number of key columns.
    pub open spec fn keys(self) -> int {
        self.columns.len() as int
    }

    /// Every column has a count of judged notes within its notes, and a
    /// held judgement.
    pub open spec fn wf(self) -> bool {
        &&& self.passed.len() == self.columns.len()
        &&& self.held.len() == self.columns.len()
        &&& forall|k: int| 0 <= k < self.keys() ==> #[trigger] self.passed[k] <= self.columns[k].len()
        &&& forall|k: int| 0 <= k < self.keys() ==> #[trigger] self.columns[k].len() <= usize::MAX
    }

    /// The next note of column `k` to be judged, if any is left.
    pub open spec fn current(self, k: int) -> Option<Note> {
        if 0 <= k < self.keys() && self.passed[k] < self.columns[k].len() {
            Some(self.columns[k][self.passed[k] as int])
        } else {
            None
        }
    }

    /// Number of notes judged in all columns together.
    pub open spec fn consumed(self) -> int {
        sum_prefix(self.passed, self.passed.len() as int)
    }

    /// The state once the current note of column `k` has been judged.
    pub open spec fn advanced(self, k: int) -> LineState {
        LineState { passed: self.passed.update(k, (self.passed[k] + 1) as usize), ..self }
    }

    /// The state with `h` as the held judgement of column `k`.
    pub open spec fn with_held(self, k: int, h: Option<HitAccuracy>) -> LineState {
        LineState { held: self.held.update(k, h), ..self }
    }

    /// Pressing key `k`, with `judged` the judgement of the press against
    /// the current note of the column: a circle hit in its window is judged
    /// and passed; a long note keeps its press judgement until its release,
    /// unless one is already kept; nothing else happens.
    pub open spec fn press_step(self, k: int, judged: HitAccuracy) -> (LineState, Option<HitAccuracy>) {
        match self.current(k) {
            None => (self, None),
            Some(note) => match note.kind {
                NoteKind::Circle => if judged == HitAccuracy::Miss {
                    (self, None)
                } else {
                    (self.advanced(k), Some(judged))
                },
                NoteKind::LongNote { .. } => if self.held[k] is Some {
                    (self, None)
                } else {
                    (self.with_held(k, Some(judged)), None)
                },
                NoteKind::Other => (self, None),
            },
        }
    }

    /// Releasing key `k`, with `judged` the judgement of the release against
    /// the end of the current note: a long note that was pressed is judged
    /// as the hold of both judgements and passed when released in its
    /// window; released too early, it keeps a miss as its press judgement.
    pub open spec fn release_step(self, k: int, judged: HitAccuracy) -> (LineState, Option<HitAccuracy>) {
        match self.current(k) {
            Some(note) => match note.kind {
                NoteKind::LongNote { .. } => match self.held[k] {
                    None => (self, None),
                    Some(pressed) => if judged == HitAccuracy::Miss {
                        (self.with_held(k, Some(HitAccuracy::Miss)), None)
                    } else {
                        (self.with_held(k, None).advanced(k), Some(pressed.held(Some(judged))))
                    },
                },
                _ => (self, None),
            },
            None => (self, None),
        }
    }

    /// Whether the current note of column `k` has passed its window unhit,
    /// as `late` says of each column.
    pub open spec fn expires(self, late: Seq<bool>, k: int) -> bool {
        late[k] && self.current(k) is Some
    }

    /// Going through the first `n` columns in order, every note that has
    /// passed its window unhit is judged and passed.
    pub open spec fn expire_upto(self, late: Seq<bool>, n: int) -> (LineState, Seq<HitAccuracy>)
        decreases n,
    {
        if n <= 0 {
            (self, Seq::empty())
        } else {
            let (s, out) = self.expire_upto(late, n - 1);
            if s.expires(late, n - 1) {
                (
                    s.with_held(n - 1, None).advanced(n - 1),
                    out.push(miss_result(s.held[n - 1])),
                )
            } else {
                (s, out)
            }
        }
    }
}

/// One call made on a hit line: a press or a release of key `k` with the
/// judgement of its timing, or the passing of time with the flags that say
/// which columns have a note past its window.
pub enum LineEvent {
    Press(int, HitAccuracy),
    Release(int, HitAccuracy),
    Tick(Seq<bool>),
}

/// The judgement of a press or release, as a sequence of zero or one.
pub open spec fn judged_seq(r: Option<HitAccuracy>) -> Seq<HitAccuracy> {
    match r {
        Some(a) => seq![a],
        None => Seq::empty(),
    }
}

/// Sum of the lengths of the first `n` columns.
pub open spec fn len_sum(columns: Seq<Seq<Note>>, n: int) -> int
    decreases n,
{
    if n <= 0 || n > columns.len() {
        0
    } else {
        len_sum(columns, n - 1) + columns[n - 1].len()
    }
}

/// `m` ticks with the same late flags.
pub open spec fn ticks(late: Seq<bool>, m: nat) -> Seq<LineEvent> {
    Seq::new(m, |i: int| LineEvent::Tick(late))
}

impl LineState {
    /// Number of notes in all columns together.
    pub open spec fn capacity(self) -> int {
        len_sum(self.columns, self.columns.len() as int)
    }

    /// The event names a key of the line, or has a flag for each column.
    pub open spec fn event_valid(self, e: LineEvent) -> bool {
        match e {
            LineEvent::Press(k, _) => 0 <= k < self.keys(),
            LineEvent::Release(k, _) => 0 <= k < self.keys(),
            LineEvent::Tick(late) => late.len() == self.keys(),
        }
    }

    /// The state after one event, and the judgements it gives.
    pub open spec fn event_step(self, e: LineEvent) -> (LineState, Seq<HitAccuracy>) {
        match e {
            LineEvent::Press(k, judged) => {
                let (t, r) = self.press_step(k, judged);
                (t, judged_seq(r))
            },
            LineEvent::Release(k, judged) => {
                let (t, r) = self.release_step(k, judged);
                (t, judged_seq(r))
            },
            LineEvent::Tick(late) => self.expire_upto(late, self.keys()),
        }
    }

    /// The state after the events in order, and all the judgements they give.
    pub open spec fn run(self, events: Seq<LineEvent>) -> (LineState, Seq<HitAccuracy>)
        decreases events.len(),
    {
        if events.len() == 0 {
            (self, Seq::empty())
        } else {
            let (t, out) = self.run(events.drop_last());
            let (u, more) = t.event_step(events.last());
            (u, out + more)
        }
    }

    /// The state that `HitLine::new` gives for `notes` and `keys` columns.
    pub open spec fn is_start(self, notes: Seq<Note>, keys: int) -> bool {
        &&& self.wf()
        &&& self.keys() == keys
        &&& forall|k: int| 0 <= k < keys ==> #[trigger] self.columns[k] == notes_in_column(notes, k)
        &&& forall|k: int| 0 <= k < keys ==> #[trigger] self.passed[k] == 0
        &&& forall|k: int| 0 <= k < keys ==> #[trigger] self.held[k] is None
    }
}

/// The notes of a beatmap split into key columns, and how far each column
/// has been judged.
pub struct HitLine {
    columns: Vec<Vec<Note>>,
    next: Vec<usize>,
    last: Vec<Option<HitAccuracy>>,
}

impl View for HitLine {
    type V = LineState;

    closed spec fn view(&self) -> LineState {
        LineState {
            columns: self.columns@.map_values(|c: Vec<Note>| c@),
            passed: self.next@,
            held: self.last@,
        }
    }
}

impl HitLine {
    /// Splits `notes` into `keys_count` columns, each holding the notes of
    /// its column in their order; notes of a column past the last key are
    /// left out. No note is judged yet.
    pub fn new(keys_count: u32, notes: &Vec<Note>) -> (line: HitLine)
        ensures
            line@.is_start(notes@, keys_count as int),
            line@.wf(),
            line@.keys() == keys_count,
            forall|k: int| 0 <= k < keys_count ==> #[trigger] line@.columns[k] == notes_in_column(notes@, k),
            forall|k: int| 0 <= k < keys_count ==> #[trigger] line@.passed[k] == 0,
            forall|k: int| 0 <= k < keys_count ==> #[trigger] line@.held[k] is None,
    {
        let mut columns: Vec<Vec<Note>> = Vec::new();
        let mut next: Vec<usize> = Vec::new();
        let mut last: Vec<Option<HitAccuracy>> = Vec::new();
        let mut key: u32 = 0;
        while key < keys_count
            invariant
                key <= keys_count,
                columns@.len() == key,
                next@.len() == key,
                last@.len() == key,
                forall|k: int| 0 <= k < key ==> #[trigger] columns@[k]@ == notes_in_column(notes@, k),
                forall|k: int| 0 <= k < key ==> #[trigger] next@[k] == 0,
                forall|k: int| 0 <= k < key ==> #[trigger] last@[k] is None,
            decreases keys_count - key,
        {
            let mut column: Vec<Note> = Vec::new();
            let len = notes.len();
            let mut i: usize = 0;
            while i < len
                invariant
                    len == notes@.len(),
                    i <= len,
                    column@ == notes_in_column(notes@.take(i as int), key as int),
                decreases len - i,
            {
                let note = notes[i];
                assert(notes@.take(i + 1).drop_last() =~= notes@.take(i as int));
                if note.column == key {
                    column.push(note);
                }
                i = i + 1;
            }
            assert(notes@.take(len as int) =~= notes@);
            columns.push(column);
            next.push(0);
            last.push(None);
            key = key + 1;
        }
        let line = HitLine { columns, next, last };
        assert forall|k: int| 0 <= k < line@.keys() implies #[trigger] line@.passed[k] <= line@.columns[k].len() by {
            assert(line@.passed[k] == 0);
        }
        assert forall|k: int| 0 <= k < line@.keys() implies #[trigger] line@.columns[k].len() <= usize::MAX by {
            assert(line@.columns[k] == line.columns@[k]@);
            lemma_column_members(notes@, k);
            assert(notes@.len() == notes.len());
        }
        line
    }

    /// Number of key columns.
    pub fn keys_count(&self) -> (n: usize)
        ensures
            n == self@.keys(),
    {
        self.columns.len()
    }

    /// The next note of column `key` to be judged, if any is left.
    pub fn current(&self, key: u32) -> (n: Option<Note>)
        requires
            self@.wf(),
            key < self@.keys(),
        ensures
            n == self@.current(key as int),
    {
        self.current_at(key as usize)
    }

    fn current_at(&self, k: usize) -> (n: Option<Note>)
        requires
            self@.wf(),
            k < self@.keys(),
        ensures
            n == self@.current(k as int),
    {
        let i = self.next[k];
        if i < self.columns[k].len() {
            Some(self.columns[k][i])
        } else {
            None
        }
    }

    /// The press judgement kept for the long note of column `key`.
    pub fn held(&self, key: u32) -> (h: Option<HitAccuracy>)
        requires
            self@.wf(),
            key < self@.keys(),
        ensures
            h == self@.held[key as int],
    {
        self.last[key as usize]
    }

    fn advance(&mut self, k: usize)
        requires
            old(self)@.wf(),
            k < old(self)@.keys(),
            old(self)@.current(k as int) is Some,
        ensures
            final(self)@ == old(self)@.advanced(k as int),
            final(self)@.wf(),
    {
        let i = self.next[k];
        let len = self.columns[k].len();
        assert(self@.columns[k as int] == self.columns@[k as int]@);
        assert(i < len);
        self.next[k] = i + 1;
        assert(self@.columns == old(self)@.columns);
    }

    fn keep(&mut self, k: usize, h: Option<HitAccuracy>)
        requires
            old(self)@.wf(),
            k < old(self)@.keys(),
        ensures
            final(self)@ == old(self)@.with_held(k as int, h),
            final(self)@.wf(),
    {
        self.last[k] = h;
        assert(self@.columns == old(self)@.columns);
    }

    /// Judges the notes that have passed their window unhit: `late[k]` tells
    /// whether the current note of column `k` is past its window. Each such
    /// note is passed and its judgement returned, column by column.
    pub fn at(&mut self, late: &Vec<bool>) -> (missed: Vec<HitAccuracy>)
        requires
            old(self)@.wf(),
            late@.len() == old(self)@.keys(),
        ensures
            final(self)@ == old(self)@.expire_upto(late@, old(self)@.keys()).0,
            missed@ == old(self)@.expire_upto(late@, old(self)@.keys()).1,
            final(self)@.wf(),
    {
        let mut missed: Vec<HitAccuracy> = Vec::new();
        let keys = self.columns.len();
        let ghost start = self@;
        let mut key: usize = 0;
        while key < keys
            invariant
                keys == start.keys(),
                late@.len() == keys,
                key <= keys,
                self@.wf(),
                self@.columns == start.columns,
                self@ == start.expire_upto(late@, key as int).0,
                missed@ == start.expire_upto(late@, key as int).1,
            decreases keys - key,
        {
            let current = self.current_at(key);
            if current.is_some() && late[key] {
                let acc = match self.last[key] {
                    Some(pressed) => pressed.hold_note(Some(HitAccuracy::Miss)),
                    None => HitAccuracy::Miss,
                };
                self.keep(key, None);
                self.advance(key);
                missed.push(acc);
            }
            key = key + 1;
        }
        missed
    }

    /// Presses key `key`; `judged` is the judgement of the press against the
    /// current note of the column. Returns the judgement of the note when
    /// the press completes one.
    pub fn press(&mut self, key: u32, judged: HitAccuracy) -> (r: Option<HitAccuracy>)
        requires
            old(self)@.wf(),
            key < old(self)@.keys(),
        ensures
            final(self)@ == old(self)@.press_step(key as int, judged).0,
            r == old(self)@.press_step(key as int, judged).1,
            final(self)@.wf(),
    {
        let k = key as usize;
        let current = match self.current(key) {
            None => return None,
            Some(current) => current,
        };
        match current.kind {
            NoteKind::Circle => {
                match judged {
                    HitAccuracy::Miss => None,
                    acc => {
                        self.advance(k);
                        Some(acc)
                    },
                }
            },
            NoteKind::LongNote { .. } => {
                if self.last[k].is_some() {
                    None
                } else {
                    self.keep(k, Some(judged));
                    None
                }
            },
            NoteKind::Other => None,
        }
    }

    /// Releases key `key`; `judged` is the judgement of the release against
    /// the end of the current note of the column. Returns the judgement of
    /// the long note when the release completes one.
    pub fn release(&mut self, key: u32, judged: HitAccuracy) -> (r: Option<HitAccuracy>)
        requires
            old(self)@.wf(),
            key < old(self)@.keys(),
        ensures
            final(self)@ == old(self)@.release_step(key as int, judged).0,
            r == old(self)@.release_step(key as int, judged).1,
            final(self)@.wf(),
    {
        let k = key as usize;
        match self.current(key) {
            Some(Note { kind: NoteKind::LongNote { .. }, .. }) => {},
            _ => return None,
        }
        let pressed = match self.last[k] {
            Some(pressed) => pressed,
            None => return None,
        };
        self.keep(k, None);
        match judged {
            HitAccuracy::Miss => {
                self.keep(k, Some(HitAccuracy::Miss));
                None
            },
            acc => {
                self.advance(k);
                Some(pressed.hold_note(Some(acc)))
            },
        }
    }
}

/// Changing one of the first `n` numbers changes their sum by the
/// difference; changing a later one leaves it.
pub proof fn lemma_sum_update(s: Seq<usize>, n: int, k: int, v: usize)
    requires
        0 <= k < s.len(),
        0 <= n <= s.len(),
    ensures
        k < n ==> sum_prefix(s.update(k, v), n) == sum_prefix(s, n) - s[k] + v,
        k >= n ==> sum_prefix(s.update(k, v), n) == sum_prefix(s, n),
    decreases n,
{
    if n > 0 {
        lemma_sum_update(s, n - 1, k, v);
    }
}

/// Passing a note in one column counts exactly one more judged note.
pub proof fn lemma_advance_counts(s: LineState, k: int)
    requires
        s.wf(),
        s.current(k) is Some,
    ensures
        s.advanced(k).wf(),
        s.advanced(k).consumed() == s.consumed() + 1,
        s.advanced(k).columns == s.columns,
{
    lemma_sum_update(s.passed, s.passed.len() as int, k, (s.passed[k] + 1) as usize);
    let t = s.advanced(k);
    assert forall|j: int| 0 <= j < t.keys() implies #[trigger] t.passed[j] <= t.columns[j].len() by {
        if j != k {
            assert(t.passed[j] == s.passed[j]);
        }
    }
}

/// A press yields a judgement exactly when it passes a note, and never
/// passes more than one; the columns never change.
pub proof fn lemma_press_accounts(s: LineState, k: int, judged: HitAccuracy)
    requires
        s.wf(),
        0 <= k < s.keys(),
    ensures
        s.press_step(k, judged).0.wf(),
        s.press_step(k, judged).0.columns == s.columns,
        s.press_step(k, judged).0.consumed() == s.consumed() + if s.press_step(k, judged).1 is Some {
            1int
        } else {
            0int
        },
        s.press_step(k, judged).1 matches Some(a) ==> a == judged && a != HitAccuracy::Miss,
{
    if s.current(k) is Some {
        lemma_advance_counts(s, k);
    }
}

/// A release yields a judgement exactly when it passes a note, and that
/// judgement is never better than the press of the long note nor than the
/// release itself; the columns never change.
pub proof fn lemma_release_accounts(s: LineState, k: int, judged: HitAccuracy)
    requires
        s.wf(),
        0 <= k < s.keys(),
    ensures
        s.release_step(k, judged).0.wf(),
        s.release_step(k, judged).0.columns == s.columns,
        s.release_step(k, judged).0.consumed() == s.consumed() + if s.release_step(k, judged).1 is Some {
            1int
        } else {
            0int
        },
        s.release_step(k, judged).1 matches Some(a) ==> (s.held[k] matches Some(pressed) && a
            == pressed.held(Some(judged)) && a.rank() <= pressed.rank() && a.rank()
            <= judged.rank()),
{
    if s.current(k) is Some {
        let t = s.with_held(k, None);
        assert(t.wf());
        assert(t.current(k) == s.current(k));
        lemma_advance_counts(t, k);
    }
}

/// Notes that pass their window unhit are all judged misses, one per note
/// passed; the columns never change.
pub proof fn lemma_expire_accounts(s: LineState, late: Seq<bool>, n: int)
    requires
        s.wf(),
        late.len() == s.keys(),
        0 <= n <= s.keys(),
    ensures
        s.expire_upto(late, n).0.wf(),
        s.expire_upto(late, n).0.columns == s.columns,
        s.expire_upto(late, n).0.consumed() == s.consumed() + s.expire_upto(late, n).1.len(),
        forall|i: int|
            0 <= i < s.expire_upto(late, n).1.len() ==> #[trigger] s.expire_upto(late, n).1[i]
                == HitAccuracy::Miss,
    decreases n,
{
    if n > 0 {
        lemma_expire_accounts(s, late, n - 1);
        let (t, out) = s.expire_upto(late, n - 1);
        if t.expires(late, n - 1) {
            let u = t.with_held(n - 1, None);
            assert(u.wf());
            assert(u.current(n - 1) == t.current(n - 1));
            lemma_advance_counts(u, n - 1);
            let res = s.expire_upto(late, n).1;
            assert forall|i: int| 0 <= i < res.len() implies #[trigger] res[i] == HitAccuracy::Miss by {
                if i < out.len() {
                    assert(res[i] == out[i]);
                }
            }
        }
    }
}

/// Each column holds only notes of that column, and no more than there are.
pub proof fn lemma_column_members(notes: Seq<Note>, k: int)
    ensures
        notes_in_column(notes, k).len() <= notes.len(),
        forall|i: int|
            0 <= i < notes_in_column(notes, k).len() ==> #[trigger] notes_in_column(notes, k)[i].column
                == k,
    decreases notes.len(),
{
    if notes.len() > 0 {
        lemma_column_members(notes.drop_last(), k);
    }
}

/// Number of notes in the first `keys` columns together.
pub open spec fn column_total(notes: Seq<Note>, keys: int) -> int
    decreases keys,
{
    if keys <= 0 {
        0
    } else {
        column_total(notes, keys - 1) + notes_in_column(notes, keys - 1).len()
    }
}

/// Number of notes whose column lies below `keys`.
pub open spec fn count_keyed(notes: Seq<Note>, keys: int) -> int
    decreases notes.len(),
{
    if notes.len() == 0 {
        0
    } else {
        count_keyed(notes.drop_last(), keys) + if notes.last().column < keys {
            1int
        } else {
            0int
        }
    }
}

proof fn lemma_column_total_empty(notes: Seq<Note>, m: int)
    requires
        notes.len() == 0,
    ensures
        column_total(notes, m) == 0,
    decreases m,
{
    if m > 0 {
        lemma_column_total_empty(notes, m - 1);
    }
}

proof fn lemma_column_total_step(notes: Seq<Note>, m: int)
    requires
        notes.len() > 0,
        0 <= m,
    ensures
        column_total(notes, m) == column_total(notes.drop_last(), m) + if notes.last().column < m {
            1int
        } else {
            0int
        },
    decreases m,
{
    if m > 0 {
        lemma_column_total_step(notes, m - 1);
    }
}

/// Every note of the beatmap whose column has a key lands in its column:
/// the columns together hold as many notes as fall below the last key.
pub proof fn lemma_columns_cover(notes: Seq<Note>, keys: int)
    requires
        0 <= keys,
    ensures
        column_total(notes, keys) == count_keyed(notes, keys),
    decreases notes.len(),
{
    if notes.len() > 0 {
        lemma_columns_cover(notes.drop_last(), keys);
        lemma_column_total_step(notes, keys);
    } else {
        lemma_column_total_empty(notes, keys);
    }
}

/// Going through the first `n` columns, the notes passed at a tick are the
/// current note of each late column, one per column at most; the other
/// columns are left as they are.
pub proof fn lemma_expire_columns(s: LineState, late: Seq<bool>, n: int)
    requires
        s.wf(),
        late.len() == s.keys(),
        0 <= n <= s.keys(),
    ensures
        s.expire_upto(late, n).0.columns == s.columns,
        forall|k: int|
            0 <= k < s.keys() ==> #[trigger] s.expire_upto(late, n).0.passed[k] == if k < n && late[k]
                && s.passed[k] < s.columns[k].len() {
                s.passed[k] + 1
            } else {
                s.passed[k] as int
            },
    decreases n,
{
    lemma_expire_accounts(s, late, n);
    if n > 0 {
        lemma_expire_columns(s, late, n - 1);
        lemma_expire_accounts(s, late, n - 1);
    }
}

/// One event keeps the line well formed and its columns, passes no column
/// back and none forward by more than one note, and gives one judgement per
/// note it passes.
pub proof fn lemma_event_accounts(s: LineState, e: LineEvent)
    requires
        s.wf(),
        s.event_valid(e),
    ensures
        s.event_step(e).0.wf(),
        s.event_step(e).0.columns == s.columns,
        s.event_step(e).0.consumed() == s.consumed() + s.event_step(e).1.len(),
        forall|k: int|
            0 <= k < s.keys() ==> s.passed[k] <= #[trigger] s.event_step(e).0.passed[k] <= s.passed[k]
                + 1,
{
    match e {
        LineEvent::Press(k, judged) => {
            lemma_press_accounts(s, k, judged);
        },
        LineEvent::Release(k, judged) => {
            lemma_release_accounts(s, k, judged);
        },
        LineEvent::Tick(late) => {
            lemma_expire_accounts(s, late, s.keys());
            lemma_expire_columns(s, late, s.keys());
        },
    }
}

/// The judged notes never outnumber the notes of the line.
pub proof fn lemma_consumed_within_capacity(s: LineState, n: int)
    requires
        s.wf(),
        0 <= n <= s.keys(),
    ensures
        sum_prefix(s.passed, n) <= len_sum(s.columns, n),
    decreases n,
{
    if n > 0 {
        lemma_consumed_within_capacity(s, n - 1);
    }
}

/// Over any sequence of calls, every judgement given is that of one note
/// passed, each note is passed at most once, and the notes of a column are
/// passed in their order, never going back.
pub proof fn lemma_run_accounts(s: LineState, events: Seq<LineEvent>)
    requires
        s.wf(),
        forall|i: int| 0 <= i < events.len() ==> s.event_valid(#[trigger] events[i]),
    ensures
        s.run(events).0.wf(),
        s.run(events).0.columns == s.columns,
        s.run(events).0.consumed() == s.consumed() + s.run(events).1.len(),
        s.run(events).0.consumed() <= s.capacity(),
        forall|k: int| 0 <= k < s.keys() ==> s.passed[k] <= #[trigger] s.run(events).0.passed[k],
    decreases events.len(),
{
    if events.len() > 0 {
        let rest = events.drop_last();
        assert forall|i: int| 0 <= i < rest.len() implies s.event_valid(#[trigger] rest[i]) by {
            assert(rest[i] == events[i]);
        }
        lemma_run_accounts(s, rest);
        let (t, out) = s.run(rest);
        let e = events.last();
        assert(s.event_valid(events[events.len() - 1]));
        assert(t.event_valid(e));
        lemma_event_accounts(t, e);
        let (u, more) = t.event_step(e);
        assert((out + more).len() == out.len() + more.len());
        assert forall|k: int| 0 <= k < s.keys() implies s.passed[k] <= #[trigger] u.passed[k] by {
            assert(s.passed[k] <= t.passed[k]);
            assert(t.passed[k] <= u.passed[k]);
        }
    }
    lemma_consumed_within_capacity(s.run(events).0, s.keys());
}

proof fn lemma_start_counts(s: LineState, notes: Seq<Note>, keys: int, n: int)
    requires
        s.is_start(notes, keys),
        0 <= n <= keys,
    ensures
        sum_prefix(s.passed, n) == 0,
        len_sum(s.columns, n) == column_total(notes, n),
    decreases n,
{
    if n > 0 {
        lemma_start_counts(s, notes, keys, n - 1);
    }
}

/// From the line that `HitLine::new` builds, whatever presses, releases and
/// ticks follow, each note of the beatmap that falls in a column is judged
/// at most once: the judgements given never outnumber those notes.
pub proof fn lemma_judged_at_most_once(notes: Seq<Note>, keys: int, s: LineState, events: Seq<LineEvent>)
    requires
        0 <= keys,
        s.is_start(notes, keys),
        forall|i: int| 0 <= i < events.len() ==> s.event_valid(#[trigger] events[i]),
    ensures
        s.run(events).1.len() == s.run(events).0.consumed(),
        s.run(events).1.len() <= count_keyed(notes, keys),
{
    lemma_run_accounts(s, events);
    lemma_start_counts(s, notes, keys, keys);
    lemma_columns_cover(notes, keys);
}

/// Ticking `m` times with every column late passes one note of each column
/// at each tick, until the column is empty.
pub proof fn lemma_ticks_drain(s: LineState, late: Seq<bool>, m: nat)
    requires
        s.wf(),
        late.len() == s.keys(),
        forall|k: int| 0 <= k < late.len() ==> #[trigger] late[k],
    ensures
        s.run(ticks(late, m)).0.wf(),
        s.run(ticks(late, m)).0.columns == s.columns,
        forall|k: int|
            0 <= k < s.keys() ==> #[trigger] s.run(ticks(late, m)).0.passed[k] == if s.passed[k] + m
                <= s.columns[k].len() {
                s.passed[k] + m
            } else {
                s.columns[k].len() as int
            },
    decreases m,
{
    if m > 0 {
        let evs = ticks(late, m);
        assert(evs.drop_last() =~= ticks(late, (m - 1) as nat));
        lemma_ticks_drain(s, late, (m - 1) as nat);
        let t = s.run(ticks(late, (m - 1) as nat)).0;
        assert(evs.last() == LineEvent::Tick(late));
        lemma_expire_columns(t, late, t.keys());
        lemma_expire_accounts(t, late, t.keys());
    } else {
        assert(ticks(late, m).len() == 0);
    }
}

proof fn lemma_drained_counts(s: LineState, n: int)
    requires
        s.wf(),
        0 <= n <= s.keys(),
        forall|k: int| 0 <= k < s.keys() ==> #[trigger] s.passed[k] == s.columns[k].len(),
    ensures
        sum_prefix(s.passed, n) == len_sum(s.columns, n),
    decreases n,
{
    if n > 0 {
        lemma_drained_counts(s, n - 1);
    }
}

/// From the line that `HitLine::new` builds, ticking with every column late
/// as many times as the longest column has notes judges every note of the
/// beatmap that falls in a column, exactly once.
pub proof fn lemma_ticks_judge_every_note(notes: Seq<Note>, keys: int, s: LineState, late: Seq<bool>, m: nat)
    requires
        0 <= keys,
        s.is_start(notes, keys),
        late.len() == keys,
        forall|k: int| 0 <= k < late.len() ==> #[trigger] late[k],
        forall|k: int| 0 <= k < keys ==> #[trigger] s.columns[k].len() <= m,
    ensures
        s.run(ticks(late, m)).1.len() == count_keyed(notes, keys),
        forall|k: int| 0 <= k < keys ==> #[trigger] s.run(ticks(late, m)).0.current(k) is None,
{
    let evs = ticks(late, m);
    assert forall|i: int| 0 <= i < evs.len() implies s.event_valid(#[trigger] evs[i]) by {
        assert(evs[i] == LineEvent::Tick(late));
    }
    lemma_run_accounts(s, evs);
    lemma_ticks_drain(s, late, m);
    let u = s.run(evs).0;
    assert forall|k: int| 0 <= k < u.keys() implies #[trigger] u.passed[k] == u.columns[k].len() by {
        assert(s.passed[k] == 0);
    }
    lemma_drained_counts(u, u.keys());
    lemma_start_counts(s, notes, keys, keys);
    lemma_columns_cover(notes, keys);
}

/// What a press does: on a circle, a judgement other than a miss is
/// returned and passes the circle, while a miss changes nothing; on a long
/// note, the first press keeps its judgement and returns nothing, a later
/// one changes nothing; anything else, or an empty column, changes nothing.
pub proof fn lemma_press_law(s: LineState, k: int, judged: HitAccuracy)
    requires
        s.wf(),
        0 <= k < s.keys(),
    ensures
        ({
            let (t, r) = s.press_step(k, judged);
            &&& t.columns == s.columns
            &&& (s.current(k) matches Some(n) && n.kind == NoteKind::Circle && judged
                != HitAccuracy::Miss) ==> {
                &&& r == Some(judged)
                &&& t.passed[k] == s.passed[k] + 1
                &&& t.held == s.held
                &&& forall|j: int| 0 <= j < s.keys() && j != k ==> #[trigger] t.passed[j] == s.passed[j]
            }
            &&& (s.current(k) matches Some(n) && n.kind is LongNote && s.held[k] is None) ==> {
                &&& r is None
                &&& t.held[k] == Some(judged)
                &&& t.passed == s.passed
                &&& forall|j: int| 0 <= j < s.keys() && j != k ==> #[trigger] t.held[j] == s.held[j]
            }
            &&& (s.current(k) is None || (s.current(k) matches Some(n) && (n.kind is Other || (n.kind
                is Circle && judged == HitAccuracy::Miss) || (n.kind is LongNote && s.held[k] is Some))))
                ==> r is None && t == s
        }),
{
}

/// What a release does on a long note pressed with judgement `p`: released
/// with any judgement but a miss, the note is passed and judged as the
/// worse of `p` and the release, which is one of the two; released with a
/// miss (too early), the note stays with a miss kept as its press.
/// Anything else changes nothing.
pub proof fn lemma_release_law(s: LineState, k: int, judged: HitAccuracy)
    requires
        s.wf(),
        0 <= k < s.keys(),
    ensures
        ({
            let (t, r) = s.release_step(k, judged);
            let p = s.held[k].unwrap();
            &&& t.columns == s.columns
            &&& (s.current(k) matches Some(n) && n.kind is LongNote && s.held[k] is Some && judged
                != HitAccuracy::Miss) ==> {
                &&& r matches Some(a) && (a == p || a == judged) && a.rank() <= p.rank() && a.rank()
                    <= judged.rank()
                &&& t.passed[k] == s.passed[k] + 1
                &&& t.held[k] is None
                &&& forall|j: int|
                    0 <= j < s.keys() && j != k ==> #[trigger] t.passed[j] == s.passed[j] && t.held[j]
                        == s.held[j]
            }
            &&& (s.current(k) matches Some(n) && n.kind is LongNote && s.held[k] is Some && judged
                == HitAccuracy::Miss) ==> {
                &&& r is None
                &&& t.passed == s.passed
                &&& t.held[k] == Some(HitAccuracy::Miss)
                &&& forall|j: int| 0 <= j < s.keys() && j != k ==> #[trigger] t.held[j] == s.held[j]
            }
            &&& (s.current(k) is None || (s.current(k) matches Some(n) && !(n.kind is LongNote)) || (
            s.current(k) is Some && s.held[k] is None)) ==> r is None && t == s
        }),
{
    if let Some(p) = s.held[k] {
        lemma_hold_is_min(p, judged);
    }
}

/// What a tick does to each column: a late column with a current note has
/// that note passed and its kept press judgement cleared; every other
/// column is left as it is. Each note passed is judged a miss.
pub proof fn lemma_tick_law(s: LineState, late: Seq<bool>)
    requires
        s.wf(),
        late.len() == s.keys(),
    ensures
        ({
            let (t, out) = s.expire_upto(late, s.keys());
            &&& t.columns == s.columns
            &&& forall|k: int|
                0 <= k < s.keys() && late[k] && s.current(k) is Some ==> #[trigger] t.held[k] is None
                    && t.passed[k] == s.passed[k] + 1
            &&& forall|k: int|
                0 <= k < s.keys() && !(late[k] && s.current(k) is Some) ==> #[trigger] t.held[k]
                    == s.held[k] && t.passed[k] == s.passed[k]
            &&& forall|i: int| 0 <= i < out.len() ==> #[trigger] out[i] == HitAccuracy::Miss
        }),
{
    lemma_expire_held(s, late, s.keys());
    lemma_expire_columns(s, late, s.keys());
    lemma_expire_accounts(s, late, s.keys());
}

/// Going through the first `n` columns, a late column with a current note
/// loses its kept press judgement; the other columns keep theirs.
pub proof fn lemma_expire_held(s: LineState, late: Seq<bool>, n: int)
    requires
        s.wf(),
        late.len() == s.keys(),
        0 <= n <= s.keys(),
    ensures
        forall|k: int|
            0 <= k < s.keys() ==> #[trigger] s.expire_upto(late, n).0.held[k] == if k < n && late[k]
                && s.current(k) is Some {
                None
            } else {
                s.held[k]
            },
    decreases n,
{
    lemma_expire_accounts(s, late, n);
    lemma_expire_columns(s, late, n);
    if n > 0 {
        lemma_expire_held(s, late, n - 1);
        lemma_expire_columns(s, late, n - 1);
        lemma_expire_accounts(s, late, n - 1);
    }
}

/// Each column keeps the notes of the beatmap in their order: the note at
/// index `i` of column `k` sits in the column after exactly the notes of
/// column `k` that come before it.
pub proof fn lemma_column_in_order(notes: Seq<Note>, k: int)
    ensures
        forall|i: int|
            #![trigger notes[i]]
            0 <= i < notes.len() && notes[i].column == k ==> notes_in_column(notes.take(i), k).len()
                < notes_in_column(notes, k).len() && notes_in_column(notes, k)[notes_in_column(
                notes.take(i),
                k,
            ).len() as int] == notes[i],
    decreases notes.len(),
{
    if notes.len() > 0 {
        let rest = notes.drop_last();
        lemma_column_in_order(rest, k);
        assert forall|i: int|
            #![trigger notes[i]]
            0 <= i < notes.len() && notes[i].column == k implies notes_in_column(notes.take(i), k).len()
                < notes_in_column(notes, k).len() && notes_in_column(notes, k)[notes_in_column(
                notes.take(i),
                k,
            ).len() as int] == notes[i] by {
            if i < notes.len() - 1 {
                assert(notes.take(i) =~= rest.take(i));
                assert(rest[i] == notes[i]);
            } else {
                assert(notes.take(i) =~= rest);
            }
        }
    }
}

} // verus!
