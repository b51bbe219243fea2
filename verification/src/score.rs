use vstd::prelude::*;

use crate::difficulty::HitAccuracy;

verus! {

/// Sum of the points of the hits in `hits`.
pub open spec fn total_points(hits: Seq<HitAccuracy>) -> nat
    decreases hits.len(),
{
    if hits.len() == 0 {
        0
    } else {
        total_points(hits.drop_last()) + hits.last().points()
    }
}

/// Sum of the bonus values of the hits in `hits`.
pub open spec fn total_bonus(hits: Seq<HitAccuracy>) -> nat
    decreases hits.len(),
{
    if hits.len() == 0 {
        0
    } else {
        total_bonus(hits.drop_last()) + hits.last().bonus_points()
    }
}

/// Length of the run of non-miss hits that ends `hits`: the current combo.
pub open spec fn trailing_combo(hits: Seq<HitAccuracy>) -> nat
    decreases hits.len(),
{
    if hits.len() == 0 {
        0
    } else if hits.last() == HitAccuracy::Miss {
        0
    } else {
        trailing_combo(hits.drop_last()) + 1
    }
}

/// Length of the longest run of non-miss hits in `hits`: the best combo.
pub open spec fn best_combo(hits: Seq<HitAccuracy>) -> nat
    decreases hits.len(),
{
    if hits.len() == 0 {
        0
    } else {
        let before = best_combo(hits.drop_last());
        let now = trailing_combo(hits);
        if before >= now {
            before
        } else {
            now
        }
    }
}

/// The tallies of a play: how many hits were judged, their points and
/// bonus values, and the current and the best combo.
pub struct Score {
    hit_count: u32,
    hit_points: u32,
    bonus_value: u32,
    combo: u32,
    max_combo: u32,
    hits: Ghost<Seq<HitAccuracy>>,
}

impl View for Score {
    type V = Seq<HitAccuracy>;

    /// The judgements pushed so far, in order.
    closed spec fn view(&self) -> Seq<HitAccuracy> {
        self.hits@
    }
}

impl Score {
    #[verifier::type_invariant]
    closed spec fn tallies_match(self) -> bool {
        &&& self.hit_count == self.hits@.len()
        &&& self.hit_points == total_points(self.hits@)
        &&& self.bonus_value == total_bonus(self.hits@)
        &&& self.combo == trailing_combo(self.hits@)
        &&& self.max_combo == best_combo(self.hits@)
    }

    /// An empty score: nothing judged yet.
    pub fn new() -> (s: Score)
        ensures
            s@ == Seq::<HitAccuracy>::empty(),
    {
        Score {
            hit_count: 0,
            hit_points: 0,
            bonus_value: 0,
            combo: 0,
            max_combo: 0,
            hits: Ghost(Seq::empty()),
        }
    }

    /// Records one judgement.
    pub fn push(&mut self, hit: HitAccuracy)
        requires
            old(self)@.len() < u32::MAX,
            total_points(old(self)@) + hit.points() <= u32::MAX,
            total_bonus(old(self)@) + hit.bonus_points() <= u32::MAX,
        ensures
            final(self)@ == old(self)@.push(hit),
    {
        proof {
            use_type_invariant(&*self);
            lemma_combo_bounds(self.hits@);
        }
        let ghost hits = self.hits@.push(hit);
        assert(hits.drop_last() =~= self.hits@);
        let hit_count = self.hit_count + 1;
        let hit_points = self.hit_points + hit.score();
        let bonus_value = self.bonus_value + hit.bonus_value();
        let mut combo = self.combo;
        let mut max_combo = self.max_combo;
        if hit != HitAccuracy::Miss {
            combo = combo + 1;
            if combo > max_combo {
                max_combo = combo;
            }
        } else {
            combo = 0;
        }
        *self = Score { hit_count, hit_points, bonus_value, combo, max_combo, hits: Ghost(hits) };
    }

    /// Number of judgements recorded.
    pub fn hit_count(&self) -> (n: u32)
        ensures
            n == self@.len(),
    {
        proof {
            use_type_invariant(self);
        }
        self.hit_count
    }

    /// Sum of the points of the judgements recorded.
    pub fn hit_points(&self) -> (p: u32)
        ensures
            p == total_points(self@),
    {
        proof {
            use_type_invariant(self);
        }
        self.hit_points
    }

    /// Sum of the bonus values of the judgements recorded.
    pub fn bonus_value(&self) -> (b: u32)
        ensures
            b == total_bonus(self@),
    {
        proof {
            use_type_invariant(self);
        }
        self.bonus_value
    }

    /// The best combo so far: the longest run of judgements that were not misses.
    pub fn combo(&self) -> (c: u32)
        ensures
            c == best_combo(self@),
    {
        proof {
            use_type_invariant(self);
        }
        self.max_combo
    }

    /// Accuracy as a fraction: the points earned over the points that
    /// perfect hits would have earned, or `None` before any judgement.
    pub fn accuracy_ratio(&self) -> (r: Option<(u32, u32)>)
        requires
            self@.len() * 300 <= u32::MAX,
        ensures
            self@.len() == 0 ==> r is None,
            self@.len() > 0 ==> r == Some((total_points(self@) as u32, (self@.len() * 300) as u32)),
    {
        proof {
            use_type_invariant(self);
        }
        if self.hit_count == 0 {
            return None;
        }
        Some((self.hit_points, self.hit_count * 300))
    }
}

/// The current combo never exceeds the best combo, which never exceeds the
/// number of judgements.
pub proof fn lemma_combo_bounds(hits: Seq<HitAccuracy>)
    ensures
        trailing_combo(hits) <= best_combo(hits),
        best_combo(hits) <= hits.len(),
    decreases hits.len(),
{
    if hits.len() > 0 {
        lemma_combo_bounds(hits.drop_last());
    }
}

/// Recording a judgement that is not a miss extends the current combo by
/// one; a miss breaks it; the best combo never decreases.
pub proof fn lemma_push_combo(hits: Seq<HitAccuracy>, hit: HitAccuracy)
    ensures
        trailing_combo(hits.push(hit)) == if hit == HitAccuracy::Miss {
            0
        } else {
            trailing_combo(hits) + 1
        },
        best_combo(hits) <= best_combo(hits.push(hit)),
        best_combo(hits.push(hit)) == if best_combo(hits) >= trailing_combo(hits.push(hit)) {
            best_combo(hits)
        } else {
            trailing_combo(hits.push(hit))
        },
{
    assert(hits.push(hit).drop_last() =~= hits);
}

/// Without a miss, the best combo is the number of judgements.
pub proof fn lemma_full_combo(hits: Seq<HitAccuracy>)
    requires
        forall|i: int| 0 <= i < hits.len() ==> hits[i] != HitAccuracy::Miss,
    ensures
        trailing_combo(hits) == hits.len(),
        best_combo(hits) == hits.len(),
    decreases hits.len(),
{
    if hits.len() > 0 {
        let rest = hits.drop_last();
        assert forall|i: int| 0 <= i < rest.len() implies rest[i] != HitAccuracy::Miss by {
            assert(rest[i] == hits[i]);
        }
        lemma_full_combo(rest);
    }
}

/// The points never exceed what perfect hits would earn (accuracy is at most
/// one), and the bonus values never exceed the best bonus of each hit.
pub proof fn lemma_totals_bounded(hits: Seq<HitAccuracy>)
    ensures
        total_points(hits) <= 300 * hits.len(),
        total_bonus(hits) <= 32 * hits.len(),
    decreases hits.len(),
{
    if hits.len() > 0 {
        lemma_totals_bounded(hits.drop_last());
    }
}

/// The points are perfect exactly when every judgement was a `ThreeHundred`.
pub proof fn lemma_perfect_points(hits: Seq<HitAccuracy>)
    ensures
        total_points(hits) == 300 * hits.len() <==> forall|i: int|
            0 <= i < hits.len() ==> hits[i] == HitAccuracy::ThreeHundred,
    decreases hits.len(),
{
    if hits.len() > 0 {
        let rest = hits.drop_last();
        lemma_perfect_points(rest);
        lemma_totals_bounded(rest);
        if forall|i: int| 0 <= i < hits.len() ==> hits[i] == HitAccuracy::ThreeHundred {
            assert forall|i: int| 0 <= i < rest.len() implies rest[i] == HitAccuracy::ThreeHundred by {
                assert(rest[i] == hits[i]);
            }
        }
        if total_points(hits) == 300 * hits.len() {
            assert forall|i: int| 0 <= i < hits.len() implies hits[i] == HitAccuracy::ThreeHundred by {
                if i < rest.len() {
                    assert(rest[i] == hits[i]);
                }
            }
        }
    }
}

} // verus!
