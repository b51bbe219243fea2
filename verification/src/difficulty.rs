use vstd::prelude::*;

verus! {

/// How precisely a note was hit, from the worst judgement to the best.
#[derive(Debug, Clone, Copy, PartialEq, Eq, PartialOrd, Ord, Structural)]
pub enum HitAccuracy {
    Miss,
    Fifty,
    OneHundred,
    TwoHundred,
    ThreeHundred,
}

impl HitAccuracy {
    /// Position of the judgement in the order from `Miss` (0) to `ThreeHundred` (4).
    pub open spec fn rank(self) -> nat {
        match self {
            HitAccuracy::Miss => 0,
            HitAccuracy::Fifty => 1,
            HitAccuracy::OneHundred => 2,
            HitAccuracy::TwoHundred => 3,
            HitAccuracy::ThreeHundred => 4,
        }
    }

    /// Points that a hit with this judgement is worth.
    pub open spec fn points(self) -> nat {
        match self {
            HitAccuracy::ThreeHundred => 300,
            HitAccuracy::TwoHundred => 200,
            HitAccuracy::OneHundred => 100,
            HitAccuracy::Fifty => 50,
            HitAccuracy::Miss => 0,
        }
    }

    /// Bonus value that a hit with this judgement adds to the bonus score.
    pub open spec fn bonus_points(self) -> nat {
        match self {
            HitAccuracy::ThreeHundred => 32,
            HitAccuracy::TwoHundred => 16,
            HitAccuracy::OneHundred => 8,
            HitAccuracy::Fifty => 4,
            HitAccuracy::Miss => 0,
        }
    }

    /// The worse of two judgements (the first one when they are equal).
    pub open spec fn worse(a: HitAccuracy, b: HitAccuracy) -> HitAccuracy {
        if a.rank() <= b.rank() {
            a
        } else {
            b
        }
    }

    /// Judgement of a hold note pressed with `self` and then released with
    /// `released`, or never released on time (`None`).
    pub open spec fn held(self, released: Option<HitAccuracy>) -> HitAccuracy {
        match released {
            Some(r) => HitAccuracy::worse(self, r),
            None => if self == HitAccuracy::ThreeHundred {
                HitAccuracy::TwoHundred
            } else {
                HitAccuracy::Miss
            },
        }
    }

    /// Points of a hit with this judgement.
    pub fn score(&self) -> (s: u32)
        ensures
            s == self.points(),
    {
        match *self {
            HitAccuracy::ThreeHundred => 300,
            HitAccuracy::OneHundred => 100,
            HitAccuracy::TwoHundred => 200,
            HitAccuracy::Fifty => 50,
            HitAccuracy::Miss => 0,
        }
    }

    /// Bonus value of a hit with this judgement.
    pub fn bonus_value(&self) -> (b: u32)
        ensures
            b == self.bonus_points(),
    {
        match *self {
            HitAccuracy::ThreeHundred => 32,
            HitAccuracy::TwoHundred => 16,
            HitAccuracy::OneHundred => 8,
            HitAccuracy::Fifty => 4,
            HitAccuracy::Miss => 0,
        }
    }

    fn rank_of(&self) -> (r: u8)
        ensures
            r == self.rank(),
    {
        match *self {
            HitAccuracy::Miss => 0,
            HitAccuracy::Fifty => 1,
            HitAccuracy::OneHundred => 2,
            HitAccuracy::TwoHundred => 3,
            HitAccuracy::ThreeHundred => 4,
        }
    }

    /// Judgement of a hold note: the worse of the press and the release
    /// judgements; without a release, a perfect press is downgraded to
    /// `TwoHundred` and anything else is a `Miss`.
    pub fn hold_note(self, released: Option<HitAccuracy>) -> (h: HitAccuracy)
        ensures
            h == self.held(released),
            released matches Some(r) ==> (h == self || h == r) && h.rank() <= self.rank() && h.rank()
                <= r.rank(),
            released is None ==> h == if self == HitAccuracy::ThreeHundred {
                HitAccuracy::TwoHundred
            } else {
                HitAccuracy::Miss
            },
    {
        match released {
            Some(r) => {
                if self.rank_of() <= r.rank_of() {
                    self
                } else {
                    r
                }
            },
            None => match self {
                HitAccuracy::ThreeHundred => HitAccuracy::TwoHundred,
                _ => HitAccuracy::Miss,
            },
        }
    }
}

/// A released hold note is judged with one of its two judgements, the one
/// of lower rank: the minimum of the press and the release.
pub proof fn lemma_hold_is_min(pressed: HitAccuracy, released: HitAccuracy)
    ensures
        pressed.held(Some(released)) == pressed || pressed.held(Some(released)) == released,
        pressed.held(Some(released)).rank() <= pressed.rank(),
        pressed.held(Some(released)).rank() <= released.rank(),
        pressed.rank() <= released.rank() ==> pressed.held(Some(released)) == pressed,
        released.rank() <= pressed.rank() ==> pressed.held(Some(released)) == released,
{
}

/// A hold note is never judged better than its press, nor better than its
/// release when it was released.
pub proof fn lemma_hold_never_better(pressed: HitAccuracy, released: Option<HitAccuracy>)
    ensures
        pressed.held(released).rank() <= pressed.rank(),
        released matches Some(r) ==> pressed.held(released).rank() <= r.rank(),
        released is None ==> pressed.held(released).rank() < pressed.rank() || pressed.held(
            released,
        ) == HitAccuracy::Miss,
{
}

/// Judging a released hold note does not depend on which of the two
/// judgements came from the press and which from the release.
pub proof fn lemma_hold_symmetric(a: HitAccuracy, b: HitAccuracy)
    ensures
        a.held(Some(b)) == b.held(Some(a)),
{
}

/// A hold note pressed and released with the same judgement keeps it.
pub proof fn lemma_hold_same(a: HitAccuracy)
    ensures
        a.held(Some(a)) == a,
{
}

/// The order of points and of bonus values follows the order of judgements.
pub proof fn lemma_points_follow_rank(a: HitAccuracy, b: HitAccuracy)
    ensures
        a.rank() <= b.rank() ==> a.points() <= b.points() && a.bonus_points() <= b.bonus_points(),
        a.points() <= 300,
        a.bonus_points() <= 32,
        a.points() == 0 <==> a == HitAccuracy::Miss,
{
}

} // verus!
