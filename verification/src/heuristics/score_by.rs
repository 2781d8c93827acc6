//! Picking the item with the highest or the lowest score.

use vstd::prelude::*;

verus! {

/// A score: a natural number, held in two limbs so that products of two
/// 64-bit quantities can be added up without loss.
#[derive(Clone, Copy, Debug)]
pub struct Score {
    pub hi: u64,
    pub lo: u128,
}

impl View for Score {
    type V = int;

    /// The number that the two limbs stand for: `hi * 2^128 + lo`.
    open spec fn view(&self) -> int {
        self.hi * 0x1_0000_0000_0000_0000_0000_0000_0000_0000 + self.lo
    }
}

impl Score {
    /// The score with this value.
    pub fn new(value: u128) -> (score: Score)
        ensures
            score@ == value,
            score.hi == 0,
    {
        Score { hi: 0, lo: value }
    }

    /// The product of two quantities.
    pub fn product(a: u64, b: u64) -> (score: Score)
        ensures
            score@ == a * b,
            score.hi == 0,
    {
        assert(a * b <= 0xffff_ffff_ffff_ffff * 0xffff_ffff_ffff_ffff) by (nonlinear_arith)
            requires
                0 <= a <= 0xffff_ffff_ffff_ffff,
                0 <= b <= 0xffff_ffff_ffff_ffff,
        ;
        Score { hi: 0, lo: (a as u128) * (b as u128) }
    }

    /// The sum of two scores.
    pub fn plus(self, other: Score) -> (sum: Score)
        requires
            self.hi + other.hi < u64::MAX,
        ensures
            sum@ == self@ + other@,
            sum.hi <= self.hi + other.hi + 1,
    {
        if self.lo > u128::MAX - other.lo {
            Score { hi: self.hi + other.hi + 1, lo: self.lo - (u128::MAX - other.lo) - 1 }
        } else {
            Score { hi: self.hi + other.hi, lo: self.lo + other.lo }
        }
    }

    /// Whether this score is the lower of the two.
    pub fn less(&self, other: &Score) -> (r: bool)
        ensures
            r == (self@ < other@),
    {
        self.hi < other.hi || (self.hi == other.hi && self.lo < other.lo)
    }
}

/// The scores of scored items.
pub open spec fn marks<T>(scored: Seq<(T, Score)>) -> Seq<int> {
    Seq::new(scored.len(), |i: int| scored[i].1@)
}

/// Place `w` holds the highest score, and is the last place that does.
pub open spec fn is_last_max(scores: Seq<int>, w: int) -> bool {
    &&& 0 <= w < scores.len()
    &&& forall|j: int| 0 <= j < scores.len() ==> scores[j] <= scores[w]
    &&& forall|j: int| w < j < scores.len() ==> scores[j] < scores[w]
}

/// Place `w` holds the lowest score, and is the first place that does.
pub open spec fn is_first_min(scores: Seq<int>, w: int) -> bool {
    &&& 0 <= w < scores.len()
    &&& forall|j: int| 0 <= j < scores.len() ==> scores[w] <= scores[j]
    &&& forall|j: int| 0 <= j < w ==> scores[w] < scores[j]
}

/// `scored` is what `score_func` can have made of `items`, one by one.
pub open spec fn is_scoring<T, S: Fn(T) -> (T, Score)>(
    score_func: S,
    items: Seq<T>,
    scored: Seq<(T, Score)>,
) -> bool {
    &&& scored.len() == items.len()
    &&& forall|i: int|
        0 <= i < items.len() ==> call_ensures(score_func, (items[i],), #[trigger] scored[i])
}

/// A row of items from which the best by score can be picked.
pub trait ScoreBy: Sized {
    type Item;

    /// The items, in their order.
    spec fn items(&self) -> Seq<Self::Item>;

    /// Scores every item and hands back the one with the highest score; of
    /// several with the highest score, the last. `None` where there is no item.
    fn score_by_max<S>(self, score_func: S) -> (best: Option<Self::Item>) where
        S: Fn(Self::Item) -> (Self::Item, Score),

        requires
            forall|i: int|
                0 <= i < self.items().len() ==> call_requires(
                    score_func,
                    (#[trigger] self.items()[i],),
                ),
        ensures
            self.items().len() == 0 ==> best is None,
            self.items().len() > 0 ==> exists|scored: Seq<(Self::Item, Score)>, w: int|
                is_scoring(score_func, self.items(), scored) && is_last_max(marks(scored), w)
                    && best == Some(scored[w].0),
    ;

    /// Scores every item and hands back the one with the lowest score; of
    /// several with the lowest score, the first. `None` where there is no item.
    fn score_by_min<S>(self, score_func: S) -> (best: Option<Self::Item>) where
        S: Fn(Self::Item) -> (Self::Item, Score),

        requires
            forall|i: int|
                0 <= i < self.items().len() ==> call_requires(
                    score_func,
                    (#[trigger] self.items()[i],),
                ),
        ensures
            self.items().len() == 0 ==> best is None,
            self.items().len() > 0 ==> exists|scored: Seq<(Self::Item, Score)>, w: int|
                is_scoring(score_func, self.items(), scored) && is_first_min(marks(scored), w)
                    && best == Some(scored[w].0),
    ;
}

impl<T: Copy> ScoreBy for Vec<T> {
    type Item = T;

    open spec fn items(&self) -> Seq<T> {
        self@
    }

    fn score_by_max<S>(self, score_func: S) -> (best: Option<T>) where S: Fn(T) -> (T, Score) {
        let mut best: Option<(T, Score)> = None;
        let ghost mut scored: Seq<(T, Score)> = Seq::empty();
        let ghost mut w: int = 0;
        let mut i: usize = 0;
        assert forall|j: int| 0 <= j < self@.len() implies call_requires(
            score_func,
            (#[trigger] self@[j],),
        ) by {
            assert(self.items()[j] == self@[j]);
        }
        while i < self.len()
            invariant
                0 <= i <= self@.len(),
                forall|j: int| 0 <= j < self@.len() ==>
                    call_requires(score_func, (#[trigger] self@[j],)),
                scored.len() == i,
                forall|j: int| 0 <= j < i ==>
                    call_ensures(score_func, (self@[j],), #[trigger] scored[j]),
                i == 0 ==> best is None,
                i > 0 ==> is_last_max(marks(scored), w) && best == Some(scored[w]),
            decreases self@.len() - i,
        {
            let item = self[i];
            let entry = score_func(item);
            let ghost before = scored;
            proof {
                scored = scored.push(entry);
                assert forall|j: int| 0 <= j < i + 1 implies call_ensures(
                    score_func,
                    (self@[j],),
                    #[trigger] scored[j],
                ) by {
                    if j < i {
                        assert(scored[j] == before[j]);
                    }
                }
                assert forall|j: int| 0 <= j < i implies marks(scored)[j] == marks(before)[j] by {
                    assert(scored[j] == before[j]);
                }
            }
            let take = match best {
                None => true,
                Some(held) => !entry.1.less(&held.1),
            };
            if take {
                best = Some(entry);
                proof {
                    w = i as int;
                }
            }
            i += 1;
        }
        match best {
            None => None,
            Some(held) => {
                proof {
                    assert(is_scoring(score_func, self@, scored));
                }
                Some(held.0)
            },
        }
    }

    fn score_by_min<S>(self, score_func: S) -> (best: Option<T>) where S: Fn(T) -> (T, Score) {
        let mut best: Option<(T, Score)> = None;
        let ghost mut scored: Seq<(T, Score)> = Seq::empty();
        let ghost mut w: int = 0;
        let mut i: usize = 0;
        assert forall|j: int| 0 <= j < self@.len() implies call_requires(
            score_func,
            (#[trigger] self@[j],),
        ) by {
            assert(self.items()[j] == self@[j]);
        }
        while i < self.len()
            invariant
                0 <= i <= self@.len(),
                forall|j: int| 0 <= j < self@.len() ==>
                    call_requires(score_func, (#[trigger] self@[j],)),
                scored.len() == i,
                forall|j: int| 0 <= j < i ==>
                    call_ensures(score_func, (self@[j],), #[trigger] scored[j]),
                i == 0 ==> best is None,
                i > 0 ==> is_first_min(marks(scored), w) && best == Some(scored[w]),
            decreases self@.len() - i,
        {
            let item = self[i];
            let entry = score_func(item);
            let ghost before = scored;
            proof {
                scored = scored.push(entry);
                assert forall|j: int| 0 <= j < i + 1 implies call_ensures(
                    score_func,
                    (self@[j],),
                    #[trigger] scored[j],
                ) by {
                    if j < i {
                        assert(scored[j] == before[j]);
                    }
                }
                assert forall|j: int| 0 <= j < i implies marks(scored)[j] == marks(before)[j] by {
                    assert(scored[j] == before[j]);
                }
            }
            let take = match best {
                None => true,
                Some(held) => entry.1.less(&held.1),
            };
            if take {
                best = Some(entry);
                proof {
                    w = i as int;
                }
            }
            i += 1;
        }
        match best {
            None => None,
            Some(held) => {
                proof {
                    assert(is_scoring(score_func, self@, scored));
                }
                Some(held.0)
            },
        }
    }
}

} // verus!
