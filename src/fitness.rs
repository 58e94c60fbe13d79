//! Fitness values, and the bounded history of committed decisions that feeds
//! a similarity bonus back into scoring.
use vstd::prelude::*;
use crate::SCALE;
use crate::fixed::floor_div;

verus! {

/// A fitness score (millionths) with its explanation.
#[derive(Debug, Clone)]
pub struct CommitFitness {
    pub score: u64,
    pub reasons: Vec<String>,
    pub suggestions: Vec<String>,
    pub breakdown: Vec<(String, i64)>,
    pub confidence: u64,
}

impl CommitFitness {
    /// A score with no reasons, suggestions or breakdown, held with full
    /// confidence.
    pub fn new(score: u64) -> (r: Self)
        ensures
            r.score == score,
            r.reasons@.len() == 0,
            r.suggestions@.len() == 0,
            r.breakdown@.len() == 0,
            r.confidence == SCALE,
    {
        CommitFitness {
            score,
            reasons: Vec::new(),
            suggestions: Vec::new(),
            breakdown: Vec::new(),
            confidence: SCALE,
        }
    }

    pub fn add_reason(&mut self, reason: String)
        ensures
            final(self).reasons@ == old(self).reasons@.push(reason),
            final(self).suggestions == old(self).suggestions,
            final(self).breakdown == old(self).breakdown,
            final(self).score == old(self).score,
            final(self).confidence == old(self).confidence,
    {
        self.reasons.push(reason);
    }

    pub fn add_suggestion(&mut self, suggestion: String)
        ensures
            final(self).suggestions@ == old(self).suggestions@.push(suggestion),
            final(self).reasons == old(self).reasons,
            final(self).breakdown == old(self).breakdown,
            final(self).score == old(self).score,
            final(self).confidence == old(self).confidence,
    {
        self.suggestions.push(suggestion);
    }

    pub fn set_breakdown(&mut self, breakdown: Vec<(String, i64)>)
        ensures
            final(self).breakdown == breakdown,
            final(self).reasons == old(self).reasons,
            final(self).suggestions == old(self).suggestions,
            final(self).score == old(self).score,
            final(self).confidence == old(self).confidence,
    {
        self.breakdown = breakdown;
    }

    /// Whether the score reaches the threshold.
    pub fn should_commit(&self, threshold: u64) -> (r: bool)
        ensures
            r == (self.score >= threshold),
    {
        self.score >= threshold
    }
}

/// Most entries the history keeps; the oldest leave first.
pub const HISTORY_CAPACITY: usize = 100;

/// One committed decision.
#[derive(Debug, Clone)]
pub struct HistoricalCommit {
    /// When, as an RFC 3339 string.
    pub timestamp: String,
    /// Fitness in millionths.
    pub fitness: u64,
    pub file_count: usize,
    pub message: String,
}

/// Bounded log of committed decisions, oldest first.
#[derive(Debug)]
pub struct FitnessHistory {
    pub commits: Vec<HistoricalCommit>,
}

/// The log after appending `c`: the oldest entry leaves when the log would
/// exceed its capacity.
pub open spec fn appended(h: Seq<HistoricalCommit>, c: HistoricalCommit) -> Seq<HistoricalCommit> {
    if h.len() + 1 > HISTORY_CAPACITY {
        h.push(c).drop_first()
    } else {
        h.push(c)
    }
}

/// The log after appending each of `es` in order.
pub open spec fn append_all(h: Seq<HistoricalCommit>, es: Seq<HistoricalCommit>) -> Seq<HistoricalCommit>
    decreases es.len(),
{
    if es.len() == 0 {
        h
    } else {
        appended(append_all(h, es.drop_last()), es.last())
    }
}

pub open spec fn sum_fitness(h: Seq<HistoricalCommit>) -> int
    decreases h.len(),
{
    if h.len() == 0 {
        0
    } else {
        sum_fitness(h.drop_last()) + h.last().fitness
    }
}

pub open spec fn sum_files(h: Seq<HistoricalCommit>) -> int
    decreases h.len(),
{
    if h.len() == 0 {
        0
    } else {
        sum_files(h.drop_last()) + h.last().file_count
    }
}

/// Mean fitness in millionths, rounded down; zero for an empty log.
pub open spec fn mean_fitness(h: Seq<HistoricalCommit>) -> int {
    if h.len() == 0 {
        0
    } else {
        sum_fitness(h) / (h.len() as int)
    }
}

/// Mean file count in millionths, rounded down; zero for an empty log.
pub open spec fn mean_files(h: Seq<HistoricalCommit>) -> int {
    if h.len() == 0 {
        0
    } else {
        sum_files(h) * 1_000_000 / (h.len() as int)
    }
}

/// Bonus, in millionths, for a change whose file count is close to the
/// historical mean: a twentieth of one less the relative distance (the
/// distance taken relative to the mean, or to one when the mean is smaller).
pub open spec fn similarity_bonus(mean: int, files: int) -> int {
    let c = files * 1_000_000;
    let dist = if c >= mean {
        c - mean
    } else {
        mean - c
    };
    let denom = if mean > 1_000_000 {
        mean
    } else {
        1_000_000
    };
    (1_000_000 - dist * 1_000_000 / denom) * 50_000 / 1_000_000
}

/// A fused score adjusted by the history: with more than five entries the
/// bonus is added and the sum capped at one (no lower cap).
pub open spec fn adjusted_score(score: int, h: Seq<HistoricalCommit>, files: int) -> int {
    if h.len() > 5 {
        let s = score + similarity_bonus(mean_files(h), files);
        if s > 1_000_000 {
            1_000_000
        } else {
            s
        }
    } else {
        score
    }
}

pub proof fn lemma_sum_bounds(h: Seq<HistoricalCommit>)
    ensures
        0 <= sum_fitness(h) <= h.len() * u64::MAX,
        0 <= sum_files(h) <= h.len() * usize::MAX,
    decreases h.len(),
{
    if h.len() > 0 {
        lemma_sum_bounds(h.drop_last());
    }
}

impl FitnessHistory {
    pub open spec fn wf(&self) -> bool {
        self.commits@.len() <= HISTORY_CAPACITY
    }

    pub fn new() -> (r: Self)
        ensures
            r.commits@.len() == 0,
            r.wf(),
    {
        FitnessHistory { commits: Vec::new() }
    }

    /// Appends an entry, dropping the oldest when over capacity.
    pub fn add_commit(&mut self, commit: HistoricalCommit)
        ensures
            final(self).commits@ == appended(old(self).commits@, commit),
            old(self).wf() ==> final(self).wf(),
    {
        self.commits.push(commit);
        if self.commits.len() > HISTORY_CAPACITY {
            let ghost before = self.commits@;
            self.commits.remove(0);
            assert(self.commits@ =~= before.drop_first());
        }
    }

    /// Mean fitness over the entries, in millionths.
    pub fn average_fitness(&self) -> (r: u64)
        requires
            self.wf(),
        ensures
            r == mean_fitness(self.commits@),
    {
        let n = self.commits.len();
        if n == 0 {
            return 0;
        }
        let ghost h = self.commits@;
        let mut sum: u128 = 0;
        let mut i: usize = 0;
        while i < n
            invariant
                h == self.commits@,
                n == h.len(),
                n <= HISTORY_CAPACITY,
                i <= n,
                sum == sum_fitness(h.take(i as int)),
                sum <= i * 0xffff_ffff_ffff_ffff,
            decreases n - i,
        {
            proof {
                assert(h.take(i + 1).drop_last() =~= h.take(i as int));
            }
            sum += self.commits[i].fitness as u128;
            i += 1;
        }
        proof {
            assert(h.take(n as int) =~= h);
            let si: int = sum as int;
            let ni: int = n as int;
            let m: int = 0xffff_ffff_ffff_ffff;
            vstd::arithmetic::div_mod::lemma_div_is_ordered(si, ni * m, ni);
            vstd::arithmetic::div_mod::lemma_div_multiples_vanish(m, ni);
            assert(ni * m == m * ni) by (nonlinear_arith);
        }
        (sum / (n as u128)) as u64
    }

    /// Mean file count over the entries, in millionths.
    pub fn average_file_count(&self) -> (r: u128)
        requires
            self.wf(),
        ensures
            r == mean_files(self.commits@),
            r <= 0xffff_ffff_ffff_ffff * 1_000_000,
    {
        let n = self.commits.len();
        if n == 0 {
            return 0;
        }
        let ghost h = self.commits@;
        let mut sum: u128 = 0;
        let mut i: usize = 0;
        while i < n
            invariant
                h == self.commits@,
                n == h.len(),
                n <= HISTORY_CAPACITY,
                i <= n,
                sum == sum_files(h.take(i as int)),
                sum <= i * 0xffff_ffff_ffff_ffff,
            decreases n - i,
        {
            proof {
                assert(h.take(i + 1).drop_last() =~= h.take(i as int));
            }
            sum += self.commits[i].file_count as u128;
            i += 1;
        }
        proof {
            assert(h.take(n as int) =~= h);
            let si: int = sum as int;
            let ni: int = n as int;
            let m: int = 0xffff_ffff_ffff_ffffint * 1_000_000;
            assert(si * 1_000_000 <= ni * m) by (nonlinear_arith)
                requires
                    si <= ni * 0xffff_ffff_ffff_ffff,
                    m == 0xffff_ffff_ffff_ffff * 1_000_000,
            ;
            vstd::arithmetic::div_mod::lemma_div_is_ordered(si * 1_000_000, ni * m, ni);
            vstd::arithmetic::div_mod::lemma_div_multiples_vanish(m, ni);
            assert(ni * m == m * ni) by (nonlinear_arith);
        }
        sum * 1_000_000 / (n as u128)
    }

    /// A fused score (millionths) adjusted by the similarity bonus once the
    /// log holds more than five entries.
    pub fn adjusted_fitness(&self, score: u64, file_count: usize) -> (r: i128)
        requires
            self.wf(),
        ensures
            r == adjusted_score(score as int, self.commits@, file_count as int),
    {
        if self.commits.len() <= 5 {
            return score as i128;
        }
        let mean = self.average_file_count() as i128;
        let c = file_count as i128 * 1_000_000;
        let dist = if c >= mean {
            c - mean
        } else {
            mean - c
        };
        let denom = if mean > 1_000_000 {
            mean
        } else {
            1_000_000
        };
        let ratio = dist * 1_000_000 / denom;
        proof {
            let di: int = dist as int * 1_000_000;
            vstd::arithmetic::div_mod::lemma_div_is_ordered_by_denominator(di, 1, denom as int);
        }
        let bonus = floor_div((1_000_000 - ratio) * 50_000, 1_000_000);
        let s = score as i128 + bonus;
        if s > 1_000_000 {
            1_000_000
        } else {
            s
        }
    }
}

impl Default for FitnessHistory {
    fn default() -> (r: Self)
        ensures
            r.commits@.len() == 0,
            r.wf(),
    {
        Self::new()
    }
}

/// Appending to a log within capacity keeps exactly the latest entries: the
/// last hundred of the old entries followed by the new ones.
pub proof fn lemma_append_keeps_latest(h: Seq<HistoricalCommit>, es: Seq<HistoricalCommit>)
    requires
        h.len() <= HISTORY_CAPACITY,
    ensures
        append_all(h, es) == (h + es).skip(
            if h.len() + es.len() > HISTORY_CAPACITY {
                h.len() + es.len() - HISTORY_CAPACITY
            } else {
                0
            },
        ),
    decreases es.len(),
{
    if es.len() == 0 {
        assert(h + es =~= h);
        assert(h.skip(0) =~= h);
    } else {
        let es1 = es.drop_last();
        lemma_append_keeps_latest(h, es1);
        let k1: int = if h.len() + es1.len() > HISTORY_CAPACITY {
            h.len() + es1.len() - HISTORY_CAPACITY
        } else {
            0
        };
        let k: int = if h.len() + es.len() > HISTORY_CAPACITY {
            h.len() + es.len() - HISTORY_CAPACITY
        } else {
            0
        };
        let r1 = (h + es1).skip(k1);
        assert(h + es =~= (h + es1).push(es.last()));
        if r1.len() + 1 > HISTORY_CAPACITY {
            assert(r1.push(es.last()).drop_first() =~= (h + es).skip(k));
        } else {
            assert(r1.push(es.last()) =~= (h + es).skip(k));
        }
    }
}

/// After a hundred and one distinct entries are appended to an empty log, it
/// holds a hundred: the first entry is gone and the last is there.
pub proof fn lemma_overflow_evicts_oldest(es: Seq<HistoricalCommit>)
    requires
        es.len() == HISTORY_CAPACITY + 1,
        forall|i: int, j: int| 0 <= i < j < es.len() ==> es[i] != es[j],
    ensures
        append_all(Seq::empty(), es).len() == HISTORY_CAPACITY,
        !append_all(Seq::empty(), es).contains(es[0]),
        append_all(Seq::empty(), es).contains(es[HISTORY_CAPACITY as int]),
{
    lemma_append_keeps_latest(Seq::empty(), es);
    let r = append_all(Seq::empty(), es);
    assert(Seq::<HistoricalCommit>::empty() + es =~= es);
    assert(r =~= es.skip(1));
    assert(r[HISTORY_CAPACITY - 1] == es[HISTORY_CAPACITY as int]);
    if r.contains(es[0]) {
        let i = choose|i: int| 0 <= i < r.len() && r[i] == es[0];
        assert(r[i] == es[i + 1]);
    }
}

} // verus!
