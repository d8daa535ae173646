use vstd::prelude::*;

verus! {

/// Scores are probabilities in millionths: a full distribution sums to this.
pub const SCORE_SCALE: u32 = 1_000_000;

/// Why a classification could not be produced.
#[derive(Clone, Copy, Debug, PartialEq, Eq, Structural)]
pub enum ClassifyError {
    /// The model's output does not match its label vocabulary.
    InferenceError,
}

/// `order` lists each of the indices `0..n` exactly once.
pub open spec fn is_permutation(order: Seq<usize>, n: nat) -> bool {
    &&& order.len() == n
    &&& forall|i: int| 0 <= i < order.len() ==> (#[trigger] order[i]) < n
    &&& forall|i: int, j: int| 0 <= i < j < order.len() ==> order[i] != order[j]
    &&& forall|x: usize| x < n ==> #[trigger] order.contains(x)
}

/// Along `order`, scores never increase, and equal scores keep index order.
pub open spec fn ranks_descending(order: Seq<usize>, scores: Seq<u32>) -> bool {
    forall|i: int, j: int|
        0 <= i < j < order.len() ==> scores[order[i] as int] > scores[order[j] as int] || (
        scores[order[i] as int] == scores[order[j] as int] && order[i] < order[j])
}

/// The indices of `scores`, ordered from the highest score to the lowest;
/// equal scores keep their original order.
pub fn rank_scores(scores: &Vec<u32>) -> (r: Vec<usize>)
    ensures
        is_permutation(r@, scores@.len()),
        ranks_descending(r@, scores@),
        r@.len() > 0 ==> forall|x: int| 0 <= x < scores@.len() ==> scores@[r@[0] as int] >= #[trigger] scores@[x],
{
    let n = scores.len();
    let mut out: Vec<usize> = Vec::new();
    let mut k: usize = 0;
    while k < n
        invariant
            k <= n == scores@.len(),
            is_permutation(out@, k as nat),
            ranks_descending(out@, scores@),
        decreases n - k,
    {
        let sk = scores[k];
        let mut p: usize = 0;
        while p < out.len() && scores[out[p]] >= sk
            invariant
                k < n == scores@.len(),
                p <= out@.len(),
                is_permutation(out@, k as nat),
                forall|i: int| 0 <= i < p ==> scores@[out@[i] as int] >= sk,
            decreases out@.len() - p,
        {
            p = p + 1;
        }
        let ghost before = out@;
        out.insert(p, k);
        proof {
            let after = out@;
            assert(after == before.insert(p as int, k));
            assert forall|i: int| 0 <= i < after.len() implies (#[trigger] after[i]) < k + 1 by {
                if i < p {
                    assert(after[i] == before[i]);
                } else if i > p {
                    assert(after[i] == before[i - 1]);
                }
            }
            assert forall|i: int, j: int| 0 <= i < j < after.len() implies after[i] != after[j] by {
                if i < p {
                    assert(after[i] == before[i]);
                } else if i > p {
                    assert(after[i] == before[i - 1]);
                }
                if j < p {
                    assert(after[j] == before[j]);
                } else if j > p {
                    assert(after[j] == before[j - 1]);
                }
            }
            assert forall|x: usize| x < k + 1 implies #[trigger] after.contains(x) by {
                if x == k {
                    assert(after[p as int] == k);
                } else {
                    assert(before.contains(x));
                    let i = choose|i: int| 0 <= i < before.len() && before[i] == x;
                    if i < p {
                        assert(after[i] == x);
                    } else {
                        assert(after[i + 1] == x);
                    }
                }
            }
            if p < before.len() {
                assert(scores@[before[p as int] as int] < sk);
            }
            assert forall|i: int, j: int| 0 <= i < j < after.len() implies scores@[after[i] as int]
                > scores@[after[j] as int] || (scores@[after[i] as int] == scores@[after[j] as int]
                && after[i] < after[j]) by {
                if j < p {
                    assert(after[i] == before[i] && after[j] == before[j]);
                } else if j == p {
                    assert(after[i] == before[i]);
                } else if i == p {
                    assert(after[j] == before[j - 1]);
                    assert(scores@[before[p as int] as int] < sk);
                    if j - 1 > p {
                        assert(scores@[before[p as int] as int] >= scores@[before[j - 1] as int]);
                    }
                } else if i < p {
                    assert(after[i] == before[i] && after[j] == before[j - 1]);
                } else {
                    assert(after[i] == before[i - 1] && after[j] == before[j - 1]);
                }
            }
        }
        k = k + 1;
    }
    proof {
        if out@.len() > 0 {
            assert forall|x: int| 0 <= x < scores@.len() implies scores@[out@[0] as int] >= #[trigger] scores@[x] by {
                assert(out@.contains(x as usize));
                let i = choose|i: int| 0 <= i < out@.len() && out@[i] == x as usize;
                if i > 0 {
                    assert(0 < i);
                }
            }
        }
    }
    out
}

/// One class with its score.
pub struct ClassScore {
    pub label: String,
    pub score: u32,
}

/// A classification result: the best class and every class, best first.
pub struct Ranking {
    pub top_label: String,
    pub top_score: u32,
    pub classes: Vec<ClassScore>,
}

/// Pairs the model's `scores` with its `labels` and ranks them, best first.
/// The two must have one entry per class, and at least one class.
pub fn rank_labels(labels: &Vec<String>, scores: &Vec<u32>) -> (r: Result<Ranking, ClassifyError>)
    ensures
        labels@.len() != scores@.len() || scores@.len() == 0 <==> r is Err,
        r is Err ==> r == Err::<Ranking, ClassifyError>(ClassifyError::InferenceError),
        r is Ok ==> {
            let k = r->Ok_0;
            exists|order: Seq<usize>|
                {
                    &&& is_permutation(order, scores@.len())
                    &&& ranks_descending(order, scores@)
                    &&& k.classes@.len() == order.len()
                    &&& forall|i: int|
                        0 <= i < order.len() ==> (#[trigger] k.classes@[i]).label@ == labels@[order[i] as int]@
                            && k.classes@[i].score == scores@[order[i] as int]
                    &&& k.top_label@ == labels@[order[0] as int]@
                    &&& k.top_score == scores@[order[0] as int]
                }
        },
        r is Ok ==> forall|x: int| 0 <= x < scores@.len() ==> r->Ok_0.top_score >= #[trigger] scores@[x],
{
    if labels.len() != scores.len() || scores.len() == 0 {
        return Err(ClassifyError::InferenceError);
    }
    let order = rank_scores(scores);
    let mut classes: Vec<ClassScore> = Vec::new();
    let mut i: usize = 0;
    while i < order.len()
        invariant
            i <= order@.len() == scores@.len() == labels@.len(),
            is_permutation(order@, scores@.len()),
            classes@.len() == i,
            forall|j: int|
                0 <= j < i ==> (#[trigger] classes@[j]).label@ == labels@[order@[j] as int]@
                    && classes@[j].score == scores@[order@[j] as int],
        decreases order@.len() - i,
    {
        let c = order[i];
        classes.push(ClassScore { label: labels[c].clone(), score: scores[c] });
        i = i + 1;
    }
    let top = order[0];
    let r = Ranking { top_label: labels[top].clone(), top_score: scores[top], classes };
    assert(r.classes@.len() == order@.len());
    Ok(r)
}

} // verus!
