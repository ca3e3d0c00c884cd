//! Did-you-mean suggestions: the known name that is most similar to an
//! unknown one, if it is similar enough.

use vstd::prelude::*;
use vstd::string::*;

verus! {

/// The bit pattern of the Jaro-Winkler similarity of two texts, a number
/// between zero and one written as an IEEE 754 double. Patterns of numbers
/// that are not negative are ordered as the numbers are.
pub uninterp spec fn similarity_bits(a: Seq<char>, b: Seq<char>) -> u64;

/// The bit pattern of 0.8: a candidate is suggested only if its similarity
/// lies above it.
pub const CONFIDENCE: u64 = 0x3fe9_9999_9999_999a;

/// `strsim::jaro_winkler` gives the similarity of `a` and `b`, a function of
/// their characters alone; the result is handed on as its bit pattern.
#[verifier::external_body]
fn similarity(a: &str, b: &str) -> (bits: u64)
    ensures
        bits == similarity_bits(a@, b@),
{
    strsim::jaro_winkler(a, b).to_bits()
}

/// The texts of a list of strings.
pub open spec fn texts(v: Seq<String>) -> Seq<Seq<char>> {
    Seq::new(v.len(), |i: int| v[i]@)
}

/// Among the first `n` scores, the one at `i` lies above the threshold, above
/// every score before it and not below any score behind it.
pub open spec fn is_best_of(scores: Seq<u64>, n: int, i: int) -> bool {
    &&& 0 <= i < n <= scores.len()
    &&& scores[i] > CONFIDENCE
    &&& forall|j: int| 0 <= j < i ==> #[trigger] scores[j] < scores[i]
    &&& forall|j: int| i < j < n ==> #[trigger] scores[j] <= scores[i]
}

/// The place of the best score: the first of the highest ones, if it lies
/// above the threshold.
pub open spec fn best_index(scores: Seq<u64>) -> Option<int> {
    if exists|i: int| is_best_of(scores, scores.len() as int, i) {
        Some(choose|i: int| is_best_of(scores, scores.len() as int, i))
    } else {
        None
    }
}

/// At most one score is the best.
pub proof fn lemma_best_is_unique(scores: Seq<u64>, n: int, i: int, k: int)
    requires
        is_best_of(scores, n, i),
        is_best_of(scores, n, k),
    ensures
        i == k,
{
    if i < k {
        assert(scores[i] < scores[k]);
        assert(scores[k] <= scores[i]);
    } else if k < i {
        assert(scores[k] < scores[i]);
        assert(scores[i] <= scores[k]);
    }
}

/// Finds the place of the best score: the first of the highest ones, if it
/// lies above the threshold.
pub fn pick_best(scores: &Vec<u64>) -> (r: Option<usize>)
    ensures
        match r {
            Some(k) => best_index(scores@) == Some(k as int) && is_best_of(
                scores@,
                scores@.len() as int,
                k as int,
            ),
            None => best_index(scores@) is None && forall|j: int|
                0 <= j < scores@.len() ==> #[trigger] scores@[j] <= CONFIDENCE,
        },
{
    let mut best: Option<usize> = None;
    let mut best_bits: u64 = 0;
    let mut i: usize = 0;
    while i < scores.len()
        invariant
            i <= scores@.len(),
            match best {
                Some(k) => is_best_of(scores@, i as int, k as int) && best_bits == scores@[k as int],
                None => forall|j: int| 0 <= j < i ==> #[trigger] scores@[j] <= CONFIDENCE,
            },
        decreases scores@.len() - i,
    {
        let bits = scores[i];
        if bits > CONFIDENCE && (best.is_none() || best_bits < bits) {
            best = Some(i);
            best_bits = bits;
        }
        i += 1;
    }
    proof {
        let n = scores@.len() as int;
        match best {
            Some(k) => {
                let c = choose|c: int| is_best_of(scores@, n, c);
                lemma_best_is_unique(scores@, n, k as int, c);
            },
            None => {
                assert forall|c: int| !is_best_of(scores@, n, c) by {
                    if 0 <= c < n {
                        assert(scores@[c] <= CONFIDENCE);
                    }
                }
            },
        }
    }
    best
}

/// The similarity of `v` to each candidate, in order.
pub open spec fn scores_of(v: Seq<char>, candidates: Seq<Seq<char>>) -> Seq<u64> {
    Seq::new(candidates.len(), |i: int| similarity_bits(v, candidates[i]))
}

/// The candidate to suggest for `v`: the first of those most similar to it,
/// if that similarity lies above the threshold.
pub open spec fn suggestion(v: Seq<char>, candidates: Seq<Seq<char>>) -> Option<Seq<char>> {
    match best_index(scores_of(v, candidates)) {
        Some(i) => Some(candidates[i]),
        None => None,
    }
}

/// Picks from `possible_values` the one most similar to `v`, if it is similar
/// enough: of several equally similar ones the first.
pub fn did_you_mean(v: &str, possible_values: &Vec<String>) -> (r: Option<String>)
    ensures
        match r {
            Some(s) => suggestion(v@, texts(possible_values@)) == Some(s@),
            None => suggestion(v@, texts(possible_values@)) is None,
        },
{
    let ghost cands = texts(possible_values@);
    let mut scores: Vec<u64> = Vec::new();
    let mut i: usize = 0;
    while i < possible_values.len()
        invariant
            i <= possible_values@.len(),
            cands == texts(possible_values@),
            scores@ == scores_of(v@, cands).take(i as int),
        decreases possible_values@.len() - i,
    {
        let bits = similarity(v, possible_values[i].as_str());
        scores.push(bits);
        i += 1;
        assert(scores@ =~= scores_of(v@, cands).take(i as int));
    }
    assert(scores@ =~= scores_of(v@, cands));
    match pick_best(&scores) {
        Some(k) => Some(possible_values[k].clone()),
        None => None,
    }
}

} // verus!
