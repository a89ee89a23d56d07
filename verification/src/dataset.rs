//! What a caller needs around the network: encoding a category, dividing the
//! rows of a data set, and counting how predictions fared.
use vstd::prelude::*;
use vstd::std_specs::cmp::PartialEqSpec;
use crate::error::Error;
use crate::linalg::Matrix;

verus! {

/// `b` is an answer that `x == y` may give.
pub open spec fn same<K: PartialEq>(x: K, y: K, b: bool) -> bool {
    call_ensures(K::eq, (&x, &y), b)
}

/// `mark` is `hot` where `category == value` answered true, and `cold` where
/// it answered false.
pub open spec fn marks<K: PartialEq, T>(category: K, value: K, hot: T, cold: T, mark: T) -> bool {
    ||| same(category, value, true) && mark == hot
    ||| same(category, value, false) && mark == cold
}

/// One mark per category: `hot` for a category that equals `value`, `cold`
/// for the others. `InvalidCategory` where no category equals `value`.
pub fn one_hot<K: PartialEq, T: Copy>(value: &K, categories: &[K], hot: T, cold: T) -> (r: Result<
    Vec<T>,
    Error,
>)
    ensures
        r matches Ok(v) ==> v@.len() == categories@.len() && (forall|i: int|
            0 <= i < v@.len() ==> marks(categories@[i], *value, hot, cold, #[trigger] v@[i]))
            && exists|i: int|
            0 <= i < categories@.len() && same(#[trigger] categories@[i], *value, true),
        r matches Err(e) ==> e == Error::InvalidCategory && forall|i: int|
            0 <= i < categories@.len() ==> same(#[trigger] categories@[i], *value, false),
        K::obeys_eq_spec() ==> (r is Ok <==> exists|i: int|
            0 <= i < categories@.len() && (#[trigger] categories@[i]).eq_spec(value)),
{
    let mut v: Vec<T> = Vec::new();
    let mut found = false;
    let mut i: usize = 0;
    while i < categories.len()
        invariant
            i <= categories@.len(),
            v@.len() == i,
            forall|k: int| 0 <= k < i ==> marks(categories@[k], *value, hot, cold, #[trigger] v@[k]),
            found ==> exists|k: int| 0 <= k < i && same(#[trigger] categories@[k], *value, true),
            !found ==> forall|k: int| 0 <= k < i ==> same(#[trigger] categories@[k], *value, false),
        decreases categories@.len() - i,
    {
        if categories[i] == *value {
            found = true;
            v.push(hot);
        } else {
            v.push(cold);
        }
        i += 1;
    }
    if found {
        Ok(v)
    } else {
        Err(Error::InvalidCategory)
    }
}

/// Four fifths of `rows`, rounded down.
pub open spec fn cut_of(rows: int) -> int {
    rows * 4 / 5
}

/// How many of `rows` rows go to training: four fifths, rounded down.
pub fn train_share(rows: usize) -> (r: usize)
    ensures
        r == cut_of(rows as int),
{
    let whole = rows / 5;
    let rest = rows % 5;
    whole * 4 + rest * 4 / 5
}

/// The rows of `data` divided, in their order, into those for training and
/// those for testing.
pub fn split<T: Copy>(data: &Matrix<T>) -> (r: (Matrix<T>, Matrix<T>))
    ensures
        r.0@ == data@.rows_between(0, cut_of(data@.height() as int)),
        r.1@ == data@.rows_between(cut_of(data@.height() as int), data@.height() as int),
{
    let rows = data.rows();
    let cut = train_share(rows);
    let train = data.slice_y(0..cut).unwrap();
    let test = data.slice_y(cut..rows).unwrap();
    (train, test)
}

/// How the predictions for a set of samples fared.
#[derive(Debug, Clone, Copy, PartialEq, Eq, Structural)]
pub struct Tally {
    /// The samples counted.
    pub samples: usize,
    /// Those whose class is the positive one.
    pub positives: usize,
    /// Those of the positive class that were predicted positive.
    pub true_positives: usize,
    /// Those of the negative class that were predicted negative.
    pub true_negatives: usize,
}

/// Among the first `k` samples, how many are of the class `class`.
pub open spec fn of_class(samples: Seq<(Option<bool>, Option<bool>)>, class: bool, k: nat) -> nat
    decreases k,
{
    if k == 0 {
        0
    } else {
        of_class(samples, class, (k - 1) as nat) + if samples[k - 1].0 == Some(class) {
            1nat
        } else {
            0nat
        }
    }
}

/// Among the first `k` samples, how many are of the class `class` and were
/// predicted to be.
pub open spec fn hits(samples: Seq<(Option<bool>, Option<bool>)>, class: bool, k: nat) -> nat
    decreases k,
{
    if k == 0 {
        0
    } else {
        hits(samples, class, (k - 1) as nat) + if samples[k - 1].0 == Some(class) && samples[k
            - 1].1 == Some(class) {
            1nat
        } else {
            0nat
        }
    }
}

/// Counts the samples, the positive ones, and the correct predictions of
/// either class. A sample is its class and the class it was predicted to be;
/// a class that is neither the positive nor the negative one is `None`.
pub fn tally(samples: &[(Option<bool>, Option<bool>)]) -> (r: Tally)
    ensures
        r.samples == samples@.len(),
        r.positives == of_class(samples@, true, samples@.len()),
        r.true_positives == hits(samples@, true, samples@.len()),
        r.true_negatives == hits(samples@, false, samples@.len()),
{
    let mut positives: usize = 0;
    let mut true_positives: usize = 0;
    let mut true_negatives: usize = 0;
    let mut i: usize = 0;
    while i < samples.len()
        invariant
            i <= samples@.len(),
            positives == of_class(samples@, true, i as nat),
            true_positives == hits(samples@, true, i as nat),
            true_negatives == hits(samples@, false, i as nat),
            positives <= i,
            true_positives <= i,
            true_negatives <= i,
        decreases samples@.len() - i,
    {
        match samples[i] {
            (Some(true), Some(true)) => {
                positives += 1;
                true_positives += 1;
            },
            (Some(true), _) => {
                positives += 1;
            },
            (Some(false), Some(false)) => {
                true_negatives += 1;
            },
            _ => {},
        }
        i += 1;
    }
    Tally { samples: samples.len(), positives, true_positives, true_negatives }
}

} // verus!
