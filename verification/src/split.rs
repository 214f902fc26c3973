//! Partitioning a table: its rows into a training and a test set, and its
//! columns into the features and the target.

use vstd::prelude::*;
use vstd::arithmetic::div_mod::{
    lemma_fundamental_div_mod, lemma_fundamental_div_mod_converse, lemma_mod_bound,
};
use vstd::seq_lib::{seq_to_set_is_finite, to_multiset_contains, to_multiset_len};
use vstd::set_lib::lemma_subset_equality;
use crate::error::PipelineError;
use crate::features::{
    feature_names, feature_spec, lemma_feature_spec_distinct, target_name, target_spec,
    FEATURE_COUNT,
};
use crate::random::shuffle;
use crate::table::{lemma_select_wf, lemma_take_rows, pairwise_distinct, Table, TableView};

verus! {

/// A ratio of two whole numbers. It stands for the share of the rows that is
/// held back for testing, which must lie strictly between zero and one.
#[derive(Debug, Clone, Copy, PartialEq, Eq, Structural)]
pub struct Fraction {
    pub numerator: u64,
    pub denominator: u64,
}

impl Fraction {
    /// The ratio lies strictly between zero and one.
    pub open spec fn is_proper(self) -> bool {
        0 < self.numerator < self.denominator
    }

    /// Whether the ratio lies strictly between zero and one.
    pub fn proper(&self) -> (proper: bool)
        ensures
            proper == self.is_proper(),
    {
        0 < self.numerator && self.numerator < self.denominator
    }
}

/// The least whole number that is not below `a / b`, for `b > 0`.
pub open spec fn ceil_div(a: int, b: int) -> int {
    (a + b - 1) / b
}

/// The number of training rows among `rows` rows when the share `test` is held
/// back: the ceiling of `rows * (1 - test)`.
pub open spec fn train_count(rows: nat, test: Fraction) -> int {
    ceil_div(rows * (test.denominator - test.numerator), test.denominator as int)
}

/// `ceil_div(a, b)` is the ceiling of the quotient: the one whole number `k`
/// with `(k - 1) * b < a <= k * b`.
pub proof fn lemma_ceil_div(a: int, b: int)
    requires
        0 <= a,
        0 < b,
    ensures
        (ceil_div(a, b) - 1) * b < a <= ceil_div(a, b) * b,
        a % b == 0 ==> ceil_div(a, b) == a / b,
        a % b != 0 ==> ceil_div(a, b) == a / b + 1,
{
    let q = a / b;
    let r = a % b;
    lemma_fundamental_div_mod(a, b);
    lemma_mod_bound(a, b);
    assert(a == b * q + r);
    if r == 0 {
        lemma_fundamental_div_mod_converse(a + b - 1, b, q, b - 1);
        assert(ceil_div(a, b) == q);
        assert((q - 1) * b == q * b - b) by (nonlinear_arith);
        assert(q * b == b * q) by (nonlinear_arith);
    } else {
        assert((q + 1) * b + (r - 1) == b * q + r + b - 1) by (nonlinear_arith);
        lemma_fundamental_div_mod_converse(a + b - 1, b, q + 1, r - 1);
        assert(ceil_div(a, b) == q + 1);
        assert((q + 1) * b == b * q + b) by (nonlinear_arith);
        assert((q + 1 - 1) * b == b * q) by (nonlinear_arith);
    }
}

/// The number of test rows is the whole part of `rows * test`: what is left
/// when the training rows are taken away. Where `rows * test` is a whole
/// number, that is its ceiling too.
pub proof fn lemma_test_count(rows: nat, test: Fraction)
    requires
        test.is_proper(),
    ensures
        0 <= train_count(rows, test) <= rows,
        rows > 0 ==> train_count(rows, test) > 0,
        rows - train_count(rows, test) == (rows * test.numerator) / (test.denominator as int),
        (rows * test.numerator) % (test.denominator as int) == 0 ==> rows - train_count(rows, test)
            == ceil_div(rows * test.numerator, test.denominator as int),
{
    let den = test.denominator as int;
    let num = test.numerator as int;
    let n = rows as int;
    let kept = n * (den - num);
    let held = n * num;
    let k = train_count(rows, test);
    assert(kept >= 0 && held >= 0 && kept + held == n * den && (n > 0 ==> kept > 0))
        by (nonlinear_arith)
        requires
            0 < num < den,
            0 <= n,
            kept == n * (den - num),
            held == n * num,
    ;
    lemma_ceil_div(kept, den);
    lemma_ceil_div(held, den);
    let t = n - k;
    assert(0 <= held - t * den < den) by (nonlinear_arith)
        requires
            (k - 1) * den < kept <= k * den,
            kept + held == n * den,
            t == n - k,
    ;
    lemma_fundamental_div_mod_converse(held, den, t, held - t * den);
    assert(0 <= k <= n && (n > 0 ==> k > 0)) by (nonlinear_arith)
        requires
            (k - 1) * den < kept <= k * den,
            kept + held == n * den,
            0 <= held,
            0 <= kept,
            n > 0 ==> kept > 0,
            0 < den,
            0 <= n,
    {
    }
}

/// The number of training rows among `rows` rows when the share `test` is held
/// back. There must be a row, and the share must lie strictly between zero and
/// one.
pub fn training_rows(rows: usize, test: Fraction) -> (result: Result<usize, PipelineError>)
    ensures
        match result {
            Ok(count) => {
                &&& test.is_proper()
                &&& rows > 0
                &&& count == train_count(rows as nat, test)
                &&& 0 < count <= rows
            },
            Err(error) => !(test.is_proper() && rows > 0) && error == PipelineError::InvalidArgument,
        },
{
    if !test.proper() || rows == 0 {
        return Err(PipelineError::InvalidArgument);
    }
    let kept: u64 = test.denominator - test.numerator;
    assert((rows as int) * (kept as int) <= 0xffff_ffff_ffff_ffff * 0xffff_ffff_ffff_ffff)
        by (nonlinear_arith)
        requires
            0 <= rows as int <= 0xffff_ffff_ffff_ffff,
            0 <= kept as int <= 0xffff_ffff_ffff_ffff,
    ;
    let product: u128 = (rows as u128) * (kept as u128);
    let denominator: u128 = test.denominator as u128;
    let quotient: u128 = product / denominator;
    let remainder: u128 = product % denominator;
    proof {
        lemma_ceil_div(product as int, denominator as int);
        lemma_test_count(rows as nat, test);
    }
    let count: u128 = if remainder == 0 {
        quotient
    } else {
        quotient + 1
    };
    Ok(count as usize)
}

/// `order` lists each of the row indices `0 .. rows` exactly once.
pub open spec fn is_permutation(order: Seq<usize>, rows: nat) -> bool {
    &&& order.len() == rows
    &&& forall|i: int| 0 <= i < order.len() ==> (#[trigger] order[i]) < rows
    &&& order.no_duplicates()
}

/// The row indices `0 .. rows` in rising order.
pub open spec fn identity_order(rows: nat) -> Seq<usize> {
    Seq::new(rows, |i: int| i as usize)
}

/// Whatever holds the same values as `0 .. rows`, each as often, lists each
/// row index exactly once.
pub proof fn lemma_rearranged_identity(order: Seq<usize>, rows: nat)
    requires
        rows <= usize::MAX,
        order.to_multiset() == identity_order(rows).to_multiset(),
    ensures
        is_permutation(order, rows),
{
    let identity = identity_order(rows);
    to_multiset_len(order);
    to_multiset_len(identity);
    assert(identity.no_duplicates());
    identity.lemma_multiset_has_no_duplicates();
    order.lemma_multiset_has_no_duplicates_conv();
    assert forall|i: int| 0 <= i < order.len() implies (#[trigger] order[i]) < rows by {
        to_multiset_contains(order, order[i]);
        to_multiset_contains(identity, order[i]);
        assert(order.contains(order[i]));
        let j = choose|j: int| 0 <= j < identity.len() && identity[j] == order[i];
        assert(identity[j] == j);
    }
}

/// The row indices `0 .. rows` in a random order.
pub fn shuffled_rows(rows: usize) -> (order: Vec<usize>)
    ensures
        is_permutation(order@, rows as nat),
{
    let mut order: Vec<usize> = Vec::new();
    let mut next: usize = 0;
    while next < rows
        invariant
            0 <= next <= rows,
            order@ == identity_order(next as nat),
        decreases rows - next,
    {
        order.push(next);
        next += 1;
        assert(order@ =~= identity_order(next as nat));
    }
    let mut rng = rand::thread_rng();
    shuffle(&mut order, &mut rng);
    proof {
        lemma_rearranged_identity(order@, rows as nat);
    }
    order
}

/// A permutation of the row indices `0 .. rows` names every one of them.
pub proof fn lemma_permutation_covers(order: Seq<usize>, rows: nat)
    requires
        rows <= usize::MAX,
        is_permutation(order, rows),
    ensures
        forall|row: usize| row < rows ==> order.contains(row),
{
    let identity = identity_order(rows);
    let named = order.to_set();
    let all = identity.to_set();
    assert(identity.no_duplicates());
    order.unique_seq_to_set();
    identity.unique_seq_to_set();
    seq_to_set_is_finite(order);
    seq_to_set_is_finite(identity);
    assert forall|row: usize| named.contains(row) implies all.contains(row) by {
        let i = choose|i: int| 0 <= i < order.len() && order[i] == row;
        assert(identity[row as int] == row);
    }
    lemma_subset_equality(named, all);
    assert forall|row: usize| row < rows implies order.contains(row) by {
        assert(identity[row as int] == row);
        assert(all.contains(row));
        assert(named.contains(row));
    }
}

/// A partition of the rows of a table into the rows to train on and the rows
/// held back for testing, each as a list of row indices.
#[derive(Debug, Clone, PartialEq, Eq)]
pub struct RowSplit {
    pub train: Vec<usize>,
    pub test: Vec<usize>,
}

/// Cuts a permutation of the row indices into the training rows, which are its
/// first `train_count` entries, and the test rows, which are the rest. The
/// order must be a permutation of `0 .. order.len()` and not empty, and the
/// test share must lie strictly between zero and one.
pub fn split_order(order: &Vec<usize>, test: Fraction) -> (result: Result<RowSplit, PipelineError>)
    ensures
        match result {
            Ok(split) => {
                &&& test.is_proper()
                &&& order@.len() > 0
                &&& is_permutation(order@, order@.len())
                &&& split.train@ == order@.take(train_count(order@.len(), test))
                &&& split.test@ == order@.skip(train_count(order@.len(), test))
            },
            Err(error) => {
                &&& error == PipelineError::InvalidArgument
                &&& !(test.is_proper() && order@.len() > 0 && is_permutation(order@, order@.len()))
            },
        },
{
    let rows = order.len();
    let count = match training_rows(rows, test) {
        Ok(count) => count,
        Err(error) => {
            return Err(error);
        },
    };
    let mut seen: Vec<bool> = Vec::new();
    let mut filled: usize = 0;
    while filled < rows
        invariant
            0 <= filled <= rows,
            seen@.len() == filled,
            forall|r: int| 0 <= r < filled ==> !(#[trigger] seen@[r]),
        decreases rows - filled,
    {
        seen.push(false);
        filled += 1;
    }
    let mut i: usize = 0;
    while i < rows
        invariant
            rows == order@.len(),
            seen@.len() == rows,
            0 <= i <= rows,
            forall|j: int| 0 <= j < i ==> (#[trigger] order@[j]) < rows,
            forall|a: int, b: int| 0 <= a < b < i ==> #[trigger] order@[a] != #[trigger] order@[b],
            forall|r: int|
                0 <= r < rows ==> ((#[trigger] seen@[r]) <==> exists|j: int|
                    0 <= j < i && #[trigger] order@[j] == r),
        decreases rows - i,
    {
        let row = order[i];
        if row >= rows {
            return Err(PipelineError::InvalidArgument);
        }
        if seen[row] {
            proof {
                let j = choose|j: int| 0 <= j < i && #[trigger] order@[j] == row;
                assert(order@[j] == order@[i as int]);
            }
            return Err(PipelineError::InvalidArgument);
        }
        let ghost before = seen@;
        seen.set(row, true);
        proof {
            assert forall|r: int| 0 <= r < rows implies ((#[trigger] seen@[r]) <==> exists|j: int|
                0 <= j < i + 1 && #[trigger] order@[j] == r) by {
                if r == row {
                    assert(order@[i as int] == r);
                } else {
                    assert(seen@[r] == before[r]);
                    if before[r] {
                        let j = choose|j: int| 0 <= j < i && #[trigger] order@[j] == r;
                        assert(0 <= j < i + 1 && order@[j] == r);
                    }
                    if exists|j: int| 0 <= j < i + 1 && #[trigger] order@[j] == r {
                        let j = choose|j: int| 0 <= j < i + 1 && #[trigger] order@[j] == r;
                        assert(j != i);
                        assert(0 <= j < i && order@[j] == r);
                    }
                }
            }
            assert forall|a: int, b: int| 0 <= a < b < i + 1 implies #[trigger] order@[a]
                != #[trigger] order@[b] by {
                if b == i && order@[a] == order@[b] {
                    assert(0 <= a < i && order@[a] == row);
                    assert(before[row as int]);
                }
            }
        }
        i += 1;
    }
    assert(is_permutation(order@, order@.len()));
    let mut train: Vec<usize> = Vec::new();
    let mut k: usize = 0;
    while k < count
        invariant
            0 <= k <= count <= rows,
            rows == order@.len(),
            train@ == order@.take(k as int),
        decreases count - k,
    {
        train.push(order[k]);
        k += 1;
        assert(train@ =~= order@.take(k as int));
    }
    let mut held: Vec<usize> = Vec::new();
    while k < rows
        invariant
            count <= k <= rows,
            rows == order@.len(),
            held@ == order@.subrange(count as int, k as int),
        decreases rows - k,
    {
        held.push(order[k]);
        k += 1;
        assert(held@ =~= order@.subrange(count as int, k as int));
    }
    assert(held@ =~= order@.skip(count as int));
    Ok(RowSplit { train, test: held })
}

/// Splits the rows of `table` along a given permutation `order` of its row
/// indices: the training table holds the rows that the first `train_count`
/// entries name, the test table the rows that the others name, each in the
/// order of the permutation. The table must have a row, `order` must be a
/// permutation of its row indices, and the test share must lie strictly
/// between zero and one.
pub fn train_test_split_by<T: Copy>(table: &Table<T>, order: &Vec<usize>, test: Fraction) -> (result:
    Result<(Table<T>, Table<T>), PipelineError>)
    ensures
        match result {
            Ok((train, held)) => {
                &&& test.is_proper()
                &&& table@.height() > 0
                &&& is_permutation(order@, table@.height())
                &&& train@ == table@.take_rows(order@.take(train_count(table@.height(), test)))
                &&& held@ == table@.take_rows(order@.skip(train_count(table@.height(), test)))
                &&& train@.height() == train_count(table@.height(), test)
                &&& train@.height() + held@.height() == table@.height()
            },
            Err(error) => {
                &&& error == PipelineError::InvalidArgument
                &&& !(test.is_proper() && table@.height() > 0 && is_permutation(
                    order@,
                    table@.height(),
                ))
            },
        },
{
    if order.len() != table.height() {
        return Err(PipelineError::InvalidArgument);
    }
    let split = match split_order(order, test) {
        Ok(split) => split,
        Err(error) => {
            return Err(error);
        },
    };
    proof {
        let count = train_count(table@.height(), test);
        lemma_test_count(table@.height(), test);
        assert forall|i: int| 0 <= i < split.train@.len() implies (#[trigger] split.train@[i])
            < table@.height() by {
            assert(split.train@[i] == order@[i]);
        }
        assert forall|i: int| 0 <= i < split.test@.len() implies (#[trigger] split.test@[i])
            < table@.height() by {
            assert(split.test@[i] == order@[count + i]);
        }
        lemma_take_rows(table@, split.train@);
        lemma_take_rows(table@, split.test@);
    }
    let train = match table.take_rows(&split.train) {
        Ok(train) => train,
        Err(error) => {
            return Err(error);
        },
    };
    let held = match table.take_rows(&split.test) {
        Ok(held) => held,
        Err(error) => {
            return Err(error);
        },
    };
    Ok((train, held))
}

/// Splits the rows of `table` at random into a training table and a test
/// table. The rows are put in a random order; the training table takes the
/// first `train_count` of them and the test table the rest. Two calls need
/// not give the same split. The table must have a row, and the test share must
/// lie strictly between zero and one.
pub fn train_test_split<T: Copy>(table: &Table<T>, test: Fraction) -> (result: Result<
    (Table<T>, Table<T>),
    PipelineError,
>)
    ensures
        match result {
            Ok((train, held)) => {
                &&& test.is_proper()
                &&& table@.height() > 0
                &&& exists|order: Seq<usize>|
                    {
                        &&& is_permutation(order, table@.height())
                        &&& train@ == table@.take_rows(
                            order.take(train_count(table@.height(), test)),
                        )
                        &&& held@ == #[trigger] table@.take_rows(
                            order.skip(train_count(table@.height(), test)),
                        )
                    }
                &&& train@.height() == train_count(table@.height(), test)
                &&& train@.height() + held@.height() == table@.height()
            },
            Err(error) => {
                &&& error == PipelineError::InvalidArgument
                &&& !(test.is_proper() && table@.height() > 0)
            },
        },
{
    let rows = table.height();
    if !test.proper() || rows == 0 {
        return Err(PipelineError::InvalidArgument);
    }
    let order = shuffled_rows(rows);
    train_test_split_by(table, &order, test)
}

/// The columns that a table must have to be split into features and target:
/// the features in model order, then the target.
pub open spec fn required_columns() -> Seq<Seq<char>> {
    feature_spec().push(target_spec())
}

/// Splits the columns of `table` into the feature columns, in model order, and
/// the target column. Both tables keep every row, in the same order, so row
/// `i` of the features belongs to row `i` of the target. Where a required
/// column is absent, the first such column is reported as missing.
pub fn split_features_and_target<T: Copy>(table: &Table<T>) -> (result: Result<
    (Table<T>, Table<T>),
    PipelineError,
>)
    ensures
        match result {
            Ok((features, target)) => {
                &&& table@.has_all(required_columns())
                &&& features@ == table@.select(feature_spec())
                &&& target@ == table@.select(seq![target_spec()])
            },
            Err(PipelineError::MissingColumn(name)) => exists|k: int|
                table@.first_missing_at(required_columns(), k) && name@ == required_columns()[k],
            Err(_) => false,
        },
{
    let wanted = feature_names();
    let mut label: Vec<String> = Vec::new();
    label.push(target_name());
    proof {
        lemma_feature_spec_distinct();
        assert(label.deep_view() =~= seq![target_spec()]);
        assert(pairwise_distinct(label.deep_view()));
    }
    let features = match table.select(&wanted) {
        Ok(features) => features,
        Err(error) => {
            proof {
                let k = choose|k: int|
                    table@.first_missing_at(feature_spec(), k) && error->MissingColumn_0@
                        == feature_spec()[k];
                assert(required_columns().take(k) =~= feature_spec().take(k));
                assert(table@.first_missing_at(required_columns(), k));
            }
            return Err(error);
        },
    };
    let target = match table.select(&label) {
        Ok(target) => target,
        Err(error) => {
            proof {
                let k = feature_spec().len() as int;
                assert(required_columns().take(k) =~= feature_spec());
                assert(seq![target_spec()][0] == target_spec());
                assert(table@.first_missing_at(required_columns(), k));
            }
            return Err(error);
        },
    };
    proof {
        assert forall|k: int| 0 <= k < required_columns().len() implies table@.has_column(
            #[trigger] required_columns()[k],
        ) by {
            if k < feature_spec().len() {
                assert(required_columns()[k] == feature_spec()[k]);
            } else {
                assert(seq![target_spec()][0] == target_spec());
            }
        }
    }
    Ok((features, target))
}

/// Whatever permutation a split is made along, the training rows and the test
/// rows have no row in common, between them they are exactly the rows of the
/// table, and neither names a row twice. The test rows number the whole part
/// of `rows * test`; where `rows * test` is a whole number, that is its
/// ceiling.
pub proof fn lemma_split_partitions_rows(order: Seq<usize>, rows: nat, test: Fraction)
    requires
        rows <= usize::MAX,
        is_permutation(order, rows),
        test.is_proper(),
    ensures
        ({
            let train = order.take(train_count(rows, test));
            let held = order.skip(train_count(rows, test));
            &&& train.to_set().disjoint(held.to_set())
            &&& forall|row: usize| row < rows <==> train.contains(row) || held.contains(row)
            &&& train.no_duplicates()
            &&& held.no_duplicates()
            &&& train.len() + held.len() == rows
            &&& train.len() == train_count(rows, test)
            &&& held.len() == (rows * test.numerator) / (test.denominator as int)
            &&& (rows * test.numerator) % (test.denominator as int) == 0 ==> held.len() == ceil_div(
                rows * test.numerator,
                test.denominator as int,
            )
        }),
{
    let count = train_count(rows, test);
    let train = order.take(count);
    let held = order.skip(count);
    lemma_test_count(rows, test);
    lemma_permutation_covers(order, rows);
    assert forall|row: usize| row < rows <==> train.contains(row) || held.contains(row) by {
        if row < rows {
            assert(order.contains(row));
            let i = choose|i: int| 0 <= i < order.len() && order[i] == row;
            if i < count {
                assert(train[i] == row);
            } else {
                assert(held[i - count] == row);
            }
        }
        if train.contains(row) {
            let i = choose|i: int| 0 <= i < train.len() && train[i] == row;
            assert(order[i] == row);
        }
        if held.contains(row) {
            let i = choose|i: int| 0 <= i < held.len() && held[i] == row;
            assert(order[count + i] == row);
        }
    }
    assert forall|row: usize| !(train.to_set().contains(row) && held.to_set().contains(row)) by {
        if train.contains(row) && held.contains(row) {
            let i = choose|i: int| 0 <= i < train.len() && train[i] == row;
            let j = choose|j: int| 0 <= j < held.len() && held[j] == row;
            assert(order[i] == row);
            assert(order[count + j] == row);
        }
    }
    assert forall|i: int, j: int| 0 <= i < train.len() && 0 <= j < train.len() && i != j implies train[i]
        != train[j] by {
        assert(train[i] == order[i]);
        assert(train[j] == order[j]);
    }
    assert forall|i: int, j: int| 0 <= i < held.len() && 0 <= j < held.len() && i != j implies held[i]
        != held[j] by {
        assert(held[i] == order[count + i]);
        assert(held[j] == order[count + j]);
    }
}

/// Splitting a table that has every required column keeps every row in its
/// place: the features and the target are as high as the table, row `row` of
/// feature `k` is row `row` of the column of that name, and row `row` of the
/// target is row `row` of the target column.
pub proof fn lemma_feature_split_keeps_rows<T>(table: TableView<T>)
    requires
        table.wf(),
        table.has_all(required_columns()),
    ensures
        ({
            let features = table.select(feature_spec());
            let target = table.select(seq![target_spec()]);
            &&& features.wf()
            &&& target.wf()
            &&& features.names() == feature_spec()
            &&& target.names() == seq![target_spec()]
            &&& features.height() == table.height()
            &&& target.height() == table.height()
            &&& forall|row: int, k: int|
                0 <= row < table.height() && 0 <= k < FEATURE_COUNT ==> #[trigger] features.cell(row, k)
                    == table.cell(row, table.index_of(feature_spec()[k]))
            &&& forall|row: int|
                0 <= row < table.height() ==> #[trigger] target.cell(row, 0) == table.cell(
                    row,
                    table.index_of(target_spec()),
                )
        }),
{
    lemma_feature_spec_distinct();
    let label = seq![target_spec()];
    assert forall|k: int| 0 <= k < feature_spec().len() implies table.has_column(
        #[trigger] feature_spec()[k],
    ) by {
        assert(required_columns()[k] == feature_spec()[k]);
    }
    assert forall|k: int| 0 <= k < label.len() implies table.has_column(#[trigger] label[k]) by {
        assert(required_columns()[FEATURE_COUNT as int] == target_spec());
    }
    lemma_select_wf(table, feature_spec());
    lemma_select_wf(table, label);
}

} // verus!
