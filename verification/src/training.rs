//! From a table to the input of the training engine: the rows split into a
//! training and a test set, each set split into features and target, and each
//! of the four laid out densely.

use vstd::prelude::*;
use crate::dense::{lemma_row_major_at, DenseMatrix, DenseView};
use crate::error::PipelineError;
use crate::features::{feature_spec, lemma_feature_spec_distinct, target_spec, FEATURE_COUNT};
use crate::split::{
    is_permutation, lemma_feature_split_keeps_rows, lemma_permutation_covers, lemma_test_count,
    required_columns, shuffled_rows, split_features_and_target, train_count, train_test_split_by,
    Fraction,
};
use crate::table::{lemma_take_rows, Table, TableView};

verus! {

/// The mathematical content of a labelled set: a dense matrix of features and,
/// for each of its rows, one label.
pub struct TrainingSetView<T> {
    pub features: DenseView<T>,
    pub labels: DenseView<T>,
}

impl<T> TrainingSetView<T> {
    /// There is one label for each row of features.
    pub open spec fn wf(self) -> bool {
        &&& self.features.wf()
        &&& self.labels.wf()
        &&& self.labels.cols == 1
        &&& self.labels.rows == self.features.rows
    }
}

/// Why a table of features and a table of targets do not make a labelled set,
/// if they do not: a cell is missing in one of them, or the targets are not
/// one column with one row for each row of features.
pub open spec fn labelling_problem<T>(features: TableView<T>, target: TableView<T>) -> Option<
    PipelineError,
> {
    if !features.is_dense() || !target.is_dense() {
        Some(PipelineError::NonContiguousData)
    } else if target.width() != 1 || target.height() != features.height() {
        Some(PipelineError::InvalidArgument)
    } else {
        None
    }
}

/// The labelled set that a table of features and a table of targets make.
pub open spec fn labelled<T>(features: TableView<T>, target: TableView<T>) -> TrainingSetView<T> {
    TrainingSetView { features: features.dense(), labels: target.dense() }
}

/// Features and labels in the dense layout that the training engine takes.
#[derive(Debug, PartialEq)]
pub struct TrainingSet<T> {
    features: DenseMatrix<T>,
    labels: DenseMatrix<T>,
}

impl<T> View for TrainingSet<T> {
    type V = TrainingSetView<T>;

    closed spec fn view(&self) -> TrainingSetView<T> {
        TrainingSetView { features: self.features@, labels: self.labels@ }
    }
}

impl<T> TrainingSet<T> {
    #[verifier::type_invariant]
    spec fn well_formed(&self) -> bool {
        self@.wf()
    }

    /// The features, one row for each example.
    pub fn features(&self) -> (features: &DenseMatrix<T>)
        ensures
            features@ == self@.features,
            self@.wf(),
    {
        proof {
            use_type_invariant(self);
        }
        &self.features
    }

    /// The labels, a single column with one row for each example.
    pub fn labels(&self) -> (labels: &DenseMatrix<T>)
        ensures
            labels@ == self@.labels,
            self@.wf(),
    {
        proof {
            use_type_invariant(self);
        }
        &self.labels
    }
}

impl<T: Copy> Clone for TrainingSet<T> {
    /// A set with the same features and labels.
    fn clone(&self) -> (copy: Self)
        ensures
            copy@ == self@,
    {
        proof {
            use_type_invariant(self);
        }
        TrainingSet { features: self.features.clone(), labels: self.labels.clone() }
    }
}

/// Lays a table of features and a table of targets out as a labelled set.
/// Neither may have a missing cell, and the targets must be a single column
/// as high as the features.
pub fn training_set<T: Copy>(features: &Table<T>, target: &Table<T>) -> (result: Result<
    TrainingSet<T>,
    PipelineError,
>)
    ensures
        match result {
            Ok(set) => {
                &&& labelling_problem(features@, target@) is None
                &&& set@ == labelled(features@, target@)
            },
            Err(error) => labelling_problem(features@, target@) == Some(error),
        },
{
    let x = match features.to_dense() {
        Ok(x) => x,
        Err(error) => {
            return Err(error);
        },
    };
    let y = match target.to_dense() {
        Ok(y) => y,
        Err(error) => {
            return Err(error);
        },
    };
    if y.cols() != 1 || y.rows() != x.rows() {
        return Err(PipelineError::InvalidArgument);
    }
    Ok(TrainingSet { features: x, labels: y })
}

/// The mathematical content of the input of a training run.
pub struct TrainingInputView<T> {
    pub train: TrainingSetView<T>,
    pub test: TrainingSetView<T>,
}

/// The input of a training run: the set to fit the model to, and the set to
/// evaluate it on.
#[derive(Debug, PartialEq)]
pub struct TrainingInput<T> {
    pub train: TrainingSet<T>,
    pub test: TrainingSet<T>,
}

impl<T> View for TrainingInput<T> {
    type V = TrainingInputView<T>;

    open spec fn view(&self) -> TrainingInputView<T> {
        TrainingInputView { train: self.train@, test: self.test@ }
    }
}

impl<T: Copy> Clone for TrainingInput<T> {
    /// An input with the same training and test sets.
    fn clone(&self) -> (copy: Self)
        ensures
            copy@ == self@,
    {
        TrainingInput { train: self.train.clone(), test: self.test.clone() }
    }
}

/// The labelled set made of the rows `rows` of a table: their features in
/// model order, and their targets.
pub open spec fn labelled_rows<T>(table: TableView<T>, rows: Seq<usize>) -> TrainingSetView<T> {
    let part = table.take_rows(rows);
    labelled(part.select(feature_spec()), part.select(seq![target_spec()]))
}

/// The training input made from a table along a permutation of its rows: the
/// first `train_count` rows of the permutation to train on, the others to
/// test on.
pub open spec fn input_along<T>(table: TableView<T>, order: Seq<usize>, test: Fraction) -> TrainingInputView<
    T,
> {
    let count = train_count(table.height(), test);
    TrainingInputView {
        train: labelled_rows(table, order.take(count)),
        test: labelled_rows(table, order.skip(count)),
    }
}

/// In the rows `rows`, no cell of a required column is missing.
pub open spec fn dense_on<T>(table: TableView<T>, rows: Seq<usize>) -> bool {
    forall|i: int, k: int|
        0 <= i < rows.len() && 0 <= k < required_columns().len() ==> (#[trigger] table.cell(
            rows[i] as int,
            table.index_of(required_columns()[k]),
        )) is Some
}

/// No cell of a required column is missing.
pub open spec fn required_dense<T>(table: TableView<T>) -> bool {
    forall|row: int, k: int|
        0 <= row < table.height() && 0 <= k < required_columns().len() ==> (#[trigger] table.cell(
            row,
            table.index_of(required_columns()[k]),
        )) is Some
}

/// The rows `rows` of a table that has every required column make a labelled
/// set exactly if none of their required cells is missing.
pub proof fn lemma_labelled_rows<T>(table: TableView<T>, rows: Seq<usize>)
    requires
        table.wf(),
        table.rows_in_range(rows),
        table.has_all(required_columns()),
    ensures
        ({
            let part = table.take_rows(rows);
            labelling_problem(part.select(feature_spec()), part.select(seq![target_spec()])) == if dense_on(
                table,
                rows,
            ) {
                None
            } else {
                Some(PipelineError::NonContiguousData)
            }
        }),
{
    let part = table.take_rows(rows);
    let features = part.select(feature_spec());
    let target = part.select(seq![target_spec()]);
    let required = required_columns();
    lemma_feature_spec_distinct();
    lemma_take_rows(table, rows);
    assert forall|k: int| 0 <= k < required.len() implies part.has_column(#[trigger] required[k]) by {
        assert(table.has_column(required[k]));
    }
    lemma_feature_split_keeps_rows(part);
    assert(table.has_column(required[0]));
    assert(table.width() > 0);
    assert(features.height() == rows.len());
    assert(target.height() == rows.len());
    assert(target.width() == 1);
    assert forall|k: int| 0 <= k < required.len() implies 0 <= #[trigger] table.index_of(required[k])
        < table.width() && part.index_of(required[k]) == table.index_of(required[k]) by {
        assert(table.has_column(required[k]));
        assert(table.names_column(required[k], table.index_of(required[k])));
    }
    if dense_on(table, rows) {
        assert forall|r: int, c: int|
            0 <= r < features.height() && 0 <= c < features.width() implies (#[trigger] features.cell(
            r,
            c,
        )) is Some by {
            assert(required[c] == feature_spec()[c]);
            let at = table.index_of(required[c]);
            assert(part.cell(r, at) == table.cell(rows[r] as int, at));
        }
        assert forall|r: int, c: int|
            0 <= r < target.height() && 0 <= c < target.width() implies (#[trigger] target.cell(r, c)) is Some by {
            assert(required[FEATURE_COUNT as int] == target_spec());
            let at = table.index_of(required[FEATURE_COUNT as int]);
            assert(part.cell(r, at) == table.cell(rows[r] as int, at));
        }
    } else {
        let (i, k) = choose|i: int, k: int|
            0 <= i < rows.len() && 0 <= k < required.len() && !((#[trigger] table.cell(
                rows[i] as int,
                table.index_of(required[k]),
            )) is Some);
        let at = table.index_of(required[k]);
        assert(part.cell(i, at) == table.cell(rows[i] as int, at));
        if k < FEATURE_COUNT {
            assert(required[k] == feature_spec()[k]);
            assert(features.cell(i, k) is None);
        } else {
            assert(required[k] == target_spec());
            assert(target.cell(i, 0) is None);
        }
    }
}

/// In the labelled set made of the rows `rows`, column `k` of the features is
/// feature `k` of the model, and row `i` holds the values of row `rows[i]` of
/// the table: its features, and in the labels its target.
pub proof fn lemma_labelled_cells<T>(table: TableView<T>, rows: Seq<usize>, i: int, k: int)
    requires
        table.wf(),
        table.rows_in_range(rows),
        table.has_all(required_columns()),
        dense_on(table, rows),
        0 <= i < rows.len(),
        0 <= k < FEATURE_COUNT,
    ensures
        labelled_rows(table, rows).wf(),
        labelled_rows(table, rows).features.rows == rows.len(),
        labelled_rows(table, rows).features.cols == FEATURE_COUNT,
        Some(labelled_rows(table, rows).features.at(i, k)) == table.cell(
            rows[i] as int,
            table.index_of(feature_spec()[k]),
        ),
        Some(labelled_rows(table, rows).labels.at(i, 0)) == table.cell(
            rows[i] as int,
            table.index_of(target_spec()),
        ),
{
    let part = table.take_rows(rows);
    let features = part.select(feature_spec());
    let target = part.select(seq![target_spec()]);
    let required = required_columns();
    lemma_feature_spec_distinct();
    lemma_take_rows(table, rows);
    lemma_labelled_rows(table, rows);
    assert forall|j: int| 0 <= j < required.len() implies part.has_column(#[trigger] required[j]) by {
        assert(table.has_column(required[j]));
    }
    lemma_feature_split_keeps_rows(part);
    assert(table.has_column(required[0]));
    assert(table.width() > 0);
    lemma_row_major_at(features, i, k);
    lemma_row_major_at(target, i, 0);
    assert(required[k] == feature_spec()[k]);
    assert(required[FEATURE_COUNT as int] == target_spec());
    let feature_at = table.index_of(required[k]);
    let target_at = table.index_of(required[FEATURE_COUNT as int]);
    assert(table.has_column(required[k]));
    assert(table.has_column(required[FEATURE_COUNT as int]));
    assert(table.names_column(required[k], feature_at));
    assert(table.names_column(required[FEATURE_COUNT as int], target_at));
    assert(part.cell(i, feature_at) == table.cell(rows[i] as int, feature_at));
    assert(part.cell(i, target_at) == table.cell(rows[i] as int, target_at));
    assert(features.cell(i, k) is Some);
    assert(target.cell(i, 0) is Some);
}

/// Along a permutation of the rows, no required cell of the table is missing
/// exactly if none is missing in the rows before the cut and none in the rows
/// after it.
pub proof fn lemma_dense_on_both_sides<T>(table: TableView<T>, order: Seq<usize>, count: int)
    requires
        table.height() <= usize::MAX,
        is_permutation(order, table.height()),
        0 <= count <= table.height(),
    ensures
        required_dense(table) <==> dense_on(table, order.take(count)) && dense_on(
            table,
            order.skip(count),
        ),
{
    let required = required_columns();
    let first = order.take(count);
    let second = order.skip(count);
    lemma_permutation_covers(order, table.height());
    if required_dense(table) {
        assert forall|i: int, k: int| 0 <= i < first.len() && 0 <= k < required.len() implies (
        #[trigger] table.cell(first[i] as int, table.index_of(required[k]))) is Some by {
            assert(first[i] == order[i]);
        }
        assert forall|i: int, k: int| 0 <= i < second.len() && 0 <= k < required.len() implies (
        #[trigger] table.cell(second[i] as int, table.index_of(required[k]))) is Some by {
            assert(second[i] == order[count + i]);
        }
    }
    if dense_on(table, first) && dense_on(table, second) {
        assert forall|row: int, k: int| 0 <= row < table.height() && 0 <= k < required.len() implies (
        #[trigger] table.cell(row, table.index_of(required[k]))) is Some by {
            assert(order.contains(row as usize));
            let i = choose|i: int| 0 <= i < order.len() && order[i] == row as usize;
            if i < count {
                assert(first[i] == order[i]);
                assert(table.cell(first[i] as int, table.index_of(required[k])) is Some);
            } else {
                assert(second[i - count] == order[i]);
                assert(table.cell(second[i - count] as int, table.index_of(required[k])) is Some);
            }
        }
    }
}

/// Makes the input of a training run from a table along a given permutation
/// `order` of its rows: the rows are split as `train_test_split_by` splits
/// them, each part is split into features and target, and each of the four
/// tables is laid out densely.
///
/// The first failure is reported: an invalid argument where the table has no
/// row, `order` is no permutation of its rows or the test share does not lie
/// strictly between zero and one; else the first required column that is
/// missing; else non-contiguous data where a cell of a required column is
/// missing.
pub fn training_input_by<T: Copy>(table: &Table<T>, order: &Vec<usize>, test: Fraction) -> (result:
    Result<TrainingInput<T>, PipelineError>)
    ensures
        match result {
            Ok(input) => {
                &&& test.is_proper()
                &&& table@.height() > 0
                &&& is_permutation(order@, table@.height())
                &&& table@.has_all(required_columns())
                &&& required_dense(table@)
                &&& input@ == input_along(table@, order@, test)
            },
            Err(PipelineError::InvalidArgument) => !(test.is_proper() && table@.height() > 0
                && is_permutation(order@, table@.height())),
            Err(PipelineError::MissingColumn(name)) => {
                &&& test.is_proper()
                &&& table@.height() > 0
                &&& is_permutation(order@, table@.height())
                &&& exists|k: int|
                    table@.first_missing_at(required_columns(), k) && name@ == required_columns()[k]
            },
            Err(PipelineError::NonContiguousData) => {
                &&& test.is_proper()
                &&& table@.height() > 0
                &&& is_permutation(order@, table@.height())
                &&& table@.has_all(required_columns())
                &&& !required_dense(table@)
            },
            Err(_) => false,
        },
{
    let rows = table.height();
    let (train, held) = match train_test_split_by(table, order, test) {
        Ok(parts) => parts,
        Err(error) => {
            return Err(error);
        },
    };
    let ghost count = train_count(table@.height(), test);
    let ghost first = order@.take(count);
    let ghost second = order@.skip(count);
    proof {
        lemma_test_count(table@.height(), test);
        assert forall|i: int| 0 <= i < first.len() implies (#[trigger] first[i]) < table@.height() by {
            assert(first[i] == order@[i]);
        }
        assert forall|i: int| 0 <= i < second.len() implies (#[trigger] second[i]) < table@.height() by {
            assert(second[i] == order@[count + i]);
        }
        lemma_take_rows(table@, first);
        lemma_take_rows(table@, second);
    }
    let (x_train, y_train) = match split_features_and_target(&train) {
        Ok(parts) => parts,
        Err(error) => {
            proof {
                let k = choose|k: int|
                    train@.first_missing_at(required_columns(), k) && error->MissingColumn_0@
                        == required_columns()[k];
                assert forall|j: int| 0 <= j < k implies table@.has_column(
                    #[trigger] required_columns().take(k)[j],
                ) by {
                    assert(train@.has_column(required_columns().take(k)[j]));
                }
                assert(table@.first_missing_at(required_columns(), k));
            }
            return Err(error);
        },
    };
    proof {
        assert forall|k: int| 0 <= k < required_columns().len() implies table@.has_column(
            #[trigger] required_columns()[k],
        ) by {
            assert(train@.has_column(required_columns()[k]));
        }
        assert forall|k: int| 0 <= k < required_columns().len() implies held@.has_column(
            #[trigger] required_columns()[k],
        ) by {
            assert(table@.has_column(required_columns()[k]));
        }
    }
    let (x_test, y_test) = match split_features_and_target(&held) {
        Ok(parts) => parts,
        Err(error) => {
            proof {
                let k = choose|k: int|
                    held@.first_missing_at(required_columns(), k) && error->MissingColumn_0@
                        == required_columns()[k];
                assert(held@.has_column(required_columns()[k]));
            }
            return Err(error);
        },
    };
    proof {
        lemma_labelled_rows(table@, first);
        lemma_labelled_rows(table@, second);
        lemma_dense_on_both_sides(table@, order@, count);
    }
    let train_set = match training_set(&x_train, &y_train) {
        Ok(set) => set,
        Err(error) => {
            return Err(error);
        },
    };
    let test_set = match training_set(&x_test, &y_test) {
        Ok(set) => set,
        Err(error) => {
            return Err(error);
        },
    };
    Ok(TrainingInput { train: train_set, test: test_set })
}

/// Makes the input of a training run from a table, splitting its rows at
/// random. Two calls need not give the same split; what is reported where the
/// input cannot be made does not depend on the split.
pub fn training_input<T: Copy>(table: &Table<T>, test: Fraction) -> (result: Result<
    TrainingInput<T>,
    PipelineError,
>)
    ensures
        match result {
            Ok(input) => {
                &&& test.is_proper()
                &&& table@.height() > 0
                &&& table@.has_all(required_columns())
                &&& required_dense(table@)
                &&& exists|order: Seq<usize>|
                    is_permutation(order, table@.height()) && input@ == #[trigger] input_along(
                        table@,
                        order,
                        test,
                    )
            },
            Err(PipelineError::InvalidArgument) => !(test.is_proper() && table@.height() > 0),
            Err(PipelineError::MissingColumn(name)) => {
                &&& test.is_proper()
                &&& table@.height() > 0
                &&& exists|k: int|
                    table@.first_missing_at(required_columns(), k) && name@ == required_columns()[k]
            },
            Err(PipelineError::NonContiguousData) => {
                &&& test.is_proper()
                &&& table@.height() > 0
                &&& table@.has_all(required_columns())
                &&& !required_dense(table@)
            },
            Err(_) => false,
        },
{
    let rows = table.height();
    if !test.proper() || rows == 0 {
        return Err(PipelineError::InvalidArgument);
    }
    let order = shuffled_rows(rows);
    training_input_by(table, &order, test)
}

} // verus!
