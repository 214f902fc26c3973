use house_price_predictor::error::PipelineError;
use house_price_predictor::split::Fraction;
use house_price_predictor::table::{Column, Table};
use house_price_predictor::training::{training_input, training_input_by, training_set};

const NAMES: [&str; 14] = [
    "crim", "zn", "indus", "chas", "nox", "rm", "age", "dis", "rad", "tax", "ptratio", "b", "lstat",
    "medv",
];

fn share(numerator: u64, denominator: u64) -> Fraction {
    Fraction { numerator, denominator }
}

fn column(name: &str, values: &[f32]) -> Column<f32> {
    Column { name: name.to_string(), values: values.iter().map(|v| Some(*v)).collect() }
}

/// The cell in row `r` of the column at position `c` of `NAMES` is
/// `100 * c + r`; the target, at position 13, is `1300 + r`.
fn housing(rows: usize) -> Vec<Column<f32>> {
    NAMES
        .iter()
        .enumerate()
        .map(|(c, name)| Column {
            name: name.to_string(),
            values: (0..rows).map(|r| Some((100 * c + r) as f32)).collect(),
        })
        .collect()
}

fn feature_row(r: usize) -> Vec<f32> {
    (0..13).map(|c| (100 * c + r) as f32).collect()
}

#[test]
fn a_labelled_set_is_laid_out_row_by_row() {
    let features =
        Table::from_columns(vec![column("x", &[1.0, 2.0, 3.0]), column("y", &[4.0, 5.0, 6.0])])
            .unwrap();
    let target = Table::from_columns(vec![column("t", &[7.0, 8.0, 9.0])]).unwrap();
    let set = training_set(&features, &target).unwrap();
    assert_eq!(set.features().rows(), 3);
    assert_eq!(set.features().cols(), 2);
    assert_eq!(set.features().values(), &vec![1.0, 4.0, 2.0, 5.0, 3.0, 6.0]);
    assert_eq!(set.labels().rows(), 3);
    assert_eq!(set.labels().cols(), 1);
    assert_eq!(set.labels().values(), &vec![7.0, 8.0, 9.0]);
}

#[test]
fn a_missing_feature_cell_is_non_contiguous_data() {
    let features = Table::from_columns(vec![Column {
        name: "x".to_string(),
        values: vec![Some(1.0f32), None],
    }])
    .unwrap();
    let target = Table::from_columns(vec![column("t", &[7.0, 8.0])]).unwrap();
    assert_eq!(training_set(&features, &target), Err(PipelineError::NonContiguousData));
}

#[test]
fn a_missing_label_is_non_contiguous_data() {
    let features = Table::from_columns(vec![column("x", &[1.0, 2.0])]).unwrap();
    let target = Table::from_columns(vec![Column {
        name: "t".to_string(),
        values: vec![None, Some(8.0f32)],
    }])
    .unwrap();
    assert_eq!(training_set(&features, &target), Err(PipelineError::NonContiguousData));
}

#[test]
fn labels_must_match_the_features_row_for_row() {
    let features = Table::from_columns(vec![column("x", &[1.0, 2.0])]).unwrap();
    let short = Table::from_columns(vec![column("t", &[7.0])]).unwrap();
    let wide =
        Table::from_columns(vec![column("t", &[7.0, 8.0]), column("u", &[7.0, 8.0])]).unwrap();
    assert_eq!(training_set(&features, &short), Err(PipelineError::InvalidArgument));
    assert_eq!(training_set(&features, &wide), Err(PipelineError::InvalidArgument));
}

#[test]
fn the_input_follows_the_permutation() {
    let table = Table::from_columns(housing(5)).unwrap();
    let input = training_input_by(&table, &vec![3, 0, 4, 1, 2], share(2, 5)).unwrap();
    let mut train_features = Vec::new();
    for r in [3, 0, 4] {
        train_features.extend(feature_row(r));
    }
    let mut test_features = Vec::new();
    for r in [1, 2] {
        test_features.extend(feature_row(r));
    }
    assert_eq!(input.train.features().rows(), 3);
    assert_eq!(input.train.features().cols(), 13);
    assert_eq!(input.train.features().values(), &train_features);
    assert_eq!(input.train.labels().values(), &vec![1303.0, 1300.0, 1304.0]);
    assert_eq!(input.test.features().rows(), 2);
    assert_eq!(input.test.features().values(), &test_features);
    assert_eq!(input.test.labels().values(), &vec![1301.0, 1302.0]);
}

#[test]
fn the_input_does_not_depend_on_the_order_of_the_columns() {
    let mut columns = housing(5);
    columns.reverse();
    columns.push(column("extra", &[0.0, 0.0, 0.0, 0.0, 0.0]));
    let table = Table::from_columns(columns).unwrap();
    let plain = Table::from_columns(housing(5)).unwrap();
    let order = vec![4, 3, 2, 1, 0];
    assert_eq!(
        training_input_by(&table, &order, share(1, 5)),
        training_input_by(&plain, &order, share(1, 5))
    );
}

#[test]
fn a_random_input_keeps_features_and_labels_together() {
    let table = Table::from_columns(housing(40)).unwrap();
    let input = training_input(&table, share(1, 4)).unwrap();
    assert_eq!(input.train.features().rows(), 30);
    assert_eq!(input.test.features().rows(), 10);
    let mut seen = Vec::new();
    for set in [&input.train, &input.test] {
        for row in 0..set.features().rows() {
            let label = set.labels().get(row, 0).unwrap();
            let r = (label - 1300.0) as usize;
            seen.push(r);
            for c in 0..13 {
                assert_eq!(set.features().get(row, c), Some((100 * c + r) as f32));
            }
        }
    }
    seen.sort();
    assert_eq!(seen, (0..40).collect::<Vec<usize>>());
}

#[test]
fn an_empty_table_is_refused_before_anything_else() {
    let table = Table::from_columns(housing(0)).unwrap();
    assert_eq!(training_input(&table, share(1, 5)), Err(PipelineError::InvalidArgument));
    let bare: Table<f32> = Table::from_columns(Vec::new()).unwrap();
    assert_eq!(training_input(&bare, share(1, 5)), Err(PipelineError::InvalidArgument));
}

#[test]
fn an_improper_share_is_refused_before_anything_else() {
    let mut columns = housing(4);
    columns.pop();
    columns[0].values[0] = None;
    let table = Table::from_columns(columns).unwrap();
    assert_eq!(training_input(&table, share(5, 5)), Err(PipelineError::InvalidArgument));
    assert_eq!(
        training_input_by(&table, &vec![0, 1, 2, 2], share(1, 5)),
        Err(PipelineError::InvalidArgument)
    );
}

#[test]
fn a_missing_column_is_reported_before_missing_cells() {
    let mut columns = housing(4);
    columns.remove(9);
    columns[0].values[0] = None;
    let table = Table::from_columns(columns).unwrap();
    assert_eq!(
        training_input(&table, share(1, 4)),
        Err(PipelineError::MissingColumn("tax".to_string()))
    );
}

#[test]
fn a_missing_required_cell_is_non_contiguous_data_wherever_it_falls() {
    for row in 0..4 {
        for col in [0usize, 7, 13] {
            let mut columns = housing(4);
            columns[col].values[row] = None;
            let table = Table::from_columns(columns).unwrap();
            assert_eq!(
                training_input(&table, share(1, 4)),
                Err(PipelineError::NonContiguousData)
            );
        }
    }
}

#[test]
fn a_missing_cell_in_another_column_does_no_harm() {
    let mut columns = housing(4);
    columns.push(Column { name: "extra".to_string(), values: vec![None, None, None, None] });
    let table = Table::from_columns(columns).unwrap();
    assert!(training_input(&table, share(1, 4)).is_ok());
}
