use house_price_predictor::error::PipelineError;
use house_price_predictor::features::{feature_names, target_name};
use house_price_predictor::split::{
    shuffled_rows, split_features_and_target, split_order, train_test_split, train_test_split_by,
    training_rows, Fraction, RowSplit,
};
use house_price_predictor::table::{Column, Table};

const FEATURES: [&str; 13] = [
    "crim", "zn", "indus", "chas", "nox", "rm", "age", "dis", "rad", "tax", "ptratio", "b", "lstat",
];

fn share(numerator: u64, denominator: u64) -> Fraction {
    Fraction { numerator, denominator }
}

fn numbered(rows: usize) -> Table<f64> {
    let ids: Vec<Option<f64>> = (0..rows).map(|r| Some(r as f64)).collect();
    let doubled: Vec<Option<f64>> = (0..rows).map(|r| Some(2.0 * r as f64)).collect();
    Table::from_columns(vec![
        Column { name: "id".to_string(), values: ids },
        Column { name: "twice".to_string(), values: doubled },
    ])
    .unwrap()
}

/// A table with every required column; the cell in row `r` of the column at
/// position `c` of the list `names` is `100 * c + r`.
fn housing(names: &[&str], rows: usize) -> Table<f64> {
    let columns = names
        .iter()
        .enumerate()
        .map(|(c, name)| Column {
            name: name.to_string(),
            values: (0..rows).map(|r| Some((100 * c + r) as f64)).collect(),
        })
        .collect();
    Table::from_columns(columns).unwrap()
}

fn all_names() -> Vec<&'static str> {
    let mut names: Vec<&'static str> = FEATURES.to_vec();
    names.push("medv");
    names
}

fn ids(table: &Table<f64>) -> Vec<usize> {
    table.columns()[0].values.iter().map(|v| v.unwrap() as usize).collect()
}

#[test]
fn the_feature_specification_is_fixed() {
    let names: Vec<String> = FEATURES.iter().map(|n| n.to_string()).collect();
    assert_eq!(feature_names(), names);
    assert_eq!(target_name(), "medv");
}

#[test]
fn training_rows_is_the_ceiling_of_the_kept_share() {
    assert_eq!(training_rows(506, share(1, 5)), Ok(405));
    assert_eq!(training_rows(10, share(1, 4)), Ok(8));
    assert_eq!(training_rows(10, share(1, 5)), Ok(8));
    assert_eq!(training_rows(3, share(1, 3)), Ok(2));
    assert_eq!(training_rows(7, share(1, 2)), Ok(4));
    assert_eq!(training_rows(100, share(99, 100)), Ok(1));
}

#[test]
fn training_rows_keeps_a_single_row_for_training() {
    assert_eq!(training_rows(1, share(1, 2)), Ok(1));
    assert_eq!(training_rows(1, share(999, 1000)), Ok(1));
}

#[test]
fn training_rows_copes_with_the_largest_numbers() {
    assert_eq!(training_rows(usize::MAX, share(1, u64::MAX)), Ok(usize::MAX - 1));
    assert_eq!(training_rows(usize::MAX, share(1, 2)), Ok(usize::MAX / 2 + 1));
    assert_eq!(training_rows(usize::MAX, share(u64::MAX - 1, u64::MAX)), Ok(1));
}

#[test]
fn training_rows_rejects_a_share_outside_the_open_unit_interval() {
    assert_eq!(training_rows(10, share(0, 5)), Err(PipelineError::InvalidArgument));
    assert_eq!(training_rows(10, share(5, 5)), Err(PipelineError::InvalidArgument));
    assert_eq!(training_rows(10, share(6, 5)), Err(PipelineError::InvalidArgument));
    assert_eq!(training_rows(10, share(1, 0)), Err(PipelineError::InvalidArgument));
    assert_eq!(training_rows(10, share(0, 0)), Err(PipelineError::InvalidArgument));
}

#[test]
fn training_rows_rejects_an_empty_table() {
    assert_eq!(training_rows(0, share(1, 5)), Err(PipelineError::InvalidArgument));
}

#[test]
fn a_fraction_is_proper_strictly_between_zero_and_one() {
    assert!(share(1, 5).proper());
    assert!(share(4, 5).proper());
    assert!(!share(0, 5).proper());
    assert!(!share(5, 5).proper());
    assert!(!share(1, 0).proper());
}

#[test]
fn split_order_cuts_the_permutation_at_the_training_count() {
    let split = split_order(&vec![2, 0, 3, 1, 4], share(2, 5)).unwrap();
    assert_eq!(split, RowSplit { train: vec![2, 0, 3], test: vec![1, 4] });
}

#[test]
fn split_order_may_leave_the_test_set_empty() {
    let split = split_order(&vec![0], share(1, 2)).unwrap();
    assert_eq!(split, RowSplit { train: vec![0], test: vec![] });
}

#[test]
fn split_order_rejects_what_is_no_permutation() {
    assert_eq!(split_order(&vec![0, 1, 1], share(1, 3)), Err(PipelineError::InvalidArgument));
    assert_eq!(split_order(&vec![0, 1, 3], share(1, 3)), Err(PipelineError::InvalidArgument));
    assert_eq!(split_order(&vec![1, 2, 3], share(1, 3)), Err(PipelineError::InvalidArgument));
    assert_eq!(split_order(&Vec::new(), share(1, 3)), Err(PipelineError::InvalidArgument));
}

#[test]
fn split_order_rejects_an_improper_share() {
    assert_eq!(split_order(&vec![0, 1, 2], share(3, 3)), Err(PipelineError::InvalidArgument));
    assert_eq!(split_order(&vec![0, 1, 2], share(0, 3)), Err(PipelineError::InvalidArgument));
}

#[test]
fn shuffled_rows_is_a_permutation() {
    let order = shuffled_rows(500);
    let mut sorted = order.clone();
    sorted.sort();
    assert_eq!(sorted, (0..500).collect::<Vec<usize>>());
}

#[test]
fn shuffled_rows_are_not_left_in_rising_order() {
    let identity: Vec<usize> = (0..500).collect();
    assert_ne!(shuffled_rows(500), identity);
}

#[test]
fn shuffled_rows_differ_from_call_to_call() {
    assert_ne!(shuffled_rows(500), shuffled_rows(500));
}

#[test]
fn shuffled_rows_of_nothing_is_empty() {
    assert!(shuffled_rows(0).is_empty());
}

#[test]
fn train_test_split_by_follows_the_permutation() {
    let (train, test) = train_test_split_by(&numbered(5), &vec![4, 2, 0, 1, 3], share(2, 5)).unwrap();
    assert_eq!(ids(&train), vec![4, 2, 0]);
    assert_eq!(ids(&test), vec![1, 3]);
    assert_eq!(train.columns()[1].values, vec![Some(8.0), Some(4.0), Some(0.0)]);
    assert_eq!(test.columns()[1].values, vec![Some(2.0), Some(6.0)]);
}

#[test]
fn train_test_split_by_rejects_an_order_of_another_length() {
    let result = train_test_split_by(&numbered(5), &vec![0, 1, 2], share(2, 5));
    assert_eq!(result, Err(PipelineError::InvalidArgument));
}

#[test]
fn train_test_split_gives_disjoint_sets_that_cover_every_row() {
    let (train, test) = train_test_split(&numbered(506), share(1, 5)).unwrap();
    assert_eq!(train.height(), 405);
    assert_eq!(test.height(), 101);
    let mut all = ids(&train);
    all.extend(ids(&test));
    all.sort();
    assert_eq!(all, (0..506).collect::<Vec<usize>>());
}

#[test]
fn train_test_split_keeps_each_row_whole() {
    let (train, test) = train_test_split(&numbered(50), share(3, 10)).unwrap();
    for part in [&train, &test] {
        for row in 0..part.height() {
            let id = part.columns()[0].values[row].unwrap();
            assert_eq!(part.columns()[1].values[row], Some(2.0 * id));
        }
    }
}

#[test]
fn the_test_set_has_the_ceiling_of_its_share_where_that_is_whole() {
    let (train, test) = train_test_split(&numbered(20), share(1, 4)).unwrap();
    assert_eq!(test.height(), 5);
    assert_eq!(train.height(), 15);
}

#[test]
fn the_test_set_has_the_whole_part_of_its_share_otherwise() {
    let (train, test) = train_test_split(&numbered(10), share(1, 4)).unwrap();
    assert_eq!(train.height(), 8);
    assert_eq!(test.height(), 2);
}

#[test]
fn train_test_split_rejects_an_empty_table() {
    assert_eq!(train_test_split(&numbered(0), share(1, 5)), Err(PipelineError::InvalidArgument));
    let bare: Table<f64> = Table::from_columns(Vec::new()).unwrap();
    assert_eq!(train_test_split(&bare, share(1, 5)), Err(PipelineError::InvalidArgument));
}

#[test]
fn train_test_split_rejects_an_improper_share() {
    assert_eq!(train_test_split(&numbered(10), share(0, 1)), Err(PipelineError::InvalidArgument));
    assert_eq!(train_test_split(&numbered(10), share(1, 1)), Err(PipelineError::InvalidArgument));
    assert_eq!(train_test_split(&numbered(10), share(3, 2)), Err(PipelineError::InvalidArgument));
}

#[test]
fn features_come_out_in_model_order() {
    let mut scrambled = all_names();
    scrambled.reverse();
    let table = housing(&scrambled, 4);
    let (features, target) = split_features_and_target(&table).unwrap();
    let got: Vec<&str> = features.columns().iter().map(|c| c.name.as_str()).collect();
    assert_eq!(got, FEATURES.to_vec());
    assert_eq!(target.width(), 1);
    assert_eq!(target.columns()[0].name, "medv");
}

#[test]
fn features_and_target_keep_every_row_in_place() {
    let mut scrambled = all_names();
    scrambled.reverse();
    let table = housing(&scrambled, 4);
    let (features, target) = split_features_and_target(&table).unwrap();
    assert_eq!(features.height(), 4);
    assert_eq!(target.height(), 4);
    for (k, name) in FEATURES.iter().enumerate() {
        let source = table.column_index(name).unwrap();
        assert_eq!(features.columns()[k].values, table.columns()[source].values);
    }
    assert_eq!(target.columns()[0].values, table.columns()[0].values);
    assert_eq!(target.columns()[0].values, vec![Some(0.0), Some(1.0), Some(2.0), Some(3.0)]);
}

#[test]
fn other_columns_are_left_out() {
    let mut names = all_names();
    names.insert(3, "extra");
    let (features, target) = split_features_and_target(&housing(&names, 2)).unwrap();
    assert_eq!(features.width(), 13);
    assert_eq!(target.width(), 1);
    assert_eq!(features.column_index("extra"), None);
}

#[test]
fn each_missing_column_is_named() {
    for missing in all_names() {
        let names: Vec<&str> = all_names().into_iter().filter(|n| *n != missing).collect();
        let result = split_features_and_target(&housing(&names, 3));
        assert_eq!(result, Err(PipelineError::MissingColumn(missing.to_string())));
    }
}

#[test]
fn the_first_missing_column_in_model_order_is_named() {
    let names: Vec<&str> =
        all_names().into_iter().filter(|n| *n != "tax" && *n != "rm" && *n != "medv").collect();
    let result = split_features_and_target(&housing(&names, 3));
    assert_eq!(result, Err(PipelineError::MissingColumn("rm".to_string())));
}

#[test]
fn a_table_without_columns_misses_the_first_feature() {
    let bare: Table<f64> = Table::from_columns(Vec::new()).unwrap();
    let result = split_features_and_target(&bare);
    assert_eq!(result, Err(PipelineError::MissingColumn("crim".to_string())));
}
