//! The fixed feature specification: the thirteen input columns of the model,
//! in the order in which the model takes them, and the column it predicts.
//!
//! The order is the contract between training and serving: position `i` of a
//! feature vector built for a prediction holds the feature that column `i` of
//! the training matrix held.

use vstd::prelude::*;
use vstd::string::*;
use crate::table::pairwise_distinct;

verus! {

/// The number of features that the model takes.
pub const FEATURE_COUNT: usize = 13;

/// The names of the features, in model order.
pub open spec fn feature_spec() -> Seq<Seq<char>> {
    seq![
        "crim"@,
        "zn"@,
        "indus"@,
        "chas"@,
        "nox"@,
        "rm"@,
        "age"@,
        "dis"@,
        "rad"@,
        "tax"@,
        "ptratio"@,
        "b"@,
        "lstat"@,
    ]
}

/// The name of the column that the model predicts.
pub open spec fn target_spec() -> Seq<char> {
    "medv"@
}

/// The names of the features, in model order.
pub fn feature_names() -> (names: Vec<String>)
    ensures
        names.deep_view() == feature_spec(),
        names.len() == FEATURE_COUNT,
{
    let mut names: Vec<String> = Vec::new();
    names.push(String::from_str("crim"));
    names.push(String::from_str("zn"));
    names.push(String::from_str("indus"));
    names.push(String::from_str("chas"));
    names.push(String::from_str("nox"));
    names.push(String::from_str("rm"));
    names.push(String::from_str("age"));
    names.push(String::from_str("dis"));
    names.push(String::from_str("rad"));
    names.push(String::from_str("tax"));
    names.push(String::from_str("ptratio"));
    names.push(String::from_str("b"));
    names.push(String::from_str("lstat"));
    assert(names.deep_view() =~= feature_spec());
    names
}

/// The name of the column that the model predicts.
pub fn target_name() -> (name: String)
    ensures
        name@ == target_spec(),
{
    String::from_str("medv")
}

/// No feature is listed twice, and the target is not among the features.
pub proof fn lemma_feature_spec_distinct()
    ensures
        feature_spec().len() == FEATURE_COUNT,
        pairwise_distinct(feature_spec()),
        !feature_spec().contains(target_spec()),
        pairwise_distinct(feature_spec().push(target_spec())),
{
    reveal_strlit("crim");
    reveal_strlit("zn");
    reveal_strlit("indus");
    reveal_strlit("chas");
    reveal_strlit("nox");
    reveal_strlit("rm");
    reveal_strlit("age");
    reveal_strlit("dis");
    reveal_strlit("rad");
    reveal_strlit("tax");
    reveal_strlit("ptratio");
    reveal_strlit("b");
    reveal_strlit("lstat");
    reveal_strlit("medv");
    let all = feature_spec().push(target_spec());
    assert(all.len() == 14);
    assert forall|i: int, j: int| 0 <= i < j < all.len() implies #[trigger] all[i] != #[trigger] all[j] by {
        assert(all[i].len() != all[j].len() || all[i][0] != all[j][0] || all[i][1] != all[j][1]);
    }
    assert forall|i: int, j: int| 0 <= i < j < feature_spec().len() implies #[trigger] feature_spec()[i]
        != #[trigger] feature_spec()[j] by {
        assert(feature_spec()[i] == all[i]);
        assert(feature_spec()[j] == all[j]);
    }
    if feature_spec().contains(target_spec()) {
        let i = choose|i: int| 0 <= i < feature_spec().len() && feature_spec()[i] == target_spec();
        assert(all[i] == feature_spec()[i]);
        assert(all[13] == target_spec());
    }
}

} // verus!
