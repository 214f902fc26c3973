//! The serving side: validation of a prediction request, assembly of the
//! feature vector in model order, and the state machine of the service that
//! holds the loaded model.
//!
//! The model itself is opaque here. The service is generic in its type, and
//! hands out a decision for each request; whoever owns the inference engine
//! carries the decision out.

use vstd::prelude::*;
use vstd::string::*;
use crate::error::{FieldProblem, PipelineError};
use crate::features::{feature_names, feature_spec, FEATURE_COUNT};
use crate::table::copied;

verus! {

/// The mathematical content of one field of a request.
pub struct RawFieldView<T> {
    pub name: Seq<char>,
    pub value: Option<T>,
}

/// One field of a prediction request as it arrived: its name, and its value
/// where the value is a number.
#[derive(Debug, Clone, PartialEq)]
pub struct RawField<T> {
    pub name: String,
    pub value: Option<T>,
}

impl<T> View for RawField<T> {
    type V = RawFieldView<T>;

    open spec fn view(&self) -> RawFieldView<T> {
        RawFieldView { name: self.name@, value: self.value }
    }
}

/// A prediction request as it arrived: its fields in the order of arrival.
#[derive(Debug, Clone, PartialEq)]
pub struct RawFeatures<T> {
    pub fields: Vec<RawField<T>>,
}

impl<T> View for RawFeatures<T> {
    type V = Seq<RawFieldView<T>>;

    open spec fn view(&self) -> Seq<RawFieldView<T>> {
        Seq::new(self.fields@.len(), |i: int| self.fields@[i]@)
    }
}

/// Field `i` of the request carries the name `name`.
pub open spec fn supplies<T>(fields: Seq<RawFieldView<T>>, name: Seq<char>, i: int) -> bool {
    0 <= i < fields.len() && fields[i].name == name
}

/// The position of a field named `name` in the request, where there is one.
pub open spec fn position_of<T>(fields: Seq<RawFieldView<T>>, name: Seq<char>) -> int {
    choose|i: int| supplies(fields, name, i)
}

/// What is wrong with the field `name` of a request, if anything: it is
/// missing, it occurs more than once, or its one occurrence is not a number.
pub open spec fn problem_with<T>(fields: Seq<RawFieldView<T>>, name: Seq<char>) -> Option<
    FieldProblem,
> {
    if !(exists|i: int| supplies(fields, name, i)) {
        Some(FieldProblem::Missing)
    } else if exists|i: int, j: int| i != j && supplies(fields, name, i) && supplies(fields, name, j) {
        Some(FieldProblem::Duplicated)
    } else if fields[position_of(fields, name)].value is None {
        Some(FieldProblem::NotNumeric)
    } else {
        None
    }
}

/// Feature `k` is the first feature, in model order, that the request does not
/// supply properly.
pub open spec fn first_problem_at<T>(fields: Seq<RawFieldView<T>>, k: int) -> bool {
    &&& 0 <= k < feature_spec().len()
    &&& problem_with(fields, feature_spec()[k]) is Some
    &&& forall|j: int| 0 <= j < k ==> problem_with(fields, #[trigger] feature_spec()[j]) is None
}

/// The request supplies every feature properly.
pub open spec fn is_complete<T>(fields: Seq<RawFieldView<T>>) -> bool {
    forall|k: int|
        0 <= k < feature_spec().len() ==> problem_with(fields, #[trigger] feature_spec()[k]) is None
}

/// The feature vector of a complete request: position `k` holds the value of
/// the field named like feature `k`, wherever that field stood in the request.
pub open spec fn assembled<T>(fields: Seq<RawFieldView<T>>) -> Seq<T> {
    Seq::new(
        feature_spec().len(),
        |k: int| fields[position_of(fields, feature_spec()[k])].value->0,
    )
}

/// In the feature vector of a complete request, each position holds the value
/// of the field that carries the name of that feature, wherever the field
/// stands in the request.
pub proof fn lemma_assembled_by_name<T>(fields: Seq<RawFieldView<T>>, k: int, i: int)
    requires
        is_complete(fields),
        0 <= k < feature_spec().len(),
        supplies(fields, feature_spec()[k], i),
    ensures
        fields[i].value == Some(assembled(fields)[k]),
{
    let name = feature_spec()[k];
    let at = position_of(fields, name);
    assert(problem_with(fields, name) is None);
    assert(supplies(fields, name, at));
    if at != i {
        assert(at != i && supplies(fields, name, at) && supplies(fields, name, i));
    }
}

/// The values of the features of one request, in model order.
#[derive(Debug, PartialEq)]
pub struct FeatureVector<T> {
    values: Vec<T>,
}

impl<T> View for FeatureVector<T> {
    type V = Seq<T>;

    closed spec fn view(&self) -> Seq<T> {
        self.values@
    }
}

impl<T> FeatureVector<T> {
    #[verifier::type_invariant]
    spec fn well_formed(&self) -> bool {
        self.values@.len() == FEATURE_COUNT
    }

    /// The values in model order, one for each feature.
    pub fn values(&self) -> (values: &Vec<T>)
        ensures
            values@ == self@,
            values@.len() == FEATURE_COUNT,
    {
        proof {
            use_type_invariant(self);
        }
        &self.values
    }
}

impl<T: Copy> Clone for FeatureVector<T> {
    /// A vector with the same values.
    fn clone(&self) -> (copy: Self)
        ensures
            copy@ == self@,
    {
        proof {
            use_type_invariant(self);
        }
        FeatureVector { values: copied(&self.values) }
    }
}

/// Looks the field `name` up in a request.
fn find_field<T: Copy>(raw: &RawFeatures<T>, name: &String) -> (result: Result<T, FieldProblem>)
    ensures
        match result {
            Ok(value) => {
                &&& problem_with(raw@, name@) is None
                &&& raw@[position_of(raw@, name@)].value == Some(value)
            },
            Err(problem) => problem_with(raw@, name@) == Some(problem),
        },
{
    let mut found: Option<usize> = None;
    let mut i: usize = 0;
    while i < raw.fields.len()
        invariant
            0 <= i <= raw.fields.len(),
            match found {
                Some(at) => {
                    &&& at < i
                    &&& supplies(raw@, name@, at as int)
                    &&& forall|j: int| 0 <= j < i && j != at ==> !supplies(raw@, name@, j)
                },
                None => forall|j: int| 0 <= j < i ==> !supplies(raw@, name@, j),
            },
        decreases raw.fields.len() - i,
    {
        if raw.fields[i].name == *name {
            assert(supplies(raw@, name@, i as int));
            match found {
                Some(at) => {
                    assert(at as int != i as int && supplies(raw@, name@, at as int));
                    return Err(FieldProblem::Duplicated);
                },
                None => {
                    found = Some(i);
                },
            }
        }
        i += 1;
    }
    match found {
        None => Err(FieldProblem::Missing),
        Some(at) => {
            assert(supplies(raw@, name@, at as int));
            assert(position_of(raw@, name@) == at);
            match raw.fields[at].value {
                None => Err(FieldProblem::NotNumeric),
                Some(value) => Ok(value),
            }
        },
    }
}

/// Validates a request and puts its values in model order. The request must
/// supply each of the features exactly once, as a number; fields of other
/// names are passed over. The first feature, in model order, that is missing,
/// duplicated or not a number is reported by name.
pub fn assemble_features<T: Copy>(raw: &RawFeatures<T>) -> (result: Result<
    FeatureVector<T>,
    PipelineError,
>)
    ensures
        match result {
            Ok(vector) => is_complete(raw@) && vector@ == assembled(raw@),
            Err(PipelineError::ValidationError { field, problem }) => exists|k: int|
                {
                    &&& first_problem_at(raw@, k)
                    &&& field@ == feature_spec()[k]
                    &&& problem_with(raw@, feature_spec()[k]) == Some(problem)
                },
            Err(_) => false,
        },
{
    let names = feature_names();
    let ghost target = assembled(raw@);
    let mut values: Vec<T> = Vec::new();
    let mut k: usize = 0;
    while k < names.len()
        invariant
            names.deep_view() == feature_spec(),
            names.len() == FEATURE_COUNT,
            target == assembled(raw@),
            0 <= k <= names.len(),
            values@.len() == k,
            forall|j: int| 0 <= j < k ==> problem_with(raw@, #[trigger] feature_spec()[j]) is None,
            forall|j: int| 0 <= j < k ==> values@[j] == target[j],
        decreases names.len() - k,
    {
        assert(names[k as int]@ == feature_spec()[k as int]) by {
            assert(names.deep_view()[k as int] == names[k as int]@);
        }
        match find_field(raw, &names[k]) {
            Err(problem) => {
                assert(first_problem_at(raw@, k as int));
                return Err(PipelineError::ValidationError { field: names[k].clone(), problem });
            },
            Ok(value) => {
                values.push(value);
            },
        }
        k += 1;
    }
    assert(feature_spec().len() == FEATURE_COUNT);
    assert(values@ =~= target);
    Ok(FeatureVector { values })
}

/// The state of a service: without a model, or ready with the model it serves.
pub enum ServiceState<M> {
    Unloaded,
    Ready(M),
}

/// What the service does with a prediction request.
#[derive(Debug, PartialEq)]
pub enum PredictDecision<T> {
    /// Run the model on this feature vector and answer with its prediction.
    Infer(FeatureVector<T>),
    /// Refuse the request as the client's mistake; the error names the field.
    Reject(PipelineError),
    /// Refuse the request because no model is loaded.
    Unavailable,
}

impl<T> PredictDecision<T> {
    /// The HTTP status that the decision is answered with.
    pub open spec fn spec_status(self) -> u16 {
        match self {
            PredictDecision::Infer(_) => 200,
            PredictDecision::Reject(_) => 400,
            PredictDecision::Unavailable => 503,
        }
    }

    /// The HTTP status that the decision is answered with: success for a
    /// prediction, a client error for a refused request, a server error where
    /// no model is loaded.
    pub fn status(&self) -> (code: u16)
        ensures
            code == self.spec_status(),
            self is Infer <==> 200 <= code < 300,
            self is Reject <==> 400 <= code < 500,
            self is Unavailable <==> 500 <= code < 600,
    {
        match self {
            PredictDecision::Infer(_) => 200,
            PredictDecision::Reject(_) => 400,
            PredictDecision::Unavailable => 503,
        }
    }
}

/// The body of the answer to a liveness probe.
pub open spec fn healthy_body() -> Seq<char> {
    "I am healthy!"@
}

/// A prediction service. It starts without a model, becomes ready when a
/// loaded model is installed, and then serves that model, unchanged, for as
/// long as it lives.
pub struct InferenceService<M> {
    model: Option<M>,
}

impl<M> View for InferenceService<M> {
    type V = ServiceState<M>;

    closed spec fn view(&self) -> ServiceState<M> {
        match self.model {
            Some(model) => ServiceState::Ready(model),
            None => ServiceState::Unloaded,
        }
    }
}

impl<M> InferenceService<M> {
    /// A service without a model.
    pub fn new() -> (service: Self)
        ensures
            service@ is Unloaded,
    {
        InferenceService { model: None }
    }

    /// Whether a model is loaded.
    pub fn is_ready(&self) -> (ready: bool)
        ensures
            ready == (self@ is Ready),
    {
        self.model.is_some()
    }

    /// The loaded model, once the service is ready.
    pub fn model(&self) -> (model: Option<&M>)
        ensures
            match model {
                Some(model) => self@ == ServiceState::Ready(*model),
                None => self@ is Unloaded,
            },
    {
        self.model.as_ref()
    }

    /// Ends startup with the outcome of fetching and deserializing the model
    /// artifact. A service without a model becomes ready with the model that
    /// was loaded; where loading failed it stays without one and hands the
    /// failure back. A service that is ready keeps its model and refuses.
    pub fn install(&mut self, loaded: Result<M, PipelineError>) -> (result: Result<(), PipelineError>)
        ensures
            match (old(self)@, loaded) {
                (ServiceState::Unloaded, Ok(model)) => {
                    &&& result is Ok
                    &&& final(self)@ == ServiceState::Ready(model)
                },
                (ServiceState::Unloaded, Err(error)) => {
                    &&& result == Err::<(), PipelineError>(error)
                    &&& final(self)@ is Unloaded
                },
                (ServiceState::Ready(_), _) => {
                    &&& result == Err::<(), PipelineError>(PipelineError::InvalidArgument)
                    &&& final(self)@ == old(self)@
                },
            },
    {
        if self.model.is_some() {
            return Err(PipelineError::InvalidArgument);
        }
        match loaded {
            Ok(model) => {
                self.model = Some(model);
                Ok(())
            },
            Err(error) => Err(error),
        }
    }

    /// The answer to a liveness probe. It is the same whether or not a model
    /// is loaded.
    pub fn health(&self) -> (body: &'static str)
        ensures
            body@ == healthy_body(),
    {
        "I am healthy!"
    }

    /// Decides what to do with a prediction request. Without a model the
    /// request is refused as unavailable, whatever it holds. With a model, a
    /// complete request is turned into its feature vector, and any other is
    /// rejected with the validation error that names the offending field.
    pub fn decide<T: Copy>(&self, raw: &RawFeatures<T>) -> (decision: PredictDecision<T>)
        ensures
            self@ is Unloaded ==> decision is Unavailable,
            self@ is Ready ==> match decision {
                PredictDecision::Infer(vector) => is_complete(raw@) && vector@ == assembled(raw@),
                PredictDecision::Reject(PipelineError::ValidationError { field, problem }) => exists|
                    k: int,
                |
                    {
                        &&& first_problem_at(raw@, k)
                        &&& field@ == feature_spec()[k]
                        &&& problem_with(raw@, feature_spec()[k]) == Some(problem)
                    },
                _ => false,
            },
    {
        if self.model.is_none() {
            return PredictDecision::Unavailable;
        }
        match assemble_features(raw) {
            Ok(vector) => PredictDecision::Infer(vector),
            Err(error) => PredictDecision::Reject(error),
        }
    }
}

} // verus!
