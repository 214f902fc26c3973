//! Verified core of a house-price prediction service.
//!
//! The training side takes a decoded table, splits its rows at random into a
//! training and a test set, splits each into the model's features and its
//! target, and lays the result out densely for the training engine. The
//! serving side validates a prediction request, puts its values in the
//! model's feature order, and decides how the request is answered. The
//! outcomes of remote calls are turned into the pipeline's errors here; the
//! calls themselves, the training engine and the HTTP server live outside.
//!
//! - [`table`]: rectangular tables of named columns, row and column selection
//! - [`dense`]: the row-major layout of a table
//! - [`features`]: the fixed feature specification
//! - [`split`]: the train/test split and the feature/target split
//! - [`training`]: the input of a training run
//! - [`service`]: request validation and the state of the prediction service
//! - [`remote`]: what the outcome of a remote call means
//! - [`store`]: an in-memory blob store
//! - [`error`]: the errors of the pipeline
//! - [`random`]: the random source of the split

pub mod dense;
pub mod error;
pub mod features;
pub mod random;
pub mod remote;
pub mod service;
pub mod split;
pub mod store;
pub mod table;
pub mod training;

pub use error::{FieldProblem, PipelineError};
