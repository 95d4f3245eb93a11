//! Connector between an asynchronous HTTP service and a serverless
//! invocation model: the verified translation of one invocation event into a
//! service request, and of the service's response back into one invocation
//! response.
pub mod percent;
pub mod query;
pub mod text;
pub mod event;
pub mod response;
