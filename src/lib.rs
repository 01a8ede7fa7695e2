//! Connectivity and wire-encoding core of a client for a distributed
//! key-value database: topology parsing, host lists, key digests,
//! operation encoding and connection bookkeeping.

pub mod buffer;
pub mod connection;
pub mod errors;
pub mod host;
pub mod info;
pub mod key;
pub mod operations;
pub mod text;
pub mod value;

pub use errors::Error;
pub use host::{Host, ToHosts};
pub use info::{parse_services_response, NodeResponse, ServicesResponse};
pub use key::Key;
pub use operations::{
    CdtArgument, CdtOpType, CdtOperation, Operation, OperationBin, OperationData, OperationType,
};
pub use value::Value;
