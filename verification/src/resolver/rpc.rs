//! Remote evaluation over gRPC: how a failed call's status becomes an
//! evaluation error.

use vstd::prelude::*;
use crate::evaluation::{ErrorCode, grpc_error_code, grpc_code_matches};

verus! {

/// A gRPC status as plain values: the number of its code (0 to 16) and its
/// message.
#[derive(Debug)]
pub struct GrpcStatus {
    pub code: i32,
    pub message: String,
}

/// The evaluation error code a failed call's gRPC status stands for; see
/// `grpc_error_code`.
pub fn map_grpc_status_to_error_code(status: &GrpcStatus) -> (r: ErrorCode)
    ensures
        grpc_code_matches(status.code, r),
{
    grpc_error_code(status.code)
}

} // verus!
