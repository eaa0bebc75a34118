//! Status codes that are told by HTTP status codes.

use crate::status::StatusCode;
use vstd::prelude::*;

verus! {

/// The gRPC status code that stands for an HTTP status code. A number that is no HTTP status code
/// of the table, the gRPC status codes among them, stands for an unknown error.
pub open spec fn inferred_status(code: int) -> StatusCode {
    if code == 200 {
        StatusCode::OK
    } else if code == 400 {
        StatusCode::Internal
    } else if code == 401 {
        StatusCode::Unauthenticated
    } else if code == 403 {
        StatusCode::PermissionDenied
    } else if code == 404 {
        StatusCode::Unimplemented
    } else if code == 429 || code == 502 || code == 503 || code == 504 {
        StatusCode::Unavailable
    } else {
        StatusCode::Unknown
    }
}

/// Infers a gRPC status code from an HTTP status code.
pub fn infer_grpc_status_from_http_status(code: i32) -> (r: StatusCode)
    ensures
        r == inferred_status(code as int),
{
    match code {
        200 => StatusCode::OK,
        400 => StatusCode::Internal,
        401 => StatusCode::Unauthenticated,
        403 => StatusCode::PermissionDenied,
        404 => StatusCode::Unimplemented,
        429 => StatusCode::Unavailable,
        502 => StatusCode::Unavailable,
        503 => StatusCode::Unavailable,
        504 => StatusCode::Unavailable,
        _ => StatusCode::Unknown,
    }
}


/// What an HTTP status code says of a call: it succeeded only with 200; it may be tried again, as
/// the server is not available, with 429, 502, 503 and 504; and the other codes with a meaning are
/// 400, 401, 403 and 404. Every other number, the numbers of gRPC's own codes among them, says
/// nothing.
pub proof fn law_inferred_codes(code: int)
    ensures
        inferred_status(code) == StatusCode::OK <==> code == 200,
        inferred_status(code) == StatusCode::Unavailable <==> code == 429 || 502 <= code <= 504,
        inferred_status(code) == StatusCode::Internal <==> code == 400,
        inferred_status(code) == StatusCode::Unauthenticated <==> code == 401,
        inferred_status(code) == StatusCode::PermissionDenied <==> code == 403,
        inferred_status(code) == StatusCode::Unimplemented <==> code == 404,
        0 <= code <= 16 ==> inferred_status(code) == StatusCode::Unknown,
        ({
            let r = inferred_status(code);
            ||| r == StatusCode::OK || r == StatusCode::Unavailable || r == StatusCode::Internal
            ||| r == StatusCode::Unauthenticated || r == StatusCode::PermissionDenied
            ||| r == StatusCode::Unimplemented || r == StatusCode::Unknown
        }),
{
}

} // verus!
