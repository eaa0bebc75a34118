//! Statuses with payloads as trailers: the payloads travel in the metadata under
//! `grpc-status-details-bin`.

use crate::client::Trailers as ClientTrailers;
use crate::metadata::{first_binary, with_entry, EntryView, MetadataMap, MetadataValueView};
use crate::protobuf::rpc_status::{
    can_be_serialized, decode_status, decoded_status, encode_rpc_status, encoded_status, kept,
    law_status_round_trip, lemma_kept_are_payloads, payloads_parse_back,
};
use crate::protobuf::status::{
    index_of_type, law_types_stay_different, lemma_index_of_type, payload_of, rich_view,
    types_differ, with_payload, PayloadView, Status, StatusError, StatusErrorView,
};
use crate::rpc::{bare_trailers, Trailers as ServerTrailers, TrailersView};
use crate::status::{StatusCodeError, StatusErrorView as PlainErrorView};
use crate::text::joined_text;
use vstd::prelude::*;
use vstd::utf8::valid_utf8;

verus! {

/// An internal error with a message.
pub open spec fn internal_error(message: Seq<char>) -> StatusErrorView {
    StatusErrorView { code: StatusCodeError::Internal, message, payloads: Seq::empty() }
}

/// The payloads that come of setting details one by one.
pub open spec fn payloads_of(details: Seq<PayloadView>) -> Seq<PayloadView>
    decreases details.len(),
{
    if details.len() == 0 {
        Seq::empty()
    } else {
        with_payload(payloads_of(details.drop_last()), details.last().0, details.last().1)
    }
}

/// The error that the bytes of a `google.rpc.Status` stand for, or what is wrong with them.
pub open spec fn error_in_details(b: Seq<u8>) -> Result<StatusErrorView, StatusErrorView> {
    match decoded_status(b) {
        None => Err(
            internal_error(
                "Failed to parse grpc-status-details-bin: "@
                    + "Couldn't deserialize given bytes into a proto"@,
            ),
        ),
        Some(s) => if s.code == 0 {
            Err(
                internal_error(
                    "grpc-status-details-bin status code was OK, but should always be an error"@,
                ),
            )
        } else {
            Ok(
                StatusErrorView {
                    code: StatusCodeError::of_number(s.code),
                    message: s.message,
                    payloads: payloads_of(s.details),
                },
            )
        },
    }
}

/// The status that trailers tell. Where there are details, their code must be that of the
/// trailers, and the trailers must tell an error.
pub open spec fn told_status(t: TrailersView) -> Result<(), StatusErrorView> {
    let details = first_binary(t.metadata, "grpc-status-details-bin"@);
    match t.status {
        Ok(_) => if details is Some {
            Err(
                internal_error(
                    "grpc-status-details-bin metadata cannot be present when gRPC status code is OK"@,
                ),
            )
        } else {
            Ok(())
        },
        Err(e) => match details {
            None => Err(
                StatusErrorView { code: e.code, message: e.message, payloads: Seq::empty() },
            ),
            Some(b) => match error_in_details(b) {
                Err(problem) => Err(problem),
                Ok(rich) => if rich.code != e.code {
                    Err(internal_error(mismatch_message(e.code, rich.code)))
                } else {
                    Err(rich)
                },
            },
        },
    }
}

/// What is said where the code of the details is not that of the trailers.
pub open spec fn mismatch_message(grpc: StatusCodeError, rpc: StatusCodeError) -> Seq<char> {
    "RPC status code mismatch: gRPC code "@ + grpc.name() + ", google.rpc.Code "@ + rpc.name()
}

/// The message where the code of the details is not that of the trailers.
fn mismatch_text(grpc: StatusCodeError, rpc: StatusCodeError) -> (r: String)
    ensures
        r@ == mismatch_message(grpc, rpc),
{
    let mut r = joined_text("RPC status code mismatch: gRPC code ", grpc.as_text());
    r.append(", google.rpc.Code ");
    r.append(rpc.as_text());
    r
}

/// Reads the error from the bytes of a `google.rpc.Status`.
fn parse_rpc_status(buf: &[u8]) -> (r: Result<StatusError, StatusError>)
    ensures
        match error_in_details(buf@) {
            Ok(v) => r matches Ok(e) && e@ == v,
            Err(v) => r matches Err(e) && e@ == v,
        },
{
    let rpc_status = match decode_status(buf) {
        Some(s) => s,
        None => {
            return Err(
                StatusError::with_text(
                    StatusCodeError::Internal,
                    joined_text(
                        "Failed to parse grpc-status-details-bin: ",
                        "Couldn't deserialize given bytes into a proto",
                    ),
                ),
            );
        },
    };
    if rpc_status.code == 0 {
        return Err(
            StatusError::new(
                StatusCodeError::Internal,
                "grpc-status-details-bin status code was OK, but should always be an error",
            ),
        );
    }
    let code = StatusCodeError::from_number(rpc_status.code);
    let mut status_err = StatusError::with_text(code, rpc_status.message);
    let details = rpc_status.details;
    let ghost views = crate::protobuf::status::payload_views(details@);
    let mut i: usize = 0;
    assert(views.take(0) =~= Seq::empty());
    while i < details.len()
        invariant
            i <= details@.len(),
            views == crate::protobuf::status::payload_views(details@),
            status_err@.code == code,
            status_err@.message == rpc_status.message@,
            status_err@.payloads == payloads_of(views.take(i as int)),
        decreases details@.len() - i,
    {
        proof {
            assert(views.take(i + 1).drop_last() =~= views.take(i as int));
            assert(views.take(i + 1).last() == views[i as int]);
        }
        status_err.set_payload(details[i].0.as_slice(), details[i].1.as_slice());
        i += 1;
    }
    assert(views.take(i as int) =~= views);
    Ok(status_err)
}

/// No two payloads have the same type where they were set one by one.
proof fn lemma_payloads_differ(details: Seq<PayloadView>)
    ensures
        types_differ(payloads_of(details)),
    decreases details.len(),
{
    if details.len() > 0 {
        let init = details.drop_last();
        lemma_payloads_differ(init);
        law_types_stay_different(payloads_of(init), details.last().0, details.last().1);
    }
}

/// No two payloads of the status that trailers tell have the same type.
proof fn lemma_told_types_differ(t: TrailersView)
    ensures
        told_status(t) matches Err(e) ==> types_differ(e.payloads),
{
    if let Some(b) = first_binary(t.metadata, "grpc-status-details-bin"@) {
        if let Some(s) = decoded_status(b) {
            lemma_payloads_differ(s.details);
        }
    }
}

/// Reads the status from trailers, with the payloads that travel in the metadata. Details whose
/// code is not that of the trailers make the status an `INTERNAL` error.
pub fn status_from_trailers(t: ClientTrailers) -> (r: Status)
    ensures
        rich_view(r) == told_status(t@),
        rich_view(r) matches Err(e) ==> types_differ(e.payloads),
{
    proof {
        lemma_told_types_differ(t@);
    }
    let mut t = t;
    let ghost told = t@;
    let bin_val: Option<Vec<u8>> = t.metadata_mut().remove_bin("grpc-status-details-bin");
    match t.into_status() {
        Ok(()) => {
            if bin_val.is_some() {
                return Err(
                    StatusError::new(
                        StatusCodeError::Internal,
                        "grpc-status-details-bin metadata cannot be present when gRPC status code is OK",
                    ),
                );
            }
            Ok(())
        },
        Err(grpc_err) => {
            let (code, message) = grpc_err.into_parts();
            match bin_val {
                None => Err(StatusError::with_text(code, message)),
                Some(value) => {
                    match parse_rpc_status(value.as_slice()) {
                        Err(e) => Err(e),
                        Ok(rpc_status_err) => {
                            let rpc_code: StatusCodeError = rpc_status_err.code();
                            if rpc_code != code {
                                Err(
                                    StatusError::with_text(
                                        StatusCodeError::Internal,
                                        mismatch_text(code, rpc_code),
                                    ),
                                )
                            } else {
                                Err(rpc_status_err)
                            }
                        },
                    }
                },
            }
        },
    }
}

/// What is said where the payloads cannot be serialized.
pub open spec fn serialize_message() -> Seq<char> {
    "Failed to serialize grpc-status-details-bin: "@
        + "Couldn't serialize proto into bytes (depth too deep or missing required fields)"@
}

/// The trailers that tell a status: its code and message and, where it has payloads, these in the
/// metadata.
pub open spec fn trailers_of(s: Result<(), StatusErrorView>) -> TrailersView {
    match s {
        Ok(_) => bare_trailers(Ok(())),
        Err(e) => if e.payloads.len() == 0 {
            bare_trailers(Err(PlainErrorView { code: e.code, message: e.message }))
        } else {
            match encoded_status(e.code, e.message, e.payloads) {
                Some(b) => TrailersView {
                    status: Err(PlainErrorView { code: e.code, message: e.message }),
                    metadata: with_entry(
                        Seq::empty(),
                        "grpc-status-details-bin"@,
                        MetadataValueView::Binary(b),
                    ),
                },
                None => bare_trailers(
                    Err(
                        PlainErrorView {
                            code: StatusCodeError::Internal,
                            message: serialize_message(),
                        },
                    ),
                ),
            }
        },
    }
}

/// What holds of every status that is turned into trailers: no two payloads have the same type,
/// and the details parse back, where it can be serialized.
pub open spec fn can_come_back(s: Result<(), StatusErrorView>) -> bool {
    s matches Err(e) ==> {
        &&& types_differ(e.payloads)
        &&& e.payloads.len() > 0 && can_be_serialized(e.message, e.payloads)
            ==> payloads_parse_back(kept(e.payloads))
    }
}

/// Turns a status into trailers, with its payloads in the metadata.
pub fn trailers_from_status(s: Status) -> (r: ServerTrailers)
    ensures
        r@ == trailers_of(rich_view(s)),
        can_come_back(rich_view(s)),
{
    match s {
        Ok(()) => ServerTrailers::new(Ok(())),
        Err(status_err) => {
            let ghost e = status_err@;
            let has_payloads: bool = status_err.has_payloads();
            let (code, message, payloads) = status_err.into_parts();
            let mut m = MetadataMap::new();
            if has_payloads {
                match encode_rpc_status(code, message.as_str(), payloads) {
                    Some(bytes) => {
                        m.insert_bin("grpc-status-details-bin", bytes.as_slice());
                    },
                    None => {
                        return ServerTrailers::new(
                            Err(
                                crate::status::StatusError::with_text(
                                    StatusCodeError::Internal,
                                    joined_text(
                                        "Failed to serialize grpc-status-details-bin: ",
                                        "Couldn't serialize proto into bytes (depth too deep or missing required fields)",
                                    ),
                                ),
                            ),
                        );
                    },
                }
            }
            ServerTrailers::new(
                Err(crate::status::StatusError::with_text(code, message)),
            ).with_metadata(m)
        },
    }
}

/// The payloads whose types are valid UTF-8 have different types if all have.
proof fn lemma_kept_differ(payloads: Seq<PayloadView>)
    requires
        types_differ(payloads),
    ensures
        types_differ(kept(payloads)),
    decreases payloads.len(),
{
    if payloads.len() > 0 {
        let init = payloads.drop_last();
        assert(types_differ(init)) by {
            assert forall|i: int, j: int| 0 <= i < j < init.len() implies (#[trigger] init[i]).0 != (
            #[trigger] init[j]).0 by {
                assert(payloads[i].0 != payloads[j].0);
            }
        }
        lemma_kept_differ(init);
        lemma_kept_are_payloads(init);
        let k = kept(payloads);
        let ki = kept(init);
        assert forall|i: int| 0 <= i < ki.len() implies (#[trigger] ki[i]).0
            != payloads.last().0 by {
            let j = choose|j: int| 0 <= j < init.len() && init[j] == ki[i];
            assert(payloads[j] == ki[i]);
            assert(payloads[j].0 != payloads[payloads.len() - 1].0);
        }
        assert forall|i: int, j: int| 0 <= i < j < k.len() implies (#[trigger] k[i]).0 != (
        #[trigger] k[j]).0 by {
            assert(k[i] == ki[i]);
            if j < ki.len() {
                assert(k[j] == ki[j]);
            }
        }
    }
}

/// Details of different types are set as they are.
proof fn lemma_payloads_of_different(details: Seq<PayloadView>)
    requires
        types_differ(details),
    ensures
        payloads_of(details) == details,
    decreases details.len(),
{
    if details.len() == 0 {
        assert(details =~= Seq::empty());
    } else {
        let init = details.drop_last();
        assert(types_differ(init)) by {
            assert forall|i: int, j: int| 0 <= i < j < init.len() implies (#[trigger] init[i]).0 != (
            #[trigger] init[j]).0 by {
                assert(details[i].0 != details[j].0);
            }
        }
        lemma_payloads_of_different(init);
        lemma_index_of_type(init, details.last().0);
        if let Some(i) = index_of_type(init, details.last().0) {
            assert(details[i].0 != details[details.len() - 1].0);
        }
        assert(init.push(details.last()) =~= details);
    }
}

/// The payloads that are kept are found as before, and those that are not are not found.
proof fn lemma_kept_are_found(payloads: Seq<PayloadView>, type_url: Seq<u8>)
    ensures
        payload_of(kept(payloads), type_url) == if valid_utf8(type_url) {
            payload_of(payloads, type_url)
        } else {
            None
        },
    decreases payloads.len(),
{
    if payloads.len() > 0 {
        let init = payloads.drop_last();
        let last = payloads.last();
        lemma_kept_are_found(init, type_url);
        lemma_index_of_type(init, type_url);
        lemma_index_of_type(kept(init), type_url);
        if valid_utf8(last.0) {
            assert(kept(payloads).drop_last() =~= kept(init));
        }
    }
}

/// The status that comes back of one that was turned into trailers: the same, but for payloads
/// whose types are no valid UTF-8. One with payloads that cannot be serialized comes back as an
/// error that says so.
pub open spec fn back_from_trailers(s: Result<(), StatusErrorView>) -> Result<(), StatusErrorView> {
    match s {
        Ok(_) => Ok(()),
        Err(e) => if e.payloads.len() == 0 || can_be_serialized(e.message, e.payloads) {
            Err(StatusErrorView { payloads: kept(e.payloads), ..e })
        } else {
            Err(internal_error(serialize_message()))
        },
    }
}

/// A status survives its way through trailers: what a client reads from the trailers of a status
/// is that status, but for payloads whose types are no valid UTF-8. Of these none is found again,
/// and every other payload is. An error without payloads comes back as it is, and so does success.
///
/// `can_come_back` is what [`trailers_from_status`] promises of every status that it turns into
/// trailers.
pub proof fn law_status_survives_trailers(s: Result<(), StatusErrorView>)
    requires
        can_come_back(s),
    ensures
        told_status(trailers_of(s)) == back_from_trailers(s),
        s matches Err(e) ==> forall|type_url: Seq<u8>| #[trigger]
            payload_of(kept(e.payloads), type_url) == if valid_utf8(type_url) {
                payload_of(e.payloads, type_url)
            } else {
                None
            },
{
    if let Err(e) = s {
        assert forall|type_url: Seq<u8>| #[trigger]
            payload_of(kept(e.payloads), type_url) == if valid_utf8(type_url) {
                payload_of(e.payloads, type_url)
            } else {
                None
            } by {
            lemma_kept_are_found(e.payloads, type_url);
        }
        if e.payloads.len() == 0 {
            assert(kept(e.payloads) =~= e.payloads);
            assert(e.payloads =~= Seq::empty());
        } else if can_be_serialized(e.message, e.payloads) {
            law_status_round_trip(e.code, e.message, e.payloads);
            e.code.lemma_number_round_trip();
            lemma_kept_differ(e.payloads);
            lemma_payloads_of_different(kept(e.payloads));
            let b = encoded_status(e.code, e.message, e.payloads)->Some_0;
            crate::metadata::law_get_after_insert(
                Seq::<EntryView>::empty(),
                "grpc-status-details-bin"@,
                MetadataValueView::Binary(b),
            );
        }
    }
}


/// What a client reads from the trailers of an error is that error: its code, its message, and
/// each payload whose type is valid UTF-8, found under its type. Success is read as success, and an
/// error is never read as success.
pub proof fn law_error_is_told(s: Result<(), StatusErrorView>, type_url: Seq<u8>)
    requires
        can_come_back(s),
        s matches Err(e) ==> can_be_serialized(e.message, e.payloads),
        valid_utf8(type_url),
    ensures
        s is Ok <==> told_status(trailers_of(s)) is Ok,
        s matches Err(e) ==> (told_status(trailers_of(s)) matches Err(told) && told.code == e.code
            && told.message == e.message && payload_of(told.payloads, type_url) == payload_of(
            e.payloads,
            type_url,
        )),
{
    law_status_survives_trailers(s);
}

/// The trailers of a status say what it is to those who do not read the details, too: they tell
/// success exactly for success, without metadata, and an error with its own code and message
/// wherever its details can be serialized.
pub proof fn law_trailers_tell_the_code(s: Result<(), StatusErrorView>)
    ensures
        s is Ok <==> trailers_of(s).status is Ok,
        s is Ok ==> trailers_of(s).metadata.len() == 0,
        s matches Err(e) ==> (trailers_of(s).status matches Err(told) && (e.payloads.len() == 0
            || can_be_serialized(e.message, e.payloads) ==> told.code == e.code && told.message
            == e.message)),
        s matches Err(e) ==> (e.payloads.len() == 0 ==> trailers_of(s).metadata.len() == 0),
        s matches Err(e) ==> (e.payloads.len() > 0 && !can_be_serialized(e.message, e.payloads)
            ==> trailers_of(s).status->Err_0.code == StatusCodeError::Internal),
{
}

/// Details may say more than the trailers, but not something else: without details the status is
/// read as it is; with details, the status is that of the details where their code is that of the
/// trailers, and an internal error otherwise, as it is with details that cannot be read, that tell
/// success, or that come with success.
pub proof fn law_details_must_agree(t: TrailersView)
    ensures
        ({
            let details = first_binary(t.metadata, "grpc-status-details-bin"@);
            let told = told_status(t);
            &&& told is Ok <==> t.status is Ok && details is None
            &&& t.status is Ok && details is Some ==> told->Err_0.code == StatusCodeError::Internal
            &&& t.status matches Err(e) ==> {
                &&& details is None ==> told->Err_0.code == e.code && told->Err_0.message
                    == e.message && told->Err_0.payloads.len() == 0
                &&& told->Err_0.code == e.code || told->Err_0.code == StatusCodeError::Internal
                &&& details matches Some(b) ==> match decoded_status(b) {
                    None => told->Err_0.code == StatusCodeError::Internal,
                    Some(d) => if d.code != 0 && StatusCodeError::of_number(d.code) == e.code {
                        told->Err_0.code == e.code && told->Err_0.message == d.message
                    } else {
                        &&& told->Err_0.code == StatusCodeError::Internal
                        &&& d.code != 0 ==> told->Err_0.message
                            == "RPC status code mismatch: gRPC code "@ + e.code.name()
                            + ", google.rpc.Code "@ + StatusCodeError::of_number(d.code).name()
                    },
                }
            }
        }),
{
}


/// What is wrong with trailers or with a status is said: details that come with success, details
/// that tell success or cannot be read, and payloads that cannot be serialized.
pub proof fn law_problems_are_told(t: TrailersView, e: StatusErrorView)
    ensures
        ({
            let details = first_binary(t.metadata, "grpc-status-details-bin"@);
            &&& t.status is Ok && details is Some ==> told_status(t)->Err_0.message
                == "grpc-status-details-bin metadata cannot be present when gRPC status code is OK"@
            &&& t.status is Err ==> (details matches Some(b) ==> (decoded_status(b) is None
                ==> told_status(t)->Err_0.message == "Failed to parse grpc-status-details-bin: "@
                + "Couldn't deserialize given bytes into a proto"@))
            &&& t.status is Err ==> (details matches Some(b) ==> (decoded_status(b) matches Some(d)
                ==> (d.code == 0 ==> told_status(t)->Err_0.message
                == "grpc-status-details-bin status code was OK, but should always be an error"@)))
            &&& e.payloads.len() > 0 && !can_be_serialized(e.message, e.payloads) ==> trailers_of(
                Err(e),
            ).status->Err_0.message == "Failed to serialize grpc-status-details-bin: "@
                + "Couldn't serialize proto into bytes (depth too deep or missing required fields)"@
        }),
{
}

} // verus!
