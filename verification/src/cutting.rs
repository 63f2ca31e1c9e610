//! What is cut short is an error, wherever it is cut: no field, header,
//! request or response is read of a part of what it takes.

use vstd::prelude::*;

use crate::attribute::{
    read_request, read_result, write_request, write_result, write_target, ReadView, VALUE_ATTRIBUTE,
};
use crate::channel::{acknowledge, fault, hello, limits};
use crate::codec::{byte, i32_le, i64_le, skip, take, u16_le, u32_le, u64_le, Parsed};
use crate::endpoint::{
    activate_session, application, behind_endpoints, certificates, create_session, endpoint,
    endpoints, identity, policies, session_created, ActivateSessionView, CreateSessionView,
    EndpointView, SessionCreatedView,
};
use crate::error::permanent;
use crate::node::NodeIdView;
use crate::service::{
    body_type, channel_opened, open_channel, request_header, response_header, RequestHeaderView,
    ResponseHeader,
};
use crate::wire::{
    boolean, byte_string, count, data_value, diagnostic_array, diagnostic_fields, diagnostic_info,
    diagnostic_info_within, diagnostics, flag, lemma_depth_does_not_matter, localized_text, node_id,
    past_if, past_server_fields, stamp_if, status_if, string, string_array, string_or_empty,
    strings, variant_if, DataValueView,
};

verus! {

/// That `cut`, which is read of the first `length` of some bytes, is right by
/// `whole`, which is read of them all: it is a failure where what was read
/// goes on behind them, and nothing else is read in its place where it does
/// not.
pub open spec fn follows<T>(whole: Parsed<T>, cut: Parsed<T>, bytes: Seq<u8>, length: int) -> bool {
    match whole {
        Parsed::Failed(_, _) => true,
        Parsed::Read(value, rest) => {
            let behind = length - (bytes.len() - rest.len());
            cut is Failed || (0 <= behind <= rest.len() && cut == Parsed::Read(
                value,
                rest.take(behind),
            ))
        },
    }
}

broadcast proof fn lemma_take_cut(bytes: Seq<u8>, number: nat, length: int)
    requires
        0 <= length <= bytes.len(),
    ensures
        follows(
            take(bytes, number),
            #[trigger] take(bytes.take(length), number),
            bytes,
            length,
        ),
{
    if number <= length {
        assert(bytes.take(length).take(number as int) =~= bytes.take(number as int));
        assert(bytes.take(length).skip(number as int) =~= bytes.skip(number as int).take(
            length - number,
        ));
    }
}

broadcast proof fn lemma_skip_cut(bytes: Seq<u8>, number: nat, length: int)
    requires
        0 <= length <= bytes.len(),
    ensures
        follows(
            skip(bytes, number),
            #[trigger] skip(bytes.take(length), number),
            bytes,
            length,
        ),
{
    lemma_take_cut(bytes, number, length);
}

broadcast proof fn lemma_byte_cut(bytes: Seq<u8>, length: int)
    requires
        0 <= length <= bytes.len(),
    ensures
        follows(byte(bytes), #[trigger] byte(bytes.take(length)), bytes, length),
{
    lemma_take_cut(bytes, 1, length);
}

broadcast proof fn lemma_u16_cut(bytes: Seq<u8>, length: int)
    requires
        0 <= length <= bytes.len(),
    ensures
        follows(u16_le(bytes), #[trigger] u16_le(bytes.take(length)), bytes, length),
{
    lemma_take_cut(bytes, 2, length);
}

broadcast proof fn lemma_u32_cut(bytes: Seq<u8>, length: int)
    requires
        0 <= length <= bytes.len(),
    ensures
        follows(u32_le(bytes), #[trigger] u32_le(bytes.take(length)), bytes, length),
{
    lemma_take_cut(bytes, 4, length);
}

broadcast proof fn lemma_u64_cut(bytes: Seq<u8>, length: int)
    requires
        0 <= length <= bytes.len(),
    ensures
        follows(u64_le(bytes), #[trigger] u64_le(bytes.take(length)), bytes, length),
{
    lemma_take_cut(bytes, 8, length);
}

broadcast proof fn lemma_i32_cut(bytes: Seq<u8>, length: int)
    requires
        0 <= length <= bytes.len(),
    ensures
        follows(i32_le(bytes), #[trigger] i32_le(bytes.take(length)), bytes, length),
{
    lemma_take_cut(bytes, 4, length);
}

broadcast proof fn lemma_i64_cut(bytes: Seq<u8>, length: int)
    requires
        0 <= length <= bytes.len(),
    ensures
        follows(i64_le(bytes), #[trigger] i64_le(bytes.take(length)), bytes, length),
{
    lemma_take_cut(bytes, 8, length);
}

broadcast group group_numbers_cut {
    lemma_take_cut,
    lemma_skip_cut,
    lemma_byte_cut,
    lemma_u16_cut,
    lemma_u32_cut,
    lemma_u64_cut,
    lemma_i32_cut,
    lemma_i64_cut,
}

broadcast proof fn lemma_byte_string_cut(bytes: Seq<u8>, length: int)
    requires
        0 <= length <= bytes.len(),
    ensures
        follows(byte_string(bytes), #[trigger] byte_string(bytes.take(length)), bytes, length),
{
    broadcast use group_numbers_cut;

}

broadcast proof fn lemma_string_cut(bytes: Seq<u8>, length: int)
    requires
        0 <= length <= bytes.len(),
    ensures
        follows(string(bytes), #[trigger] string(bytes.take(length)), bytes, length),
{
    lemma_byte_string_cut(bytes, length);
}

broadcast proof fn lemma_string_or_empty_cut(bytes: Seq<u8>, length: int)
    requires
        0 <= length <= bytes.len(),
    ensures
        follows(
            string_or_empty(bytes),
            #[trigger] string_or_empty(bytes.take(length)),
            bytes,
            length,
        ),
{
    lemma_string_cut(bytes, length);
}

broadcast proof fn lemma_count_cut(bytes: Seq<u8>, length: int)
    requires
        0 <= length <= bytes.len(),
    ensures
        follows(count(bytes), #[trigger] count(bytes.take(length)), bytes, length),
{
    lemma_i32_cut(bytes, length);
}

#[verifier::rlimit(40)]
broadcast proof fn lemma_node_cut(bytes: Seq<u8>, length: int)
    requires
        0 <= length <= bytes.len(),
    ensures
        follows(node_id(bytes), #[trigger] node_id(bytes.take(length)), bytes, length),
{
    broadcast use {group_numbers_cut, lemma_byte_string_cut, lemma_string_or_empty_cut};

}

broadcast group group_fields_cut {
    group_numbers_cut,
    lemma_byte_string_cut,
    lemma_string_cut,
    lemma_string_or_empty_cut,
    lemma_count_cut,
    lemma_node_cut,
}

proof fn lemma_past_if_cut<T>(
    present: bool,
    whole: Parsed<T>,
    cut: Parsed<T>,
    bytes: Seq<u8>,
    length: int,
)
    requires
        0 <= length <= bytes.len(),
        follows(whole, cut, bytes, length),
    ensures
        follows(
            past_if(present, whole, bytes),
            past_if(present, cut, bytes.take(length)),
            bytes,
            length,
        ),
{
    reveal(past_if);
}

broadcast proof fn lemma_localized_text_cut(bytes: Seq<u8>, length: int)
    requires
        0 <= length <= bytes.len(),
    ensures
        follows(
            localized_text(bytes),
            #[trigger] localized_text(bytes.take(length)),
            bytes,
            length,
        ),
{
    broadcast use group_fields_cut;

    reveal(localized_text);
    reveal(past_if);
}

/// Past the numbers that open a diagnostic info.
spec fn diagnostic_numbers(mask: u8, bytes: Seq<u8>) -> Parsed<()> {
    past_if(flag(mask, 0x01), i32_le(bytes), bytes).and(
        |past: (), rest: Seq<u8>|
            past_if(flag(mask, 0x02), i32_le(rest), rest).and(
                |past: (), rest: Seq<u8>|
                    past_if(flag(mask, 0x04), i32_le(rest), rest).and(
                        |past: (), rest: Seq<u8>| past_if(flag(mask, 0x08), i32_le(rest), rest),
                    ),
            ),
    )
}

/// A number is passed of which the first `length` bytes are there, where it
/// is there at all.
proof fn lemma_number_cut(present: bool, bytes: Seq<u8>, length: int)
    requires
        0 <= length <= bytes.len(),
    ensures
        follows(
            past_if(present, i32_le(bytes), bytes),
            past_if(present, i32_le(bytes.take(length)), bytes.take(length)),
            bytes,
            length,
        ),
{
    lemma_i32_cut(bytes, length);
    lemma_past_if_cut(present, i32_le(bytes), i32_le(bytes.take(length)), bytes, length);
}

proof fn lemma_diagnostic_numbers_cut(mask: u8, bytes: Seq<u8>, length: int)
    requires
        0 <= length <= bytes.len(),
    ensures
        follows(
            diagnostic_numbers(mask, bytes),
            diagnostic_numbers(mask, bytes.take(length)),
            bytes,
            length,
        ),
{
    lemma_number_cut(flag(mask, 0x01), bytes, length);
    if let Parsed::Read(_, second) = past_if(flag(mask, 0x01), i32_le(bytes), bytes) {
        let at = length - (bytes.len() - second.len());
        if at >= 0 {
            lemma_number_cut(flag(mask, 0x02), second, at);
            if let Parsed::Read(_, third) = past_if(flag(mask, 0x02), i32_le(second), second) {
                let behind = at - (second.len() - third.len());
                if behind >= 0 {
                    lemma_number_cut(flag(mask, 0x04), third, behind);
                    if let Parsed::Read(_, fourth) = past_if(
                        flag(mask, 0x04),
                        i32_le(third),
                        third,
                    ) {
                        let last = behind - (third.len() - fourth.len());
                        if last >= 0 {
                            lemma_number_cut(flag(mask, 0x08), fourth, last);
                        }
                    }
                }
            }
        }
    }
}

proof fn lemma_diagnostic_fields_cut(mask: u8, bytes: Seq<u8>, length: int)
    requires
        0 <= length <= bytes.len(),
    ensures
        follows(
            diagnostic_fields(mask, bytes),
            diagnostic_fields(mask, bytes.take(length)),
            bytes,
            length,
        ),
{
    let numbers = diagnostic_numbers(mask, bytes);
    lemma_diagnostic_numbers_cut(mask, bytes, length);
    if let Parsed::Read(_, info) = numbers {
        let at = length - (bytes.len() - info.len());
        if at >= 0 {
            lemma_string_cut(info, at);
            lemma_past_if_cut(flag(mask, 0x10), string(info), string(info.take(at)), info, at);
            if let Parsed::Read(_, status) = past_if(flag(mask, 0x10), string(info), info) {
                let behind = at - (info.len() - status.len());
                if behind >= 0 {
                    lemma_u32_cut(status, behind);
                    lemma_past_if_cut(
                        flag(mask, 0x20),
                        u32_le(status),
                        u32_le(status.take(behind)),
                        status,
                        behind,
                    );
                }
            }
        }
    }
}

proof fn lemma_diagnostic_within_cut(bytes: Seq<u8>, depth: nat, length: int)
    requires
        0 <= length <= bytes.len(),
    ensures
        follows(
            diagnostic_info_within(bytes, depth),
            diagnostic_info_within(bytes.take(length), depth),
            bytes,
            length,
        ),
    decreases depth,
{
    broadcast use group_numbers_cut;

    if let Parsed::Read(mask, rest) = byte(bytes) {
        if let Parsed::Read(_, left) = byte(bytes.take(length)) {
            lemma_diagnostic_fields_cut(mask, rest, length - 1);
            if let Parsed::Read(_, inner) = diagnostic_fields(mask, rest) {
                let behind = length - 1 - (rest.len() - inner.len());
                if depth > 0 && behind >= 0 {
                    lemma_diagnostic_within_cut(inner, (depth - 1) as nat, behind);
                }
            }
        }
    }
}

broadcast proof fn lemma_diagnostic_info_cut(bytes: Seq<u8>, length: int)
    requires
        0 <= length <= bytes.len(),
    ensures
        follows(
            diagnostic_info(bytes),
            #[trigger] diagnostic_info(bytes.take(length)),
            bytes,
            length,
        ),
{
    lemma_diagnostic_within_cut(bytes, bytes.len(), length);
    lemma_depth_does_not_matter(bytes.take(length), bytes.len(), length as nat);
}

proof fn lemma_diagnostics_cut(bytes: Seq<u8>, number: nat, length: int)
    requires
        0 <= length <= bytes.len(),
    ensures
        follows(
            diagnostics(bytes, number),
            diagnostics(bytes.take(length), number),
            bytes,
            length,
        ),
    decreases number,
{
    if number > 0 {
        lemma_diagnostic_info_cut(bytes, length);
        if let Parsed::Read(_, rest) = diagnostic_info(bytes) {
            let behind = length - (bytes.len() - rest.len());
            if behind >= 0 {
                lemma_diagnostics_cut(rest, (number - 1) as nat, behind);
            }
        }
    }
}

broadcast proof fn lemma_diagnostic_array_cut(bytes: Seq<u8>, length: int)
    requires
        0 <= length <= bytes.len(),
    ensures
        follows(
            diagnostic_array(bytes),
            #[trigger] diagnostic_array(bytes.take(length)),
            bytes,
            length,
        ),
{
    lemma_count_cut(bytes, length);
    if let Parsed::Read(number, rest) = count(bytes) {
        let behind = length - (bytes.len() - rest.len());
        if behind >= 0 {
            lemma_diagnostics_cut(rest, number as nat, behind);
        }
    }
}

proof fn lemma_strings_cut(bytes: Seq<u8>, number: nat, length: int)
    requires
        0 <= length <= bytes.len(),
    ensures
        follows(strings(bytes, number), strings(bytes.take(length), number), bytes, length),
    decreases number,
{
    if number > 0 {
        lemma_string_cut(bytes, length);
        if let Parsed::Read(_, rest) = string(bytes) {
            let behind = length - (bytes.len() - rest.len());
            if behind >= 0 {
                lemma_strings_cut(rest, (number - 1) as nat, behind);
            }
        }
    }
}

broadcast proof fn lemma_string_array_cut(bytes: Seq<u8>, length: int)
    requires
        0 <= length <= bytes.len(),
    ensures
        follows(string_array(bytes), #[trigger] string_array(bytes.take(length)), bytes, length),
{
    lemma_count_cut(bytes, length);
    if let Parsed::Read(number, rest) = count(bytes) {
        let behind = length - (bytes.len() - rest.len());
        if behind >= 0 {
            lemma_strings_cut(rest, number as nat, behind);
        }
    }
}

proof fn lemma_server_fields_cut(mask: u8, bytes: Seq<u8>, length: int)
    requires
        0 <= length <= bytes.len(),
    ensures
        follows(
            past_server_fields(mask, bytes),
            past_server_fields(mask, bytes.take(length)),
            bytes,
            length,
        ),
{
    broadcast use group_numbers_cut;

    reveal(past_if);
}

broadcast proof fn lemma_data_value_cut(bytes: Seq<u8>, length: int)
    requires
        0 <= length <= bytes.len(),
    ensures
        follows(data_value(bytes), #[trigger] data_value(bytes.take(length)), bytes, length),
{
    lemma_byte_cut(bytes, length);
    if let Parsed::Read(mask, rest) = byte(bytes) {
        let at = length - 1;
        if at >= 0 {
            lemma_kept_fields_cut(mask, rest, at);
        }
    }
}

/// What is read of a value behind its mask.
spec fn kept_fields(mask: u8, bytes: Seq<u8>) -> Parsed<DataValueView> {
    variant_if(flag(mask, 0x01), bytes).and(
        |bytes: Option<Seq<u8>>, rest: Seq<u8>|
            status_if(flag(mask, 0x02), rest).and(
                |status: u32, rest: Seq<u8>|
                    stamp_if(flag(mask, 0x04), rest).and(
                        |source_timestamp: Option<i64>, rest: Seq<u8>|
                            past_server_fields(mask, rest).and(
                                |past: (), rest: Seq<u8>|
                                    Parsed::Read(
                                        DataValueView { bytes, status, source_timestamp },
                                        rest,
                                    ),
                            ),
                    ),
            ),
    )
}

#[verifier::spinoff_prover]
#[verifier::rlimit(40)]
#[verifier::rlimit(40)]
proof fn lemma_kept_fields_cut(mask: u8, bytes: Seq<u8>, length: int)
    requires
        0 <= length <= bytes.len(),
    ensures
        follows(
            kept_fields(mask, bytes),
            kept_fields(mask, bytes.take(length)),
            bytes,
            length,
        ),
{
    assert(follows(
        variant_if(flag(mask, 0x01), bytes),
        variant_if(flag(mask, 0x01), bytes.take(length)),
        bytes,
        length,
    )) by {
        broadcast use {lemma_byte_cut, lemma_byte_string_cut};

    }
    if let Parsed::Read(_, second) = variant_if(flag(mask, 0x01), bytes) {
        let at = length - (bytes.len() - second.len());
        if at >= 0 {
            lemma_u32_cut(second, at);
            if let Parsed::Read(_, third) = status_if(flag(mask, 0x02), second) {
                let behind = at - (second.len() - third.len());
                if behind >= 0 {
                    lemma_i64_cut(third, behind);
                    if let Parsed::Read(_, last) = stamp_if(flag(mask, 0x04), third) {
                        let end = behind - (third.len() - last.len());
                        if end >= 0 {
                            lemma_server_fields_cut(mask, last, end);
                        }
                    }
                }
            }
        }
    }
}

/// What is kept of a request header, up to its handle.
#[verifier::opaque]
spec fn numbered_request(bytes: Seq<u8>) -> Parsed<(NodeIdView, i64, u32)> {
    node_id(bytes).and(
        |token: NodeIdView, rest: Seq<u8>|
    i64_le(rest).and(
        |timestamp: i64, rest: Seq<u8>|
    u32_le(rest).and(
        |handle: u32, rest: Seq<u8>|
    u32_le(rest).and(
        |diagnostics: u32, rest: Seq<u8>| Parsed::Read((token, timestamp, handle), rest),
    ))))
}

#[verifier::spinoff_prover]
#[verifier::rlimit(40)]
#[verifier::rlimit(40)]
proof fn lemma_numbered_request_cut(bytes: Seq<u8>, length: int)
    requires
        0 <= length <= bytes.len(),
    ensures
        follows(numbered_request(bytes), numbered_request(bytes.take(length)), bytes, length),
{
    broadcast use {lemma_i64_cut, lemma_node_cut, lemma_u32_cut};

    reveal(numbered_request);
}

/// What is kept of a request header behind its handle.
#[verifier::opaque]
spec fn behind_handle(bytes: Seq<u8>) -> Parsed<u32> {
    string(bytes).and(
        |audit: Option<Seq<char>>, rest: Seq<u8>|
    u32_le(rest).and(
        |timeout_hint: u32, rest: Seq<u8>|
    node_id(rest).and(
        |additional: NodeIdView, rest: Seq<u8>|
    byte(rest).and(
        |encoding: u8, rest: Seq<u8>|
            if encoding != 0 {
                Parsed::Failed(permanent("a request with an additional header"@), rest)
            } else {
                Parsed::Read(timeout_hint, rest)
            },
    ))))
}

#[verifier::spinoff_prover]
#[verifier::rlimit(40)]
#[verifier::rlimit(40)]
proof fn lemma_behind_handle_cut(bytes: Seq<u8>, length: int)
    requires
        0 <= length <= bytes.len(),
    ensures
        follows(behind_handle(bytes), behind_handle(bytes.take(length)), bytes, length),
{
    broadcast use {lemma_byte_cut, lemma_node_cut, lemma_string_cut, lemma_u32_cut};

    reveal(behind_handle);
}

proof fn lemma_request_header_parts(bytes: Seq<u8>)
    ensures
        request_header(bytes) == numbered_request(bytes).and(
            |kept: (NodeIdView, i64, u32), rest: Seq<u8>|
                behind_handle(rest).and(
                    |more: u32, rest: Seq<u8>| Parsed::Read(RequestHeaderView { token: kept.0, timestamp: kept.1, handle: kept.2, timeout_hint: more }, rest),
                ),
        ),
{
    reveal(request_header);
    reveal(numbered_request);
    reveal(behind_handle);
}

broadcast proof fn lemma_request_header_cut(bytes: Seq<u8>, length: int)
    requires
        0 <= length <= bytes.len(),
    ensures
        follows(request_header(bytes), #[trigger] request_header(bytes.take(length)), bytes, length),
{
    lemma_request_header_parts(bytes);
    lemma_request_header_parts(bytes.take(length));
    lemma_numbered_request_cut(bytes, length);
    if let Parsed::Read(_, rest) = numbered_request(bytes) {
        let behind = length - (bytes.len() - rest.len());
        if 0 <= behind <= rest.len() {
            lemma_behind_handle_cut(rest, behind);
        }
    }
}

/// What is kept of a response header.
#[verifier::opaque]
spec fn numbered_response(bytes: Seq<u8>) -> Parsed<ResponseHeader> {
    i64_le(bytes).and(
        |timestamp: i64, rest: Seq<u8>|
    u32_le(rest).and(
        |handle: u32, rest: Seq<u8>|
    u32_le(rest).and(
        |result: u32, rest: Seq<u8>|
            Parsed::Read(ResponseHeader { timestamp, handle, result }, rest),
    )))
}

#[verifier::rlimit(40)]
proof fn lemma_numbered_response_cut(bytes: Seq<u8>, length: int)
    requires
        0 <= length <= bytes.len(),
    ensures
        follows(numbered_response(bytes), numbered_response(bytes.take(length)), bytes, length),
{
    broadcast use {lemma_i64_cut, lemma_u32_cut};

    reveal(numbered_response);
}

/// Past what stands behind the result in a response header.
#[verifier::opaque]
spec fn behind_result(bytes: Seq<u8>) -> Parsed<()> {
    diagnostic_info(bytes).and(
        |diagnostics: (), rest: Seq<u8>|
    string_array(rest).and(
        |table: (), rest: Seq<u8>|
    node_id(rest).and(
        |additional: NodeIdView, rest: Seq<u8>|
    byte(rest).and(
        |encoding: u8, rest: Seq<u8>|
            if encoding != 0 {
                Parsed::Failed(permanent("a response with an additional header"@), rest)
            } else {
                Parsed::Read((), rest)
            },
    ))))
}

#[verifier::rlimit(40)]
proof fn lemma_behind_result_cut(bytes: Seq<u8>, length: int)
    requires
        0 <= length <= bytes.len(),
    ensures
        follows(behind_result(bytes), behind_result(bytes.take(length)), bytes, length),
{
    broadcast use {
        lemma_byte_cut,
        lemma_diagnostic_info_cut,
        lemma_node_cut,
        lemma_string_array_cut,
    };

    reveal(behind_result);
}

proof fn lemma_response_header_parts(bytes: Seq<u8>)
    ensures
        response_header(bytes) == numbered_response(bytes).and(
            |kept: ResponseHeader, rest: Seq<u8>|
                behind_result(rest).and(
                    |more: (), rest: Seq<u8>| Parsed::Read(kept, rest),
                ),
        ),
{
    reveal(response_header);
    reveal(numbered_response);
    reveal(behind_result);
}

broadcast proof fn lemma_response_header_cut(bytes: Seq<u8>, length: int)
    requires
        0 <= length <= bytes.len(),
    ensures
        follows(response_header(bytes), #[trigger] response_header(bytes.take(length)), bytes, length),
{
    lemma_response_header_parts(bytes);
    lemma_response_header_parts(bytes.take(length));
    lemma_numbered_response_cut(bytes, length);
    if let Parsed::Read(_, rest) = numbered_response(bytes) {
        let behind = length - (bytes.len() - rest.len());
        if 0 <= behind <= rest.len() {
            lemma_behind_result_cut(rest, behind);
        }
    }
}

/// Past the names of an application.
#[verifier::opaque]
spec fn named_application(bytes: Seq<u8>) -> Parsed<()> {
    string(bytes).and(
        |uri: Option<Seq<char>>, rest: Seq<u8>|
    string(rest).and(
        |product: Option<Seq<char>>, rest: Seq<u8>| localized_text(rest),
    ))
}

#[verifier::rlimit(40)]
proof fn lemma_named_application_cut(bytes: Seq<u8>, length: int)
    requires
        0 <= length <= bytes.len(),
    ensures
        follows(named_application(bytes), named_application(bytes.take(length)), bytes, length),
{
    broadcast use {lemma_localized_text_cut, lemma_string_cut};

    reveal(named_application);
}

/// Past what an application is and where it is found.
#[verifier::opaque]
spec fn found_application(bytes: Seq<u8>) -> Parsed<()> {
    u32_le(bytes).and(
        |kind: u32, rest: Seq<u8>|
    string(rest).and(
        |gateway: Option<Seq<char>>, rest: Seq<u8>|
    string(rest).and(
        |profile: Option<Seq<char>>, rest: Seq<u8>| string_array(rest),
    )))
}

#[verifier::rlimit(40)]
proof fn lemma_found_application_cut(bytes: Seq<u8>, length: int)
    requires
        0 <= length <= bytes.len(),
    ensures
        follows(found_application(bytes), found_application(bytes.take(length)), bytes, length),
{
    broadcast use {lemma_string_array_cut, lemma_string_cut, lemma_u32_cut};

    reveal(found_application);
}

proof fn lemma_application_parts(bytes: Seq<u8>)
    ensures
        application(bytes) == named_application(bytes).and(
            |kept: (), rest: Seq<u8>|
                found_application(rest).and(
                    |more: (), rest: Seq<u8>| Parsed::Read((), rest),
                ),
        ),
{
    reveal(application);
    reveal(named_application);
    reveal(found_application);
}

broadcast proof fn lemma_application_cut(bytes: Seq<u8>, length: int)
    requires
        0 <= length <= bytes.len(),
    ensures
        follows(application(bytes), #[trigger] application(bytes.take(length)), bytes, length),
{
    lemma_application_parts(bytes);
    lemma_application_parts(bytes.take(length));
    lemma_named_application_cut(bytes, length);
    if let Parsed::Read(_, rest) = named_application(bytes) {
        let behind = length - (bytes.len() - rest.len());
        if 0 <= behind <= rest.len() {
            lemma_found_application_cut(rest, behind);
        }
    }
}

/// One token policy: its id and its type.
#[verifier::opaque]
spec fn one_policy(bytes: Seq<u8>) -> Parsed<(Option<Seq<char>>, u32)> {
    string(bytes).and(
        |policy_id: Option<Seq<char>>, rest: Seq<u8>|
    u32_le(rest).and(
        |token_type: u32, rest: Seq<u8>|
    string(rest).and(
        |issued: Option<Seq<char>>, rest: Seq<u8>|
    string(rest).and(
        |issuer: Option<Seq<char>>, rest: Seq<u8>|
    string(rest).and(
        |security: Option<Seq<char>>, rest: Seq<u8>|
            Parsed::Read((policy_id, token_type), rest),
    )))))
}

#[verifier::rlimit(40)]
proof fn lemma_one_policy_cut(bytes: Seq<u8>, length: int)
    requires
        0 <= length <= bytes.len(),
    ensures
        follows(one_policy(bytes), one_policy(bytes.take(length)), bytes, length),
{
    broadcast use {lemma_string_cut, lemma_u32_cut};

    reveal(one_policy);
}

/// The policies of an endpoint, as they are read.
#[verifier::opaque]
spec fn some_policies(bytes: Seq<u8>, number: nat, found: Option<Seq<char>>) -> Parsed<
    Option<Seq<char>>,
> {
    policies(bytes, number, found)
}

proof fn lemma_some_policies_parts(bytes: Seq<u8>, number: nat, found: Option<Seq<char>>)
    ensures
        some_policies(bytes, 0, found) == Parsed::Read(found, bytes),
        some_policies(bytes, number + 1, found) == one_policy(bytes).and(
            |policy: (Option<Seq<char>>, u32), rest: Seq<u8>|
                some_policies(
                    rest,
                    number,
                    if policy.1 == 0 && found is None {
                        policy.0
                    } else {
                        found
                    },
                ),
        ),
{
    reveal(some_policies);
    reveal(one_policy);
}

broadcast proof fn lemma_some_policies_cut(
    bytes: Seq<u8>,
    number: nat,
    found: Option<Seq<char>>,
    length: int,
)
    requires
        0 <= length <= bytes.len(),
    ensures
        follows(
            some_policies(bytes, number, found),
            #[trigger] some_policies(bytes.take(length), number, found),
            bytes,
            length,
        ),
    decreases number,
{
    let before = (number - 1) as nat;
    lemma_some_policies_parts(bytes, before, found);
    lemma_some_policies_parts(bytes.take(length), before, found);
    if number > 0 {
        lemma_one_policy_cut(bytes, length);
        if let Parsed::Read(policy, rest) = one_policy(bytes) {
            let behind = length - (bytes.len() - rest.len());
            let now_found = if policy.1 == 0 && found is None {
                policy.0
            } else {
                found
            };
            if 0 <= behind <= rest.len() {
                lemma_some_policies_cut(rest, before, now_found, behind);
            }
        }
    }
}

/// What is kept of an endpoint, up to its policies.
#[verifier::opaque]
spec fn secured_endpoint(bytes: Seq<u8>) -> Parsed<(Seq<char>, Seq<char>)> {
    string_or_empty(bytes).and(
        |url: Seq<char>, rest: Seq<u8>|
    application(rest).and(
        |server: (), rest: Seq<u8>|
    byte_string(rest).and(
        |certificate: Option<Seq<u8>>, rest: Seq<u8>|
    u32_le(rest).and(
        |mode: u32, rest: Seq<u8>|
    string_or_empty(rest).and(
        |security_policy: Seq<char>, rest: Seq<u8>| Parsed::Read((url, security_policy), rest),
    )))))
}

#[verifier::rlimit(40)]
proof fn lemma_secured_endpoint_cut(bytes: Seq<u8>, length: int)
    requires
        0 <= length <= bytes.len(),
    ensures
        follows(secured_endpoint(bytes), secured_endpoint(bytes.take(length)), bytes, length),
{
    broadcast use {
        lemma_application_cut,
        lemma_byte_string_cut,
        lemma_string_or_empty_cut,
        lemma_u32_cut,
    };

    reveal(secured_endpoint);
}

/// The anonymous policy of an endpoint, past what stands behind it.
#[verifier::opaque]
spec fn from_policies(bytes: Seq<u8>) -> Parsed<Option<Seq<char>>> {
    count(bytes).and(
        |number: usize, rest: Seq<u8>|
    some_policies(rest, number as nat, None).and(
        |anonymous_policy: Option<Seq<char>>, rest: Seq<u8>|
    string(rest).and(
        |profile: Option<Seq<char>>, rest: Seq<u8>|
    byte(rest).and(
        |level: u8, rest: Seq<u8>| Parsed::Read(anonymous_policy, rest),
    ))))
}

#[verifier::rlimit(40)]
proof fn lemma_from_policies_cut(bytes: Seq<u8>, length: int)
    requires
        0 <= length <= bytes.len(),
    ensures
        follows(from_policies(bytes), from_policies(bytes.take(length)), bytes, length),
{
    broadcast use {lemma_byte_cut, lemma_count_cut, lemma_some_policies_cut, lemma_string_cut};

    reveal(from_policies);
}

proof fn lemma_endpoint_parts(bytes: Seq<u8>)
    ensures
        endpoint(bytes) == secured_endpoint(bytes).and(
            |kept: (Seq<char>, Seq<char>), rest: Seq<u8>|
                from_policies(rest).and(
                    |more: Option<Seq<char>>, rest: Seq<u8>| Parsed::Read(EndpointView { url: kept.0, security_policy: kept.1, anonymous_policy: more }, rest),
                ),
        ),
{
    reveal(endpoint);
    reveal(secured_endpoint);
    reveal(from_policies);
    reveal(some_policies);
}

broadcast proof fn lemma_endpoint_cut(bytes: Seq<u8>, length: int)
    requires
        0 <= length <= bytes.len(),
    ensures
        follows(endpoint(bytes), #[trigger] endpoint(bytes.take(length)), bytes, length),
{
    lemma_endpoint_parts(bytes);
    lemma_endpoint_parts(bytes.take(length));
    lemma_secured_endpoint_cut(bytes, length);
    if let Parsed::Read(_, rest) = secured_endpoint(bytes) {
        let behind = length - (bytes.len() - rest.len());
        if 0 <= behind <= rest.len() {
            lemma_from_policies_cut(rest, behind);
        }
    }
}

broadcast proof fn lemma_endpoints_cut(
    bytes: Seq<u8>,
    number: nat,
    before: Seq<EndpointView>,
    length: int,
)
    requires
        0 <= length <= bytes.len(),
    ensures
        follows(
            endpoints(bytes, number, before),
            #[trigger] endpoints(bytes.take(length), number, before),
            bytes,
            length,
        ),
    decreases number,
{
    if number > 0 {
        lemma_endpoint_cut(bytes, length);
        if let Parsed::Read(described, rest) = endpoint(bytes) {
            let behind = length - (bytes.len() - rest.len());
            if 0 <= behind <= rest.len() {
                lemma_endpoints_cut(rest, (number - 1) as nat, before.push(described), behind);
            }
        }
    }
}

broadcast proof fn lemma_certificates_cut(bytes: Seq<u8>, number: nat, length: int)
    requires
        0 <= length <= bytes.len(),
    ensures
        follows(
            certificates(bytes, number),
            #[trigger] certificates(bytes.take(length), number),
            bytes,
            length,
        ),
    decreases number,
{
    if number > 0 {
        lemma_byte_string_cut(bytes, length);
        if let Parsed::Read(_, second) = byte_string(bytes) {
            let at = length - (bytes.len() - second.len());
            if 0 <= at <= second.len() {
                lemma_byte_string_cut(second, at);
                if let Parsed::Read(_, rest) = byte_string(second) {
                    let behind = at - (second.len() - rest.len());
                    if 0 <= behind <= rest.len() {
                        lemma_certificates_cut(rest, (number - 1) as nat, behind);
                    }
                }
            }
        }
    }
}

#[verifier::spinoff_prover]
#[verifier::rlimit(40)]
#[verifier::rlimit(40)]
broadcast proof fn lemma_behind_endpoints_cut(bytes: Seq<u8>, length: int)
    requires
        0 <= length <= bytes.len(),
    ensures
        follows(
            behind_endpoints(bytes),
            #[trigger] behind_endpoints(bytes.take(length)),
            bytes,
            length,
        ),
{
    broadcast use {
        lemma_byte_string_cut,
        lemma_certificates_cut,
        lemma_count_cut,
        lemma_string_cut,
        lemma_u32_cut,
    };

    reveal(behind_endpoints);
}

#[verifier::rlimit(40)]
broadcast proof fn lemma_identity_cut(bytes: Seq<u8>, length: int)
    requires
        0 <= length <= bytes.len(),
    ensures
        follows(identity(bytes), #[trigger] identity(bytes.take(length)), bytes, length),
{
    broadcast use {lemma_byte_cut, lemma_byte_string_cut, lemma_node_cut};

    reveal(identity);
}

/// What is kept of a request for a session, up to its name.
#[verifier::opaque]
spec fn named_session(bytes: Seq<u8>) -> Parsed<CreateSessionView> {
    request_header(bytes).and(
        |header: RequestHeaderView, rest: Seq<u8>|
    application(rest).and(
        |client: (), rest: Seq<u8>|
    string(rest).and(
        |server: Option<Seq<char>>, rest: Seq<u8>|
    string_or_empty(rest).and(
        |endpoint_url: Seq<char>, rest: Seq<u8>|
    string_or_empty(rest).and(
        |session_name: Seq<char>, rest: Seq<u8>|
            Parsed::Read(CreateSessionView { header, endpoint_url, session_name }, rest),
    )))))
}

#[verifier::rlimit(40)]
proof fn lemma_named_session_cut(bytes: Seq<u8>, length: int)
    requires
        0 <= length <= bytes.len(),
    ensures
        follows(named_session(bytes), named_session(bytes.take(length)), bytes, length),
{
    broadcast use {
        lemma_application_cut,
        lemma_request_header_cut,
        lemma_string_cut,
        lemma_string_or_empty_cut,
    };

    reveal(named_session);
}

/// Past what stands behind the name of a session that is asked for.
#[verifier::opaque]
spec fn behind_name(bytes: Seq<u8>) -> Parsed<()> {
    byte_string(bytes).and(
        |nonce: Option<Seq<u8>>, rest: Seq<u8>|
    byte_string(rest).and(
        |certificate: Option<Seq<u8>>, rest: Seq<u8>|
    u64_le(rest).and(
        |timeout: u64, rest: Seq<u8>|
    u32_le(rest).and(
        |max_response: u32, rest: Seq<u8>| Parsed::Read((), rest),
    ))))
}

#[verifier::rlimit(40)]
proof fn lemma_behind_name_cut(bytes: Seq<u8>, length: int)
    requires
        0 <= length <= bytes.len(),
    ensures
        follows(behind_name(bytes), behind_name(bytes.take(length)), bytes, length),
{
    broadcast use {lemma_byte_string_cut, lemma_u32_cut, lemma_u64_cut};

    reveal(behind_name);
}

/// The session that is asked for, as it is read.
#[verifier::opaque]
spec fn asked_session(bytes: Seq<u8>) -> Parsed<CreateSessionView> {
    create_session(bytes)
}

proof fn lemma_asked_session_parts(bytes: Seq<u8>)
    ensures
        asked_session(bytes) == named_session(bytes).and(
            |kept: CreateSessionView, rest: Seq<u8>|
                behind_name(rest).and(
                    |more: (), rest: Seq<u8>| Parsed::Read(kept, rest),
                ),
        ),
{
    reveal(asked_session);
    reveal(named_session);
    reveal(behind_name);
}

proof fn lemma_asked_session_cut(bytes: Seq<u8>, length: int)
    requires
        0 <= length <= bytes.len(),
    ensures
        follows(asked_session(bytes), asked_session(bytes.take(length)), bytes, length),
{
    lemma_asked_session_parts(bytes);
    lemma_asked_session_parts(bytes.take(length));
    lemma_named_session_cut(bytes, length);
    if let Parsed::Read(_, rest) = named_session(bytes) {
        let behind = length - (bytes.len() - rest.len());
        if 0 <= behind <= rest.len() {
            lemma_behind_name_cut(rest, behind);
        }
    }
}

/// The header of an activate, and how many certificates it has.
#[verifier::opaque]
spec fn signed_request(bytes: Seq<u8>) -> Parsed<(RequestHeaderView, usize)> {
    request_header(bytes).and(
        |header: RequestHeaderView, rest: Seq<u8>|
    string(rest).and(
        |algorithm: Option<Seq<char>>, rest: Seq<u8>|
    byte_string(rest).and(
        |signature: Option<Seq<u8>>, rest: Seq<u8>|
    count(rest).and(
        |number: usize, rest: Seq<u8>| Parsed::Read((header, number), rest),
    ))))
}

#[verifier::rlimit(40)]
proof fn lemma_signed_request_cut(bytes: Seq<u8>, length: int)
    requires
        0 <= length <= bytes.len(),
    ensures
        follows(signed_request(bytes), signed_request(bytes.take(length)), bytes, length),
{
    broadcast use {
        lemma_byte_string_cut,
        lemma_count_cut,
        lemma_request_header_cut,
        lemma_string_cut,
    };

    reveal(signed_request);
}

/// The identity behind the certificates and locales of an activate.
#[verifier::opaque]
spec fn past_certificates(number: usize, bytes: Seq<u8>) -> Parsed<Seq<char>> {
    certificates(bytes, number as nat).and(
        |certificates: (), rest: Seq<u8>|
    string_array(rest).and(
        |locales: (), rest: Seq<u8>|
    identity(rest).and(
        |policy_id: Seq<char>, rest: Seq<u8>|
    string(rest).and(
        |token_algorithm: Option<Seq<char>>, rest: Seq<u8>|
    byte_string(rest).and(
        |token_signature: Option<Seq<u8>>, rest: Seq<u8>| Parsed::Read(policy_id, rest),
    )))))
}

#[verifier::rlimit(40)]
proof fn lemma_past_certificates_cut(number: usize, bytes: Seq<u8>, length: int)
    requires
        0 <= length <= bytes.len(),
    ensures
        follows(past_certificates(number, bytes), past_certificates(number, bytes.take(length)), bytes, length),
{
    broadcast use {
        lemma_byte_string_cut,
        lemma_certificates_cut,
        lemma_identity_cut,
        lemma_string_array_cut,
        lemma_string_cut,
    };

    reveal(past_certificates);
}

/// The identity that is presented, as it is read.
#[verifier::opaque]
spec fn presented_identity(bytes: Seq<u8>) -> Parsed<ActivateSessionView> {
    activate_session(bytes)
}

proof fn lemma_presented_identity_parts(bytes: Seq<u8>)
    ensures
        presented_identity(bytes) == signed_request(bytes).and(
            |kept: (RequestHeaderView, usize), rest: Seq<u8>|
                past_certificates(kept.1, rest).and(
                    |more: Seq<char>, rest: Seq<u8>| Parsed::Read(ActivateSessionView { header: kept.0, policy_id: more }, rest),
                ),
        ),
{
    reveal(presented_identity);
    reveal(signed_request);
    reveal(past_certificates);
}

proof fn lemma_presented_identity_cut(bytes: Seq<u8>, length: int)
    requires
        0 <= length <= bytes.len(),
    ensures
        follows(presented_identity(bytes), presented_identity(bytes.take(length)), bytes, length),
{
    lemma_presented_identity_parts(bytes);
    lemma_presented_identity_parts(bytes.take(length));
    lemma_signed_request_cut(bytes, length);
    if let Parsed::Read(kept, rest) = signed_request(bytes) {
        let behind = length - (bytes.len() - rest.len());
        if 0 <= behind <= rest.len() {
            lemma_past_certificates_cut(kept.1, rest, behind);
        }
    }
}

/// The header of a read, and how many nodes it reads.
#[verifier::opaque]
spec fn counted_read(bytes: Seq<u8>) -> Parsed<(RequestHeaderView, usize)> {
    request_header(bytes).and(
        |header: RequestHeaderView, rest: Seq<u8>|
    u64_le(rest).and(
        |age: u64, rest: Seq<u8>|
    u32_le(rest).and(
        |timestamps: u32, rest: Seq<u8>|
    count(rest).and(
        |number: usize, rest: Seq<u8>| Parsed::Read((header, number), rest),
    ))))
}

#[verifier::rlimit(40)]
proof fn lemma_counted_read_cut(bytes: Seq<u8>, length: int)
    requires
        0 <= length <= bytes.len(),
    ensures
        follows(counted_read(bytes), counted_read(bytes.take(length)), bytes, length),
{
    broadcast use {lemma_count_cut, lemma_request_header_cut, lemma_u32_cut, lemma_u64_cut};

    reveal(counted_read);
}

/// The node of a read of a value.
#[verifier::opaque]
spec fn read_of_value(number: usize, bytes: Seq<u8>) -> Parsed<NodeIdView> {
    if number != 1 {
        Parsed::Failed(permanent("a read of other than one node"@), bytes)
    } else {
    node_id(bytes).and(
        |node: NodeIdView, rest: Seq<u8>|
    u32_le(rest).and(
        |attribute: u32, rest: Seq<u8>|
    if attribute != VALUE_ATTRIBUTE {
        Parsed::Failed(permanent("a read of an attribute other than the value"@), rest)
    } else {
    string(rest).and(
        |range: Option<Seq<char>>, rest: Seq<u8>|
    u16_le(rest).and(
        |encoding_namespace: u16, rest: Seq<u8>|
    string(rest).and(
        |encoding: Option<Seq<char>>, rest: Seq<u8>| Parsed::Read(node, rest),
    )))}))}
}

#[verifier::rlimit(40)]
proof fn lemma_read_of_value_cut(number: usize, bytes: Seq<u8>, length: int)
    requires
        0 <= length <= bytes.len(),
    ensures
        follows(read_of_value(number, bytes), read_of_value(number, bytes.take(length)), bytes, length),
{
    broadcast use {lemma_node_cut, lemma_string_cut, lemma_u16_cut, lemma_u32_cut};

    reveal(read_of_value);
}

/// The read that is asked for, as it is read.
#[verifier::opaque]
spec fn asked_read(bytes: Seq<u8>) -> Parsed<ReadView> {
    read_request(bytes)
}

proof fn lemma_asked_read_parts(bytes: Seq<u8>)
    ensures
        asked_read(bytes) == counted_read(bytes).and(
            |kept: (RequestHeaderView, usize), rest: Seq<u8>|
                read_of_value(kept.1, rest).and(
                    |more: NodeIdView, rest: Seq<u8>| Parsed::Read(ReadView { header: kept.0, node: more }, rest),
                ),
        ),
{
    reveal(asked_read);
    reveal(counted_read);
    reveal(read_of_value);
}

proof fn lemma_asked_read_cut(bytes: Seq<u8>, length: int)
    requires
        0 <= length <= bytes.len(),
    ensures
        follows(asked_read(bytes), asked_read(bytes.take(length)), bytes, length),
{
    lemma_asked_read_parts(bytes);
    lemma_asked_read_parts(bytes.take(length));
    lemma_counted_read_cut(bytes, length);
    if let Parsed::Read(kept, rest) = counted_read(bytes) {
        let behind = length - (bytes.len() - rest.len());
        if 0 <= behind <= rest.len() {
            lemma_read_of_value_cut(kept.1, rest, behind);
        }
    }
}

/// The header of a write, and how many nodes it writes.
#[verifier::opaque]
spec fn counted_write(bytes: Seq<u8>) -> Parsed<(RequestHeaderView, usize)> {
    request_header(bytes).and(
        |header: RequestHeaderView, rest: Seq<u8>|
    count(rest).and(
        |number: usize, rest: Seq<u8>| Parsed::Read((header, number), rest),
    ))
}

#[verifier::rlimit(40)]
proof fn lemma_counted_write_cut(bytes: Seq<u8>, length: int)
    requires
        0 <= length <= bytes.len(),
    ensures
        follows(counted_write(bytes), counted_write(bytes.take(length)), bytes, length),
{
    broadcast use {lemma_count_cut, lemma_request_header_cut};

    reveal(counted_write);
}

/// The node of a write of a value.
#[verifier::opaque]
spec fn write_of_value(number: usize, bytes: Seq<u8>) -> Parsed<NodeIdView> {
    if number != 1 {
        Parsed::Failed(permanent("a write of other than one node"@), bytes)
    } else {
    node_id(bytes).and(
        |node: NodeIdView, rest: Seq<u8>|
    u32_le(rest).and(
        |attribute: u32, rest: Seq<u8>|
    if attribute != VALUE_ATTRIBUTE {
        Parsed::Failed(permanent("a write of an attribute other than the value"@), rest)
    } else {
    string(rest).and(
        |range: Option<Seq<char>>, rest: Seq<u8>| Parsed::Read(node, rest),
    )}))}
}

#[verifier::rlimit(40)]
proof fn lemma_write_of_value_cut(number: usize, bytes: Seq<u8>, length: int)
    requires
        0 <= length <= bytes.len(),
    ensures
        follows(write_of_value(number, bytes), write_of_value(number, bytes.take(length)), bytes, length),
{
    broadcast use {lemma_node_cut, lemma_string_cut, lemma_u32_cut};

    reveal(write_of_value);
}

/// The target of the write that is asked for, as it is read.
#[verifier::opaque]
spec fn asked_target(bytes: Seq<u8>) -> Parsed<(RequestHeaderView, NodeIdView)> {
    write_target(bytes)
}

proof fn lemma_asked_target_parts(bytes: Seq<u8>)
    ensures
        asked_target(bytes) == counted_write(bytes).and(
            |kept: (RequestHeaderView, usize), rest: Seq<u8>|
                write_of_value(kept.1, rest).and(
                    |more: NodeIdView, rest: Seq<u8>| Parsed::Read((kept.0, more), rest),
                ),
        ),
{
    reveal(asked_target);
    reveal(counted_write);
    reveal(write_of_value);
}

proof fn lemma_asked_target_cut(bytes: Seq<u8>, length: int)
    requires
        0 <= length <= bytes.len(),
    ensures
        follows(asked_target(bytes), asked_target(bytes.take(length)), bytes, length),
{
    lemma_asked_target_parts(bytes);
    lemma_asked_target_parts(bytes.take(length));
    lemma_counted_write_cut(bytes, length);
    if let Parsed::Read(kept, rest) = counted_write(bytes) {
        let behind = length - (bytes.len() - rest.len());
        if 0 <= behind <= rest.len() {
            lemma_write_of_value_cut(kept.1, rest, behind);
        }
    }
}

/// What is kept of a session that was created, up to its endpoints.
#[verifier::opaque]
spec fn before_endpoints(bytes: Seq<u8>) -> Parsed<(ResponseHeader, NodeIdView, NodeIdView)> {
    response_header(bytes).and(
        |header: ResponseHeader, rest: Seq<u8>|
    node_id(rest).and(
        |session_id: NodeIdView, rest: Seq<u8>|
    node_id(rest).and(
        |token: NodeIdView, rest: Seq<u8>|
    u64_le(rest).and(
        |timeout: u64, rest: Seq<u8>|
    byte_string(rest).and(
        |nonce: Option<Seq<u8>>, rest: Seq<u8>|
    byte_string(rest).and(
        |certificate: Option<Seq<u8>>, rest: Seq<u8>|
            Parsed::Read((header, session_id, token), rest),
    ))))))
}

#[verifier::spinoff_prover]
#[verifier::rlimit(40)]
#[verifier::rlimit(40)]
proof fn lemma_before_endpoints_cut(bytes: Seq<u8>, length: int)
    requires
        0 <= length <= bytes.len(),
    ensures
        follows(before_endpoints(bytes), before_endpoints(bytes.take(length)), bytes, length),
{
    broadcast use {
        lemma_byte_string_cut,
        lemma_node_cut,
        lemma_response_header_cut,
        lemma_u64_cut,
    };

    reveal(before_endpoints);
}

/// The endpoints of a session that was created, past what stands behind them.
#[verifier::opaque]
spec fn from_endpoints(bytes: Seq<u8>) -> Parsed<Seq<EndpointView>> {
    count(bytes).and(
        |number: usize, rest: Seq<u8>|
    endpoints(rest, number as nat, Seq::empty()).and(
        |endpoints: Seq<EndpointView>, rest: Seq<u8>|
    behind_endpoints(rest).and(
        |past: (), rest: Seq<u8>| Parsed::Read(endpoints, rest),
    )))
}

#[verifier::rlimit(40)]
proof fn lemma_from_endpoints_cut(bytes: Seq<u8>, length: int)
    requires
        0 <= length <= bytes.len(),
    ensures
        follows(from_endpoints(bytes), from_endpoints(bytes.take(length)), bytes, length),
{
    broadcast use {lemma_behind_endpoints_cut, lemma_count_cut, lemma_endpoints_cut};

    reveal(from_endpoints);
}

/// The session that was created, as it is read.
#[verifier::opaque]
spec fn given_session(bytes: Seq<u8>) -> Parsed<SessionCreatedView> {
    session_created(bytes)
}

proof fn lemma_given_session_parts(bytes: Seq<u8>)
    ensures
        given_session(bytes) == before_endpoints(bytes).and(
            |kept: (ResponseHeader, NodeIdView, NodeIdView), rest: Seq<u8>|
                from_endpoints(rest).and(
                    |more: Seq<EndpointView>, rest: Seq<u8>| Parsed::Read(SessionCreatedView { header: kept.0, session_id: kept.1, token: kept.2, endpoints: more }, rest),
                ),
        ),
{
    reveal(given_session);
    reveal(before_endpoints);
    reveal(from_endpoints);
}

proof fn lemma_given_session_cut(bytes: Seq<u8>, length: int)
    requires
        0 <= length <= bytes.len(),
    ensures
        follows(given_session(bytes), given_session(bytes.take(length)), bytes, length),
{
    lemma_given_session_parts(bytes);
    lemma_given_session_parts(bytes.take(length));
    lemma_before_endpoints_cut(bytes, length);
    if let Parsed::Read(_, rest) = before_endpoints(bytes) {
        let behind = length - (bytes.len() - rest.len());
        if 0 <= behind <= rest.len() {
            lemma_from_endpoints_cut(rest, behind);
        }
    }
}

/// A field of which a byte is missing is a failure.
pub proof fn law_cut_field_is_an_error(bytes: Seq<u8>, length: int)
    requires
        0 <= length <= bytes.len(),
    ensures
        follows(boolean(bytes), boolean(bytes.take(length)), bytes, length),
        follows(byte_string(bytes), byte_string(bytes.take(length)), bytes, length),
        follows(string(bytes), string(bytes.take(length)), bytes, length),
        follows(count(bytes), count(bytes.take(length)), bytes, length),
        follows(node_id(bytes), node_id(bytes.take(length)), bytes, length),
        follows(localized_text(bytes), localized_text(bytes.take(length)), bytes, length),
        follows(diagnostic_info(bytes), diagnostic_info(bytes.take(length)), bytes, length),
        follows(diagnostic_array(bytes), diagnostic_array(bytes.take(length)), bytes, length),
        follows(string_array(bytes), string_array(bytes.take(length)), bytes, length),
        follows(data_value(bytes), data_value(bytes.take(length)), bytes, length),
        follows(body_type(bytes), body_type(bytes.take(length)), bytes, length),
{
    broadcast use {
        group_fields_cut,
        lemma_localized_text_cut,
        lemma_diagnostic_info_cut,
        lemma_diagnostic_array_cut,
        lemma_string_array_cut,
        lemma_data_value_cut,
    };

}

/// A message of the greeting of which a byte is missing is a failure.
pub proof fn law_cut_greeting_is_an_error(bytes: Seq<u8>, length: int)
    requires
        0 <= length <= bytes.len(),
    ensures
        follows(limits(bytes), limits(bytes.take(length)), bytes, length),
        follows(hello(bytes), hello(bytes.take(length)), bytes, length),
        follows(acknowledge(bytes), acknowledge(bytes.take(length)), bytes, length),
        follows(fault(bytes), fault(bytes.take(length)), bytes, length),
{
    broadcast use {lemma_u32_cut, lemma_string_or_empty_cut};

}

/// A request of which a byte is missing is a failure.
pub proof fn law_cut_request_is_an_error(bytes: Seq<u8>, length: int)
    requires
        0 <= length <= bytes.len(),
    ensures
        follows(request_header(bytes), request_header(bytes.take(length)), bytes, length),
        follows(open_channel(bytes), open_channel(bytes.take(length)), bytes, length),
        follows(create_session(bytes), create_session(bytes.take(length)), bytes, length),
        follows(activate_session(bytes), activate_session(bytes.take(length)), bytes, length),
        follows(read_request(bytes), read_request(bytes.take(length)), bytes, length),
        follows(write_target(bytes), write_target(bytes.take(length)), bytes, length),
        follows(write_request(bytes), write_request(bytes.take(length)), bytes, length),
{
    lemma_request_header_cut(bytes, length);
    lemma_open_channel_cut(bytes, length);
    assert(follows(create_session(bytes), create_session(bytes.take(length)), bytes, length)) by {
        lemma_asked_session_cut(bytes, length);
        reveal(asked_session);
    }
    assert(follows(activate_session(bytes), activate_session(bytes.take(length)), bytes, length))
        by {
        lemma_presented_identity_cut(bytes, length);
        reveal(presented_identity);
    }
    assert(follows(read_request(bytes), read_request(bytes.take(length)), bytes, length)) by {
        lemma_asked_read_cut(bytes, length);
        reveal(asked_read);
    }
    assert(follows(write_target(bytes), write_target(bytes.take(length)), bytes, length)) by {
        lemma_asked_target_cut(bytes, length);
        reveal(asked_target);
    }
    if let Parsed::Read(_, rest) = write_target(bytes) {
        let behind = length - (bytes.len() - rest.len());
        if 0 <= behind <= rest.len() {
            lemma_data_value_cut(rest, behind);
        }
    }
}

#[verifier::rlimit(40)]
proof fn lemma_open_channel_cut(bytes: Seq<u8>, length: int)
    requires
        0 <= length <= bytes.len(),
    ensures
        follows(open_channel(bytes), open_channel(bytes.take(length)), bytes, length),
{
    broadcast use {lemma_byte_string_cut, lemma_request_header_cut, lemma_u32_cut};

}

/// A response of which a byte is missing is a failure.
pub proof fn law_cut_response_is_an_error(bytes: Seq<u8>, length: int)
    requires
        0 <= length <= bytes.len(),
    ensures
        follows(response_header(bytes), response_header(bytes.take(length)), bytes, length),
        follows(channel_opened(bytes), channel_opened(bytes.take(length)), bytes, length),
        follows(session_created(bytes), session_created(bytes.take(length)), bytes, length),
        follows(read_result(bytes), read_result(bytes.take(length)), bytes, length),
        follows(write_result(bytes), write_result(bytes.take(length)), bytes, length),
{
    lemma_response_header_cut(bytes, length);
    lemma_channel_opened_cut(bytes, length);
    assert(follows(session_created(bytes), session_created(bytes.take(length)), bytes, length)) by {
        lemma_given_session_cut(bytes, length);
        reveal(given_session);
    }
    lemma_results_cut(bytes, length);
}

#[verifier::rlimit(40)]
proof fn lemma_channel_opened_cut(bytes: Seq<u8>, length: int)
    requires
        0 <= length <= bytes.len(),
    ensures
        follows(channel_opened(bytes), channel_opened(bytes.take(length)), bytes, length),
{
    broadcast use {
        lemma_byte_string_cut,
        lemma_i64_cut,
        lemma_response_header_cut,
        lemma_u32_cut,
    };

}

/// The header of a response, and how many results it has.
#[verifier::opaque]
spec fn counted_response(bytes: Seq<u8>) -> Parsed<(ResponseHeader, usize)> {
    response_header(bytes).and(
        |header: ResponseHeader, rest: Seq<u8>|
    count(rest).and(
        |number: usize, rest: Seq<u8>| Parsed::Read((header, number), rest),
    ))
}

#[verifier::rlimit(40)]
proof fn lemma_counted_response_cut(bytes: Seq<u8>, length: int)
    requires
        0 <= length <= bytes.len(),
    ensures
        follows(counted_response(bytes), counted_response(bytes.take(length)), bytes, length),
{
    broadcast use {lemma_count_cut, lemma_response_header_cut};

    reveal(counted_response);
}

#[verifier::rlimit(40)]
proof fn lemma_results_cut(bytes: Seq<u8>, length: int)
    requires
        0 <= length <= bytes.len(),
    ensures
        follows(read_result(bytes), read_result(bytes.take(length)), bytes, length),
        follows(write_result(bytes), write_result(bytes.take(length)), bytes, length),
{
    reveal(counted_response);
    lemma_counted_response_cut(bytes, length);
    if let Parsed::Read(_, rest) = counted_response(bytes) {
        let at = length - (bytes.len() - rest.len());
        if 0 <= at <= rest.len() {
            lemma_data_value_cut(rest, at);
            if let Parsed::Read(_, last) = data_value(rest) {
                let behind = at - (rest.len() - last.len());
                if 0 <= behind <= last.len() {
                    lemma_diagnostic_array_cut(last, behind);
                }
            }
            lemma_u32_cut(rest, at);
            if let Parsed::Read(_, last) = u32_le(rest) {
                let behind = at - (rest.len() - last.len());
                if 0 <= behind <= last.len() {
                    lemma_diagnostic_array_cut(last, behind);
                }
            }
        }
    }
}

} // verus!
