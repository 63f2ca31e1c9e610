//! What each message is on the wire, byte for byte: the fields that are always
//! the same as the bytes they are, and the rest where they stand.

use vstd::prelude::*;

use crate::attribute::{
    read_bytes, read_result_bytes, write_bytes, write_result_bytes, ReadResultView, ReadView,
    WriteResult, WriteView,
};
use crate::channel::{
    chunk_bytes, chunk_head_bytes, chunks, hello_bytes, limits_bytes, raw_bytes, FaultView,
    HelloView, Limits, RawView, SecureView, OPEN,
};
use crate::codec::{
    i32_bytes, i64_bytes, law_least_significant_byte_is_first,
    law_negative_number_is_its_complement, lemma_join, u16_bytes, u32_bytes, u64_bytes,
};
use crate::endpoint::{
    activate_session_bytes, application_bytes, close_session_bytes, create_session_bytes,
    endpoint_bytes, endpoints_bytes, policies_bytes, session_activated_bytes, session_closed_bytes,
    session_created_bytes, ActivateSessionView, CreateSessionView, EndpointView, SessionCreatedView,
    SESSION_TIMEOUT,
};
use crate::node::{law_node_takes_one_of_four_forms, node_bytes, NodeIdView};
use crate::service::{
    body_bytes, channel_opened_bytes, open_channel_bytes, request_header_bytes,
    response_header_bytes, ChannelOpened, OpenChannelView, RequestHeaderView, ResponseHeader,
};
use crate::wire::{
    boolean_bytes, byte_string_bytes, law_strings_stand_behind_their_length, localized_text_bytes,
    string_bytes, value_bytes,
};

verus! {

/// The bytes of the numbers and absent strings that messages are made of.
proof fn lemma_fixed_fields()
    ensures
        u16_bytes(0) == seq![0u8, 0],
        u32_bytes(0) == seq![0u8, 0, 0, 0],
        u32_bytes(1) == seq![1u8, 0, 0, 0],
        u32_bytes(13) == seq![13u8, 0, 0, 0],
        i32_bytes(0) == seq![0u8, 0, 0, 0],
        i32_bytes(1) == seq![1u8, 0, 0, 0],
        u64_bytes(0) == seq![0u8, 0, 0, 0, 0, 0, 0, 0],
        u64_bytes(SESSION_TIMEOUT) == seq![0u8, 0, 0, 0, 0, 0x4c, 0xed, 0x40],
        string_bytes(None) == seq![0xffu8, 0xff, 0xff, 0xff],
        byte_string_bytes(None) == seq![0xffu8, 0xff, 0xff, 0xff],
        boolean_bytes(true) == seq![1u8],
        node_bytes(NodeIdView::Numeric { namespace: 0, id: 0 }) == seq![0u8, 0],
{
    law_least_significant_byte_is_first(0, 0, 0);
    law_least_significant_byte_is_first(0, 1, SESSION_TIMEOUT);
    law_least_significant_byte_is_first(0, 13, 0);
    law_least_significant_byte_is_first(0, 0x40ED_4C00, 0);
    law_negative_number_is_its_complement(0, 0);
    law_negative_number_is_its_complement(1, 0);
    law_node_takes_one_of_four_forms(0, 0, Seq::empty());
    law_strings_stand_behind_their_length(Seq::empty(), Seq::empty());
    assert(u64_bytes(0) =~= seq![0u8, 0, 0, 0, 0, 0, 0, 0]);
    assert(u64_bytes(SESSION_TIMEOUT) =~= seq![0u8, 0, 0, 0, 0, 0x4c, 0xed, 0x40]);
    assert(boolean_bytes(true) =~= seq![1u8]);
}

proof fn lemma_type(id: u32)
    requires
        256 <= id < 65_536,
    ensures
        body_bytes(id) == seq![1u8, 0, (id % 256) as u8, (id / 256) as u8],
{
    law_node_takes_one_of_four_forms(0, id, Seq::empty());
}

/// A request header is the token, the time, the handle, no diagnostics asked
/// for, no audit entry, the hint, and no additional header.
pub proof fn law_request_header_layout(header: RequestHeaderView)
    ensures
        request_header_bytes(header) == node_bytes(header.token) + (i64_bytes(header.timestamp) + (
        u32_bytes(header.handle) + (seq![0u8, 0, 0, 0, 0xff, 0xff, 0xff, 0xff] + (u32_bytes(
            header.timeout_hint,
        ) + seq![0u8, 0, 0])))),
{
    reveal(request_header_bytes);
    lemma_fixed_fields();
    assert(request_header_bytes(header) =~= node_bytes(header.token) + (i64_bytes(
        header.timestamp,
    ) + (u32_bytes(header.handle) + (seq![0u8, 0, 0, 0, 0xff, 0xff, 0xff, 0xff] + (u32_bytes(
        header.timeout_hint,
    ) + seq![0u8, 0, 0])))));
}

/// A response header is the time, the handle, the result, no diagnostics, no
/// strings, and no additional header.
pub proof fn law_response_header_layout(header: ResponseHeader)
    ensures
        response_header_bytes(header) == i64_bytes(header.timestamp) + (u32_bytes(header.handle) + (
        u32_bytes(header.result) + seq![0u8, 0, 0, 0, 0, 0, 0, 0])),
{
    reveal(response_header_bytes);
    lemma_fixed_fields();
    assert(response_header_bytes(header) =~= i64_bytes(header.timestamp) + (u32_bytes(
        header.handle,
    ) + (u32_bytes(header.result) + seq![0u8, 0, 0, 0, 0, 0, 0, 0])));
}

/// An open request is type 446 of protocol version zero, issues a token, asks
/// for mode None, and has no nonce.
pub proof fn law_open_channel_layout(open: OpenChannelView)
    ensures
        open_channel_bytes(open) == seq![1u8, 0, 0xbe, 1] + (request_header_bytes(open.header) + (
        seq![0u8, 0, 0, 0, 0, 0, 0, 0, 1, 0, 0, 0, 0xff, 0xff, 0xff, 0xff] + u32_bytes(
            open.requested_lifetime,
        ))),
{
    lemma_fixed_fields();
    lemma_type(446);
    assert(open_channel_bytes(open) =~= seq![1u8, 0, 0xbe, 1] + (request_header_bytes(open.header)
        + (seq![0u8, 0, 0, 0, 0, 0, 0, 0, 1, 0, 0, 0, 0xff, 0xff, 0xff, 0xff] + u32_bytes(
        open.requested_lifetime,
    ))));
}

/// An open response is type 449 of protocol version zero: the channel, its
/// token, when the answer was made, how long the token lasts, and no nonce.
pub proof fn law_channel_opened_layout(opened: ChannelOpened)
    ensures
        channel_opened_bytes(opened) == seq![1u8, 0, 0xc1, 1] + (response_header_bytes(
            opened.header,
        ) + (seq![0u8, 0, 0, 0] + (u32_bytes(opened.channel_id) + (u32_bytes(opened.token_id) + (
        i64_bytes(opened.header.timestamp) + (u32_bytes(opened.lifetime) + seq![
            0xffu8,
            0xff,
            0xff,
            0xff,
        ])))))),
{
    lemma_fixed_fields();
    lemma_type(449);
}

/// A close of the channel is type 452 and its header, a fault type 397 and its
/// header, a close of a session type 473, its header and that subscriptions
/// go too, and the answer to that type 476 and its header.
pub proof fn law_closes_and_faults_layout(request: RequestHeaderView, response: ResponseHeader)
    ensures
        body_bytes(crate::service::CLOSE_CHANNEL_REQUEST) == seq![1u8, 0, 0xc4, 1],
        crate::service::fault_bytes(response) == seq![1u8, 0, 0x8d, 1] + response_header_bytes(
            response,
        ),
        close_session_bytes(request) == seq![1u8, 0, 0xd9, 1] + (request_header_bytes(request)
            + seq![1u8]),
        session_closed_bytes(response) == seq![1u8, 0, 0xdc, 1] + response_header_bytes(response),
        session_activated_bytes(response) == seq![1u8, 0, 0xd6, 1] + (response_header_bytes(
            response,
        ) + seq![0xffu8, 0xff, 0xff, 0xff, 0, 0, 0, 0, 0, 0, 0, 0]),
{
    lemma_fixed_fields();
    lemma_type(452);
    lemma_type(397);
    lemma_type(473);
    lemma_type(476);
    lemma_type(470);
    assert(session_activated_bytes(response) =~= seq![1u8, 0, 0xd6, 1] + (response_header_bytes(
        response,
    ) + seq![0xffu8, 0xff, 0xff, 0xff, 0, 0, 0, 0, 0, 0, 0, 0]));
}

/// An application is named by its uri twice, called `Xmip`, is of its kind,
/// and has no gateway, no discovery profile and no discovery urls.
pub proof fn law_application_layout(kind: u32)
    ensures
        application_bytes(kind) == string_bytes(Some("urn:xmip:transport:opc-ua"@)) + (string_bytes(
            Some("urn:xmip:transport:opc-ua"@),
        ) + (seq![2u8] + (string_bytes(Some("Xmip"@)) + (u32_bytes(kind) + seq![
            0xffu8,
            0xff,
            0xff,
            0xff,
            0xff,
            0xff,
            0xff,
            0xff,
            0,
            0,
            0,
            0,
        ])))),
{
    reveal(application_bytes);
    reveal(localized_text_bytes);
    lemma_fixed_fields();
    assert(application_bytes(kind) =~= string_bytes(Some("urn:xmip:transport:opc-ua"@)) + (
    string_bytes(Some("urn:xmip:transport:opc-ua"@)) + (seq![2u8] + (string_bytes(Some("Xmip"@)) + (
    u32_bytes(kind) + seq![0xffu8, 0xff, 0xff, 0xff, 0xff, 0xff, 0xff, 0xff, 0, 0, 0, 0])))));
}

/// A create request is type 461 of a client: no server named, the endpoint,
/// the session's name, no nonce, no certificate, a minute of idling, and no
/// limit on the answer.
#[verifier::spinoff_prover]
#[verifier::rlimit(40)]
pub proof fn law_create_session_layout(create: CreateSessionView)
    ensures
        create_session_bytes(create) == seq![1u8, 0, 0xcd, 1] + (request_header_bytes(create.header)
            + (application_bytes(1) + (seq![0xffu8, 0xff, 0xff, 0xff] + (string_bytes(
            Some(create.endpoint_url),
        ) + (string_bytes(Some(create.session_name)) + seq![
            0xffu8,
            0xff,
            0xff,
            0xff,
            0xff,
            0xff,
            0xff,
            0xff,
            0,
            0,
            0,
            0,
            0,
            0x4c,
            0xed,
            0x40,
            0,
            0,
            0,
            0,
        ]))))),
{
    lemma_fixed_fields();
    lemma_type(461);
    let tail = seq![
        0xffu8,
        0xff,
        0xff,
        0xff,
        0xff,
        0xff,
        0xff,
        0xff,
        0,
        0,
        0,
        0,
        0,
        0x4c,
        0xed,
        0x40,
        0,
        0,
        0,
        0,
    ];
    assert(byte_string_bytes(None) + (byte_string_bytes(None) + (u64_bytes(SESSION_TIMEOUT)
        + u32_bytes(0))) =~= tail);
}

/// An endpoint that takes an anonymous identity lists that one policy, of
/// token type zero with nothing else said of it; one that does not lists
/// none.
pub proof fn law_policies_layout(policy: Seq<char>)
    ensures
        policies_bytes(Some(policy)) == seq![1u8, 0, 0, 0] + (string_bytes(Some(policy)) + seq![
            0u8,
            0,
            0,
            0,
            0xff,
            0xff,
            0xff,
            0xff,
            0xff,
            0xff,
            0xff,
            0xff,
            0xff,
            0xff,
            0xff,
            0xff,
        ]),
        policies_bytes(None) == seq![0u8, 0, 0, 0],
{
    reveal(policies_bytes);
    lemma_fixed_fields();
    assert(policies_bytes(Some(policy)) =~= seq![1u8, 0, 0, 0] + (string_bytes(Some(policy)) + seq![
        0u8,
        0,
        0,
        0,
        0xff,
        0xff,
        0xff,
        0xff,
        0xff,
        0xff,
        0xff,
        0xff,
        0xff,
        0xff,
        0xff,
        0xff,
    ]));
}

/// An endpoint is its url, a server, no certificate, mode None, its security
/// policy, its token policies, the binary profile over TCP, and level zero.
#[verifier::spinoff_prover]
#[verifier::rlimit(40)]
pub proof fn law_endpoint_layout(described: EndpointView)
    ensures
        endpoint_bytes(described) == string_bytes(Some(described.url)) + (application_bytes(0) + (
        seq![0xffu8, 0xff, 0xff, 0xff, 1, 0, 0, 0] + (string_bytes(Some(described.security_policy))
            + (policies_bytes(described.anonymous_policy) + (string_bytes(
            Some("http://opcfoundation.org/UA-Profile/Transport/uatcp-uasc-uabinary"@),
        ) + seq![0u8]))))),
{
    reveal(endpoint_bytes);
    lemma_fixed_fields();
    assert(endpoint_bytes(described) =~= string_bytes(Some(described.url)) + (application_bytes(0)
        + (seq![0xffu8, 0xff, 0xff, 0xff, 1, 0, 0, 0] + (string_bytes(
        Some(described.security_policy),
    ) + (policies_bytes(described.anonymous_policy) + (string_bytes(
        Some("http://opcfoundation.org/UA-Profile/Transport/uatcp-uasc-uabinary"@),
    ) + seq![0u8]))))));
}

/// Endpoints stand one behind the other, in their order.
pub proof fn law_endpoints_stand_in_their_order(first: EndpointView, others: Seq<EndpointView>)
    ensures
        endpoints_bytes(Seq::empty()) == Seq::<u8>::empty(),
        endpoints_bytes(seq![first] + others) == endpoint_bytes(first) + endpoints_bytes(others),
{
    assert((seq![first] + others).skip(1) =~= others);
}

/// A create response is type 464: the session, its token, a minute of idling,
/// no nonce, no certificate, the number of endpoints and each of them, no
/// software certificates, no signature, and no limit on requests. Left out are
/// more endpoints than their number can say.
#[verifier::spinoff_prover]
#[verifier::rlimit(40)]
pub proof fn law_session_created_layout(created: SessionCreatedView)
    requires
        created.endpoints.len() <= i32::MAX,
    ensures
        session_created_bytes(created) == seq![1u8, 0, 0xd0, 1] + (response_header_bytes(
            created.header,
        ) + (node_bytes(created.session_id) + (node_bytes(created.token) + (seq![
            0u8,
            0,
            0,
            0,
            0,
            0x4c,
            0xed,
            0x40,
            0xff,
            0xff,
            0xff,
            0xff,
            0xff,
            0xff,
            0xff,
            0xff,
        ] + (u32_bytes(created.endpoints.len() as u32) + (endpoints_bytes(created.endpoints) + seq![
            0u8,
            0,
            0,
            0,
            0xff,
            0xff,
            0xff,
            0xff,
            0xff,
            0xff,
            0xff,
            0xff,
            0,
            0,
            0,
            0,
        ])))))),
{
    broadcast use lemma_join;

    lemma_fixed_fields();
    lemma_type(464);
    law_negative_number_is_its_complement(created.endpoints.len() as i32, 0);
    let middle = seq![
        0u8,
        0,
        0,
        0,
        0,
        0x4c,
        0xed,
        0x40,
        0xff,
        0xff,
        0xff,
        0xff,
        0xff,
        0xff,
        0xff,
        0xff,
    ];
    assert(u64_bytes(SESSION_TIMEOUT) + (byte_string_bytes(None) + byte_string_bytes(None))
        =~= middle);
    let tail = seq![0u8, 0, 0, 0, 0xff, 0xff, 0xff, 0xff, 0xff, 0xff, 0xff, 0xff, 0, 0, 0, 0];
    assert(i32_bytes(0) + (string_bytes(None) + (byte_string_bytes(None) + u32_bytes(0))) =~= tail);
    let rest = u32_bytes(created.endpoints.len() as u32) + (endpoints_bytes(created.endpoints)
        + tail);
    lemma_join(
        u64_bytes(SESSION_TIMEOUT),
        byte_string_bytes(None) + byte_string_bytes(None),
        rest,
    );
    lemma_join(byte_string_bytes(None), byte_string_bytes(None), rest);
}

/// An activate request is type 467: no signature, no certificates, no locales,
/// an anonymous identity, type 321, whose body is the policy id, and no
/// signature of that.
#[verifier::spinoff_prover]
#[verifier::rlimit(40)]
pub proof fn law_activate_session_layout(activate: ActivateSessionView)
    ensures
        activate_session_bytes(activate) == seq![1u8, 0, 0xd3, 1] + (request_header_bytes(
            activate.header,
        ) + (seq![
            0xffu8,
            0xff,
            0xff,
            0xff,
            0xff,
            0xff,
            0xff,
            0xff,
            0,
            0,
            0,
            0,
            0,
            0,
            0,
            0,
            1,
            0,
            0x41,
            1,
            1,
        ] + (byte_string_bytes(Some(string_bytes(Some(activate.policy_id)))) + seq![
            0xffu8,
            0xff,
            0xff,
            0xff,
            0xff,
            0xff,
            0xff,
            0xff,
        ]))),
{
    broadcast use lemma_join;

    lemma_fixed_fields();
    lemma_type(467);
    lemma_type(321);
    let identity = byte_string_bytes(Some(string_bytes(Some(activate.policy_id))));
    let tail = seq![0xffu8, 0xff, 0xff, 0xff, 0xff, 0xff, 0xff, 0xff];
    assert(string_bytes(None) + byte_string_bytes(None) =~= tail);
    let middle = seq![
        0xffu8,
        0xff,
        0xff,
        0xff,
        0xff,
        0xff,
        0xff,
        0xff,
        0,
        0,
        0,
        0,
        0,
        0,
        0,
        0,
        1,
        0,
        0x41,
        1,
        1,
    ];
    let kind = node_bytes(crate::endpoint::anonymous_identity());
    assert(kind == seq![1u8, 0, 0x41, 1]);
    assert(string_bytes(None) + (byte_string_bytes(None) + (i32_bytes(0) + (i32_bytes(0) + (kind + (
    seq![1u8] + (identity + tail)))))) =~= middle + (identity + tail));
}

/// A read request is type 631: a value of no age, its source timestamp, one
/// node, its value, no range, and no data encoding.
#[verifier::spinoff_prover]
#[verifier::rlimit(40)]
pub proof fn law_read_layout(read: ReadView)
    ensures
        read_bytes(read) == seq![1u8, 0, 0x77, 2] + (request_header_bytes(read.header) + (seq![
            0u8,
            0,
            0,
            0,
            0,
            0,
            0,
            0,
            0,
            0,
            0,
            0,
            1,
            0,
            0,
            0,
        ] + (node_bytes(read.node) + seq![
            13u8,
            0,
            0,
            0,
            0xff,
            0xff,
            0xff,
            0xff,
            0,
            0,
            0xff,
            0xff,
            0xff,
            0xff,
        ]))),
{
    broadcast use lemma_join;

    lemma_fixed_fields();
    lemma_type(631);
    let tail = seq![13u8, 0, 0, 0, 0xff, 0xff, 0xff, 0xff, 0, 0, 0xff, 0xff, 0xff, 0xff];
    assert(u32_bytes(13) + (string_bytes(None) + (u16_bytes(0) + string_bytes(None))) =~= tail);
    let middle = seq![0u8, 0, 0, 0, 0, 0, 0, 0, 0, 0, 0, 0, 1, 0, 0, 0];
    let node = node_bytes(read.node) + tail;
    assert(u64_bytes(0) + (u32_bytes(0) + (i32_bytes(1) + node)) =~= middle + node);
}

/// A read response is type 634: one result, and no diagnostics.
pub proof fn law_read_result_layout(result: ReadResultView)
    ensures
        read_result_bytes(result) == seq![1u8, 0, 0x7a, 2] + (response_header_bytes(result.header)
            + (seq![1u8, 0, 0, 0] + (value_bytes(result.value) + seq![0u8, 0, 0, 0]))),
{
    lemma_fixed_fields();
    lemma_type(634);
}

/// A write request is type 673: one node, its value, attribute thirteen, as a
/// whole, with no range of it, and what it is to hold.
pub proof fn law_write_layout(write: WriteView)
    ensures
        write_bytes(write) == seq![1u8, 0, 0xa1, 2] + (request_header_bytes(write.header) + (seq![
            1u8,
            0,
            0,
            0,
        ] + (node_bytes(write.node) + (seq![13u8, 0, 0, 0, 0xff, 0xff, 0xff, 0xff] + value_bytes(
            write.value,
        ))))),
{
    broadcast use lemma_join;

    lemma_fixed_fields();
    lemma_type(673);
    let range = seq![13u8, 0, 0, 0, 0xff, 0xff, 0xff, 0xff];
    assert(u32_bytes(13) + string_bytes(None) =~= range);
}

/// A write response is type 676: one status, and no diagnostics.
pub proof fn law_write_result_layout(result: WriteResult)
    ensures
        write_result_bytes(result) == seq![1u8, 0, 0xa4, 2] + (response_header_bytes(result.header)
            + (seq![1u8, 0, 0, 0] + (u32_bytes(result.status) + seq![0u8, 0, 0, 0]))),
{
    lemma_fixed_fields();
    lemma_type(676);
}

/// Limits stand behind protocol version zero: what is received, what is sent,
/// the largest message and the most chunks. A hello is those and the endpoint,
/// and an error its code and reason.
pub proof fn law_greetings_layout(limits: Limits, endpoint_url: Seq<char>, fault: FaultView)
    ensures
        limits_bytes(limits) == seq![0u8, 0, 0, 0] + (u32_bytes(limits.receive_buffer) + (u32_bytes(
            limits.send_buffer,
        ) + (u32_bytes(limits.max_message) + u32_bytes(limits.max_chunks)))),
        hello_bytes(HelloView { limits, endpoint_url }) == limits_bytes(limits) + string_bytes(
            Some(endpoint_url),
        ),
        crate::channel::fault_bytes(fault) == u32_bytes(fault.code) + string_bytes(
            Some(fault.reason),
        ),
{
    lemma_fixed_fields();
}

/// A raw message is its three letters, whether it is final, how long it is
/// with the eight bytes this takes, and its body. Left out are bodies too long
/// for that.
pub proof fn law_raw_layout(message: RawView)
    requires
        message.body.len() + 8 <= u32::MAX,
    ensures
        raw_bytes(message) == message.kind + (seq![message.is_final] + (u32_bytes(
            (message.body.len() + 8) as u32,
        ) + message.body)),
{
}

/// A chunk is a raw message of the kind its message is: the channel, the
/// token, or for an open the policy None without a certificate or a
/// thumbprint, the chunk's own number, the request, and a piece of the body.
pub proof fn law_chunk_layout(message: SecureView, sequence: u32, is_final: u8, piece: Seq<u8>)
    ensures
        message.kind != seq![0x4fu8, 0x50, 0x4e] ==> chunk_bytes(message, sequence, is_final, piece)
            == raw_bytes(
            RawView {
                kind: message.kind,
                is_final,
                body: u32_bytes(message.channel_id) + (u32_bytes(message.token_id) + (u32_bytes(
                    sequence,
                ) + (u32_bytes(message.request_id) + piece))),
            },
        ),
        message.kind == seq![0x4fu8, 0x50, 0x4e] ==> chunk_bytes(message, sequence, is_final, piece)
            == raw_bytes(
            RawView {
                kind: message.kind,
                is_final,
                body: u32_bytes(message.channel_id) + (string_bytes(
                    Some("http://opcfoundation.org/UA/SecurityPolicy#None"@),
                ) + (seq![0xffu8, 0xff, 0xff, 0xff, 0xff, 0xff, 0xff, 0xff] + (u32_bytes(sequence)
                    + (u32_bytes(message.request_id) + piece)))),
            },
        ),
{
    broadcast use lemma_join;

    reveal(chunk_bytes);
    reveal(chunk_head_bytes);
    lemma_fixed_fields();
    assert(OPEN@ =~= seq![0x4fu8, 0x50, 0x4e]);
    let none = seq![0xffu8, 0xff, 0xff, 0xff, 0xff, 0xff, 0xff, 0xff];
    assert(byte_string_bytes(None) + byte_string_bytes(None) =~= none);
}

/// A body of at most a piece crosses in one chunk marked `F`, an empty one
/// too; a longer one as a chunk of its first piece marked `C`, and then as
/// what is left would, numbered one on, and from zero behind the last number.
pub proof fn law_chunks_follow_each_other(
    message: SecureView,
    sequence: u32,
    first: Seq<u8>,
    others: Seq<u8>,
    piece: nat,
)
    requires
        piece > 0,
    ensures
        first.len() <= piece ==> chunks(message, sequence, first, piece) == chunk_bytes(
            message,
            sequence,
            0x46,
            first,
        ),
        first.len() == piece && others.len() > 0 ==> chunks(
            message,
            sequence,
            first + others,
            piece,
        ) == chunk_bytes(message, sequence, 0x43, first) + chunks(
            message,
            if sequence == u32::MAX {
                0
            } else {
                (sequence + 1) as u32
            },
            others,
            piece,
        ),
{
    if first.len() == piece && others.len() > 0 {
        assert((first + others).take(piece as int) =~= first);
        assert((first + others).skip(piece as int) =~= others);
    }
}

} // verus!
