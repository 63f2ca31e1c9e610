//! What is read of a message whatever its other fields say: fields that are
//! not kept may hold anything, and those that must be so are refused else.

use vstd::prelude::*;

use crate::attribute::{
    read_request, read_result, write_result, write_target, ReadResultView, ReadView, WriteResult,
};
use crate::channel::{
    fault, hello, law_limits_read_back, limits_bytes, FaultView, HelloView, Limits,
};
use crate::codec::{
    i32_bytes, i64_bytes, law_byte_reads_back, law_i32_reads_back, law_u16_reads_back,
    law_u32_reads_back, law_u64_reads_back, u16_bytes, u32_bytes, u64_bytes, Parsed,
};
use crate::endpoint::{
    activate_session, application, application_bytes, behind_endpoints, certificates,
    create_session, endpoint, endpoints, identity, lemma_application_is_passed, policies,
    session_created, ActivateSessionView, CreateSessionView, EndpointView, SessionCreatedView,
};
use crate::node::{node_bytes, node_text, NodeIdView};
use crate::service::{
    body_type, channel_opened, law_request_header_reads_back, law_response_header_reads_back,
    open_channel, request_header, request_header_bytes, response_header, response_header_bytes,
    status_failure, ChannelOpened, OpenChannelView, RequestHeaderView, ResponseHeader,
};
use crate::text::{hex, text_of};
use crate::wire::{
    byte_string_bytes, data_value, diagnostic_array, diagnostic_info, group_reads_back,
    law_byte_string_reads_back, localized_text, node_id, string_array, string_bytes, text_fits,
    DataValueView,
};

verus! {

/// That a length field can say how long a text is, where there is one.
pub open spec fn sayable(text: Option<Seq<char>>) -> bool {
    text matches Some(text) ==> text_fits(text)
}

/// That a length field can say how many bytes there are, where there are any.
pub open spec fn countable(bytes: Option<Seq<u8>>) -> bool {
    bytes matches Some(bytes) ==> bytes.len() <= i32::MAX
}

/// A request header is read whatever diagnostics it asks for, whatever audit
/// entry it has, and whatever type of additional header it names, as long as
/// it has none.
pub proof fn law_any_request_header_is_read(
    header: RequestHeaderView,
    diagnostics: u32,
    audit: Option<Seq<char>>,
    additional: NodeIdView,
    encoding: u8,
    rest: Seq<u8>,
)
    requires
        header.token.fits(),
        sayable(audit),
        additional.fits(),
    ensures
        ({
            let bytes = node_bytes(header.token) + (i64_bytes(header.timestamp) + (u32_bytes(
                header.handle,
            ) + (u32_bytes(diagnostics) + (string_bytes(audit) + (u32_bytes(header.timeout_hint) + (
            node_bytes(additional) + (seq![encoding] + rest)))))));
            if encoding == 0 {
                request_header(bytes) == Parsed::Read(header, rest)
            } else {
                request_header(bytes).refused("a request with an additional header"@)
            }
        }),
{
    broadcast use group_reads_back;

    reveal(request_header);
}

/// A response header is read whatever diagnostics and strings it has, and
/// whatever type of additional header it names, as long as it has none.
pub proof fn law_any_response_header_is_read(
    header: ResponseHeader,
    info: Seq<u8>,
    table: Seq<u8>,
    additional: NodeIdView,
    encoding: u8,
    rest: Seq<u8>,
)
    requires
        additional.fits(),
        ({
            let tail = node_bytes(additional) + (seq![encoding] + rest);
            &&& string_array(table + tail) == Parsed::Read((), tail)
            &&& diagnostic_info(info + (table + tail)) == Parsed::Read((), table + tail)
        }),
    ensures
        ({
            let bytes = i64_bytes(header.timestamp) + (u32_bytes(header.handle) + (u32_bytes(
                header.result,
            ) + (info + (table + (node_bytes(additional) + (seq![encoding] + rest))))));
            if encoding == 0 {
                response_header(bytes) == Parsed::Read(header, rest)
            } else {
                response_header(bytes).refused("a response with an additional header"@)
            }
        }),
{
    broadcast use group_reads_back;

    reveal(response_header);
}

/// A body is of the type that its node id numbers, in any form that numbers
/// one, where the namespace is zero; a name, a node of another namespace, a
/// GUID and opaque bytes are no type.
pub proof fn law_body_is_of_a_numbered_type(bytes: Seq<u8>, node: NodeIdView, rest: Seq<u8>)
    requires
        node_id(bytes) == Parsed::Read(node, rest),
    ensures
        node matches NodeIdView::Numeric { namespace, id } ==> (namespace == 0 && bytes[0] & 0x3f < 4
            ==> body_type(bytes) == Parsed::Read(id, rest)),
        node is String ==> body_type(bytes).refused("a body of type "@ + node_text(node)),
        node matches NodeIdView::Numeric { namespace, id } ==> (namespace != 0 ==> body_type(
            bytes,
        ).refused("a body of type "@ + node_text(node))),
        bytes[0] & 0x3f >= 4 ==> body_type(bytes).refused("a body of type "@ + node_text(node)),
{
}

/// An open request is read whatever version it has and whatever nonce, where
/// it issues a token and asks for mode None; one that renews or asks for
/// another mode is refused.
pub proof fn law_any_open_channel_is_read(
    open: OpenChannelView,
    version: u32,
    request_type: u32,
    mode: u32,
    nonce: Option<Seq<u8>>,
    rest: Seq<u8>,
)
    requires
        open.header.token.fits(),
        countable(nonce),
    ensures
        ({
            let bytes = request_header_bytes(open.header) + (u32_bytes(version) + (u32_bytes(
                request_type,
            ) + (u32_bytes(mode) + (byte_string_bytes(nonce) + (u32_bytes(open.requested_lifetime)
                + rest)))));
            if request_type != 0 {
                open_channel(bytes).refused("a token renewal, and this side issues only"@)
            } else if mode != 1 {
                open_channel(bytes).refused("a security mode other than None"@)
            } else {
                open_channel(bytes) == Parsed::Read(open, rest)
            }
        }),
{
    broadcast use {group_reads_back, law_request_header_reads_back};

}

/// An open response is read whatever version, creation time and nonce it has.
pub proof fn law_any_channel_opened_is_read(
    opened: ChannelOpened,
    version: u32,
    created: i64,
    nonce: Option<Seq<u8>>,
    rest: Seq<u8>,
)
    requires
        countable(nonce),
    ensures
        channel_opened(
            response_header_bytes(opened.header) + (u32_bytes(version) + (u32_bytes(
                opened.channel_id,
            ) + (u32_bytes(opened.token_id) + (i64_bytes(created) + (u32_bytes(opened.lifetime) + (
            byte_string_bytes(nonce) + rest)))))),
        ) == Parsed::Read(opened, rest),
{
    broadcast use {group_reads_back, law_response_header_reads_back};

}

/// An application is passed whatever it says of itself.
pub proof fn law_any_application_is_passed(
    uri: Option<Seq<char>>,
    product: Option<Seq<char>>,
    name: Seq<u8>,
    kind: u32,
    gateway: Option<Seq<char>>,
    profile: Option<Seq<char>>,
    urls: Seq<u8>,
    rest: Seq<u8>,
)
    requires
        sayable(uri),
        sayable(product),
        sayable(gateway),
        sayable(profile),
        string_array(urls + rest) == Parsed::Read((), rest),
        ({
            let tail = u32_bytes(kind) + (string_bytes(gateway) + (string_bytes(profile) + (urls
                + rest)));
            localized_text(name + tail) == Parsed::Read((), tail)
        }),
    ensures
        application(
            string_bytes(uri) + (string_bytes(product) + (name + (u32_bytes(kind) + (string_bytes(
                gateway,
            ) + (string_bytes(profile) + (urls + rest)))))),
        ) == Parsed::Read((), rest),
{
    broadcast use group_reads_back;

    reveal(application);
}

/// A create request is read whatever application asks, whatever server it
/// names, and whatever nonce, certificate, timeout and limit it has; a name
/// that is not there is empty.
pub proof fn law_any_create_session_is_read(
    header: RequestHeaderView,
    client: Seq<u8>,
    server: Option<Seq<char>>,
    endpoint_url: Option<Seq<char>>,
    session_name: Option<Seq<char>>,
    nonce: Option<Seq<u8>>,
    certificate: Option<Seq<u8>>,
    timeout: u64,
    max_response: u32,
    rest: Seq<u8>,
)
    requires
        header.token.fits(),
        sayable(server),
        sayable(endpoint_url),
        sayable(session_name),
        countable(nonce),
        countable(certificate),
        ({
            let tail = string_bytes(server) + (string_bytes(endpoint_url) + (string_bytes(
                session_name,
            ) + (byte_string_bytes(nonce) + (byte_string_bytes(certificate) + (u64_bytes(timeout) + (
            u32_bytes(max_response) + rest))))));
            application(client + tail) == Parsed::Read((), tail)
        }),
    ensures
        create_session(
            request_header_bytes(header) + (client + (string_bytes(server) + (string_bytes(
                endpoint_url,
            ) + (string_bytes(session_name) + (byte_string_bytes(nonce) + (byte_string_bytes(
                certificate,
            ) + (u64_bytes(timeout) + (u32_bytes(max_response) + rest)))))))),
        ) == Parsed::Read(
            CreateSessionView {
                header,
                endpoint_url: match endpoint_url {
                    Some(url) => url,
                    None => Seq::empty(),
                },
                session_name: match session_name {
                    Some(name) => name,
                    None => Seq::empty(),
                },
            },
            rest,
        ),
{
    broadcast use {group_reads_back, law_request_header_reads_back};

}

/// Of the token policies of an endpoint the first of token type zero is the
/// anonymous one; the others, and what else any says, are passed.
pub proof fn law_first_policy_of_type_zero_is_anonymous(
    policy: Option<Seq<char>>,
    token_type: u32,
    issued: Option<Seq<char>>,
    issuer: Option<Seq<char>>,
    security: Option<Seq<char>>,
    number: nat,
    found: Option<Seq<char>>,
    rest: Seq<u8>,
)
    requires
        sayable(policy),
        sayable(issued),
        sayable(issuer),
        sayable(security),
    ensures
        policies(rest, 0, found) == Parsed::Read(found, rest),
        policies(
            string_bytes(policy) + (u32_bytes(token_type) + (string_bytes(issued) + (string_bytes(
                issuer,
            ) + (string_bytes(security) + rest)))),
            number + 1,
            found,
        ) == if token_type == 0 && found is None {
            policies(rest, number, policy)
        } else {
            policies(rest, number, found)
        },
{
    broadcast use group_reads_back;

}

/// An endpoint is read whatever server it is of, and whatever certificate,
/// mode, profile and level it has.
pub proof fn law_any_endpoint_is_read(
    url: Option<Seq<char>>,
    server: Seq<u8>,
    certificate: Option<Seq<u8>>,
    mode: u32,
    security_policy: Option<Seq<char>>,
    number: i32,
    listed: Seq<u8>,
    anonymous_policy: Option<Seq<char>>,
    profile: Option<Seq<char>>,
    level: u8,
    rest: Seq<u8>,
)
    requires
        sayable(url),
        countable(certificate),
        sayable(security_policy),
        sayable(profile),
        ({
            let end = string_bytes(profile) + (seq![level] + rest);
            let tail = byte_string_bytes(certificate) + (u32_bytes(mode) + (string_bytes(
                security_policy,
            ) + (i32_bytes(number) + (listed + end))));
            &&& 0 <= number <= (listed + end).len()
            &&& policies(listed + end, number as nat, None) == Parsed::Read(anonymous_policy, end)
            &&& application(server + tail) == Parsed::Read((), tail)
        }),
    ensures
        endpoint(
            string_bytes(url) + (server + (byte_string_bytes(certificate) + (u32_bytes(mode) + (
            string_bytes(security_policy) + (i32_bytes(number) + (listed + (string_bytes(profile) + (
            seq![level] + rest)))))))),
        ) == Parsed::Read(
            EndpointView {
                url: match url {
                    Some(url) => url,
                    None => Seq::empty(),
                },
                security_policy: match security_policy {
                    Some(policy) => policy,
                    None => Seq::empty(),
                },
                anonymous_policy,
            },
            rest,
        ),
{
    broadcast use group_reads_back;

    reveal(endpoint);
}

/// Endpoints are read one by one, each behind those before it.
pub proof fn law_endpoints_are_read_in_their_order(
    one: Seq<u8>,
    described: EndpointView,
    behind: Seq<u8>,
    number: nat,
    before: Seq<EndpointView>,
)
    requires
        endpoint(one) == Parsed::Read(described, behind),
    ensures
        endpoints(behind, 0, before) == Parsed::Read(before, behind),
        endpoints(one, number + 1, before) == endpoints(behind, number, before.push(described)),
{
}

/// Software certificates are passed one by one, each with its signature.
pub proof fn law_any_certificates_are_passed(
    certificate: Option<Seq<u8>>,
    signature: Option<Seq<u8>>,
    number: nat,
    rest: Seq<u8>,
)
    requires
        countable(certificate),
        countable(signature),
    ensures
        certificates(rest, 0) == Parsed::Read((), rest),
        certificates(
            byte_string_bytes(certificate) + (byte_string_bytes(signature) + rest),
            number + 1,
        ) == certificates(rest, number),
{
    broadcast use group_reads_back;

}

/// A create response is read whatever timeout, nonce, certificates, signature
/// and limit it has.
#[verifier::spinoff_prover]
#[verifier::rlimit(40)]
pub proof fn law_any_session_created_is_read(
    created: SessionCreatedView,
    timeout: u64,
    nonce: Option<Seq<u8>>,
    certificate: Option<Seq<u8>>,
    number: i32,
    listed: Seq<u8>,
    signed: (i32, Seq<u8>),
    algorithm: Option<Seq<char>>,
    signature: Option<Seq<u8>>,
    max_request: u32,
    rest: Seq<u8>,
)
    requires
        created.session_id.fits(),
        created.token.fits(),
        countable(nonce),
        countable(certificate),
        sayable(algorithm),
        countable(signature),
        ({
            let end = string_bytes(algorithm) + (byte_string_bytes(signature) + (u32_bytes(
                max_request,
            ) + rest));
            let tail = i32_bytes(signed.0) + (signed.1 + end);
            &&& 0 <= signed.0 <= (signed.1 + end).len()
            &&& certificates(signed.1 + end, signed.0 as nat) == Parsed::Read((), end)
            &&& 0 <= number <= (listed + tail).len()
            &&& endpoints(listed + tail, number as nat, Seq::empty()) == Parsed::Read(
                created.endpoints,
                tail,
            )
        }),
    ensures
        session_created(
            response_header_bytes(created.header) + (node_bytes(created.session_id) + (node_bytes(
                created.token,
            ) + (u64_bytes(timeout) + (byte_string_bytes(nonce) + (byte_string_bytes(certificate) + (
            i32_bytes(number) + (listed + (i32_bytes(signed.0) + (signed.1 + (string_bytes(algorithm)
                + (byte_string_bytes(signature) + (u32_bytes(max_request) + rest)))))))))))),
        ) == Parsed::Read(created, rest),
{
    broadcast use {group_reads_back, law_response_header_reads_back};

    reveal(behind_endpoints);
}

/// An activate request is read whatever signatures, certificates and locales
/// it has.
pub proof fn law_any_activate_session_is_read(
    header: RequestHeaderView,
    algorithm: Option<Seq<char>>,
    signature: Option<Seq<u8>>,
    signed: (i32, Seq<u8>),
    locales: Seq<u8>,
    presented: Seq<u8>,
    policy_id: Seq<char>,
    token_algorithm: Option<Seq<char>>,
    token_signature: Option<Seq<u8>>,
    rest: Seq<u8>,
)
    requires
        header.token.fits(),
        sayable(algorithm),
        countable(signature),
        sayable(token_algorithm),
        countable(token_signature),
        ({
            let end = string_bytes(token_algorithm) + (byte_string_bytes(token_signature) + rest);
            let tail = locales + (presented + end);
            &&& 0 <= signed.0 <= (signed.1 + tail).len()
            &&& certificates(signed.1 + tail, signed.0 as nat) == Parsed::Read((), tail)
            &&& string_array(tail) == Parsed::Read((), presented + end)
            &&& identity(presented + end) == Parsed::Read(policy_id, end)
        }),
    ensures
        activate_session(
            request_header_bytes(header) + (string_bytes(algorithm) + (byte_string_bytes(signature)
                + (i32_bytes(signed.0) + (signed.1 + (locales + (presented + (string_bytes(
                token_algorithm,
            ) + (byte_string_bytes(token_signature) + rest)))))))),
        ) == Parsed::Read(ActivateSessionView { header, policy_id }, rest),
{
    broadcast use {group_reads_back, law_request_header_reads_back};

}

/// An identity is taken where it is of type 321 in namespace zero with a body
/// of bytes, which hold the policy id; any other type, and any other body, is
/// refused.
pub proof fn law_identity_must_be_anonymous(
    kind: NodeIdView,
    encoding: u8,
    policy_id: Option<Seq<char>>,
    behind: Seq<u8>,
    rest: Seq<u8>,
)
    requires
        kind.fits(),
        sayable(policy_id),
        (string_bytes(policy_id) + behind).len() <= i32::MAX,
    ensures
        ({
            let bytes = node_bytes(kind) + (seq![encoding] + (byte_string_bytes(
                Some(string_bytes(policy_id) + behind),
            ) + rest));
            if kind == (NodeIdView::Numeric { namespace: 0, id: 321 }) && encoding == 1 {
                identity(bytes) == Parsed::Read(
                    match policy_id {
                        Some(policy) => policy,
                        None => Seq::empty(),
                    },
                    rest,
                )
            } else {
                identity(bytes).refused(
                    "an identity token of type "@ + node_text(kind)
                        + ", and this side takes anonymous"@,
                )
            }
        }),
{
    broadcast use group_reads_back;

    reveal(identity);
}

/// A read request is read whatever age, timestamps, range and encoding it asks
/// for, where it reads the value, attribute thirteen, of one node; any other
/// is refused.
#[verifier::spinoff_prover]
#[verifier::rlimit(40)]
pub proof fn law_any_read_is_read(
    header: RequestHeaderView,
    age: u64,
    timestamps: u32,
    number: i32,
    node: NodeIdView,
    attribute: u32,
    range: Option<Seq<char>>,
    namespace: u16,
    encoding: Option<Seq<char>>,
    rest: Seq<u8>,
)
    requires
        header.token.fits(),
        node.fits(),
        sayable(range),
        sayable(encoding),
    ensures
        ({
            let nodes = node_bytes(node) + (u32_bytes(attribute) + (string_bytes(range) + (u16_bytes(
                namespace,
            ) + (string_bytes(encoding) + rest))));
            let bytes = request_header_bytes(header) + (u64_bytes(age) + (u32_bytes(timestamps) + (
            i32_bytes(number) + nodes)));
            if number > nodes.len() {
                read_request(bytes).refused("an array longer than its encoding"@)
            } else if number != 1 {
                read_request(bytes).refused("a read of other than one node"@)
            } else if attribute != 13 {
                read_request(bytes).refused("a read of an attribute other than the value"@)
            } else {
                read_request(bytes) == Parsed::Read(ReadView { header, node }, rest)
            }
        }),
{
    broadcast use {group_reads_back, law_request_header_reads_back};

}

/// A write is of one node and its value, attribute thirteen, whatever range it
/// names; any other is refused.
pub proof fn law_any_write_target_is_read(
    header: RequestHeaderView,
    number: i32,
    node: NodeIdView,
    attribute: u32,
    range: Option<Seq<char>>,
    rest: Seq<u8>,
)
    requires
        header.token.fits(),
        node.fits(),
        sayable(range),
    ensures
        ({
            let nodes = node_bytes(node) + (u32_bytes(attribute) + (string_bytes(range) + rest));
            let bytes = request_header_bytes(header) + (i32_bytes(number) + nodes);
            if number > nodes.len() {
                write_target(bytes).refused("an array longer than its encoding"@)
            } else if number != 1 {
                write_target(bytes).refused("a write of other than one node"@)
            } else if attribute != 13 {
                write_target(bytes).refused("a write of an attribute other than the value"@)
            } else {
                write_target(bytes) == Parsed::Read((header, node), rest)
            }
        }),
{
    broadcast use {group_reads_back, law_request_header_reads_back};

}

/// A write request is its target and any value that is read behind it; where
/// that is none, neither is the request.
pub proof fn law_write_is_its_target_and_its_value(
    bytes: Seq<u8>,
    header: RequestHeaderView,
    node: NodeIdView,
    behind: Seq<u8>,
)
    requires
        write_target(bytes) == Parsed::Read((header, node), behind),
    ensures
        data_value(behind) matches Parsed::Read(value, rest) ==> crate::attribute::write_request(
            bytes,
        ) == Parsed::Read(crate::attribute::WriteView { header, node, value }, rest),
        data_value(behind) matches Parsed::Failed(failure, rest) ==> crate::attribute::write_request(
            bytes,
        ) == Parsed::<crate::attribute::WriteView>::Failed(failure, rest),
{
}

/// A response to a read or a write is read whatever diagnostics it has, where
/// it has one result; with any other number it is refused.
pub proof fn law_any_result_is_read(
    header: ResponseHeader,
    number: i32,
    value: DataValueView,
    status: u32,
    diagnostics: Seq<u8>,
    rest: Seq<u8>,
)
    requires
        value.fits(),
        diagnostic_array(diagnostics + rest) == Parsed::Read((), rest),
    ensures
        ({
            let values = crate::wire::value_bytes(value) + (diagnostics + rest);
            let codes = u32_bytes(status) + (diagnostics + rest);
            let read = response_header_bytes(header) + (i32_bytes(number) + values);
            let write = response_header_bytes(header) + (i32_bytes(number) + codes);
            &&& if number > values.len() {
                read_result(read).refused("an array longer than its encoding"@)
            } else if number != 1 {
                read_result(read).refused("a read answered with other than one result"@)
            } else {
                read_result(read) == Parsed::Read(ReadResultView { header, value }, rest)
            }
            &&& if number > codes.len() {
                write_result(write).refused("an array longer than its encoding"@)
            } else if number != 1 {
                write_result(write).refused("a write answered with other than one result"@)
            } else {
                write_result(write) == Parsed::Read(WriteResult { header, status }, rest)
            }
        }),
{
    broadcast use {group_reads_back, law_response_header_reads_back};

}

/// A status is the failure that says what was done, the code in eight
/// hexadecimal digits, and what the code means. It is worth another try
/// exactly where the server is not connected, short of a resource, or cut
/// off. Ten codes have a meaning of their own, and of the others those of the
/// bad severity are bad.
pub proof fn law_status_says_what_it_means(what: Seq<char>, code: u32)
    ensures
        status_failure(what, code).retryable <==> code == 0x8095_0000 || code == 0x8004_0000 || code
            == 0x8005_0000,
        status_failure(what, code).message == what + ": status 0x"@ + hex(code as nat, 8) + ", "@ + (
        if code == 0x800B_0000 {
            "the service is not supported"@
        } else if code == 0x8022_0000 {
            "no such secure channel"@
        } else if code == 0x8025_0000 {
            "no such session"@
        } else if code == 0x8027_0000 {
            "the session is not activated"@
        } else if code == 0x8021_0000 {
            "the identity token was rejected"@
        } else if code == 0x8034_0000 {
            "no such node"@
        } else if code == 0x8074_0000 {
            "the value is not of the node's type"@
        } else if code == 0x8083_0000 {
            "no such endpoint"@
        } else if code == 0x8080_0000 {
            "the message is too large"@
        } else if code == 0x8095_0000 {
            "the server is not connected"@
        } else if code / 0x4000_0000 == 2 {
            "a bad status"@
        } else {
            "an uncertain status"@
        }),
{
}

/// The text that some bytes hold, and the empty one where there are none.
pub open spec fn text_held(bytes: Option<Seq<u8>>) -> Seq<char> {
    match bytes {
        Some(bytes) => text_of(bytes),
        None => Seq::empty(),
    }
}

/// What a hello, an error and a node id name may be any bytes, UTF-8 or not: it
/// is read as the text that they hold.
pub proof fn law_any_bytes_are_read_as_a_name(
    text: Option<Seq<u8>>,
    code: u32,
    limits: Limits,
    namespace: u16,
    rest: Seq<u8>,
)
    requires
        countable(text),
        limits.receive_buffer >= 8_192,
        limits.send_buffer >= 8_192,
    ensures
        fault(u32_bytes(code) + (byte_string_bytes(text) + rest)) == Parsed::Read(
            FaultView { code, reason: text_held(text) },
            rest,
        ),
        hello(limits_bytes(limits) + (byte_string_bytes(text) + rest)) == Parsed::Read(
            HelloView { limits, endpoint_url: text_held(text) },
            rest,
        ),
        node_id(seq![3u8] + (u16_bytes(namespace) + (byte_string_bytes(text) + rest)))
            == Parsed::Read(NodeIdView::String { namespace, id: text_held(text) }, rest),
{
    broadcast use {
        law_byte_reads_back,
        law_byte_string_reads_back,
        law_limits_read_back,
        law_u16_reads_back,
        law_u32_reads_back,
    };

    assert(3u8 & 0x3f == 3) by (bit_vector);
}

/// The endpoint and the name that a session is asked for with may be any
/// bytes, and are read as the texts that they hold.
#[verifier::spinoff_prover]
#[verifier::rlimit(40)]
pub proof fn law_any_bytes_are_read_of_a_create(
    header: RequestHeaderView,
    endpoint_url: Option<Seq<u8>>,
    session_name: Option<Seq<u8>>,
    timeout: u64,
    max_response: u32,
    rest: Seq<u8>,
)
    requires
        header.token.fits(),
        countable(endpoint_url),
        countable(session_name),
    ensures
        create_session(
            request_header_bytes(header) + (application_bytes(1) + (byte_string_bytes(None) + (
            byte_string_bytes(endpoint_url) + (byte_string_bytes(session_name) + (
            byte_string_bytes(None) + (byte_string_bytes(None) + (u64_bytes(timeout) + (u32_bytes(
                max_response,
            ) + rest)))))))),
        ) == Parsed::Read(
            CreateSessionView {
                header,
                endpoint_url: text_held(endpoint_url),
                session_name: text_held(session_name),
            },
            rest,
        ),
{
    broadcast use {
        law_byte_string_reads_back,
        law_request_header_reads_back,
        law_u32_reads_back,
        law_u64_reads_back,
        lemma_application_is_passed,
    };

}

/// The address and the policy of an endpoint may be any bytes, and are read as
/// the texts that they hold.
#[verifier::spinoff_prover]
#[verifier::rlimit(40)]
pub proof fn law_any_bytes_are_read_of_an_endpoint(
    url: Option<Seq<u8>>,
    mode: u32,
    security_policy: Option<Seq<u8>>,
    level: u8,
    rest: Seq<u8>,
)
    requires
        countable(url),
        countable(security_policy),
    ensures
        endpoint(
            byte_string_bytes(url) + (application_bytes(0) + (byte_string_bytes(None) + (u32_bytes(
                mode,
            ) + (byte_string_bytes(security_policy) + (i32_bytes(0) + (byte_string_bytes(None) + (
            seq![level] + rest))))))),
        ) == Parsed::Read(
            EndpointView {
                url: text_held(url),
                security_policy: text_held(security_policy),
                anonymous_policy: None,
            },
            rest,
        ),
{
    broadcast use {
        law_byte_reads_back,
        law_byte_string_reads_back,
        law_i32_reads_back,
        law_u32_reads_back,
        lemma_application_is_passed,
    };

    reveal(endpoint);
}

} // verus!
