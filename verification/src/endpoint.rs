//! The session services and the endpoint a server describes when it creates
//! one: `CreateSession` names the endpoint and comes back with the
//! session's authentication token and the endpoints the server offers, each
//! with the user token policies it takes; `ActivateSession` presents an
//! identity, anonymous here, by the policy id the endpoint listed, and
//! `CloseSession` ends it.

use vstd::prelude::*;

use crate::channel::NONE_POLICY;
use crate::codec::{
    agrees, byte, held, i32_bytes, lemma_join, lemma_join_nothing, lemma_le_bytes_len,
    lemma_nothing_join, u32_bytes, u32_le, u64_bytes, u64_le, ByteWriter, Cursor, Parsed,
};
use crate::error::{permanent, protocol_error, Result, TransportError};
use crate::node::{node_bytes, node_text, NodeId, NodeIdView};
use crate::service::{
    body, body_bytes, body_type, law_body_says_its_type, law_request_header_reads_back,
    law_response_header_reads_back, request_header, request_header_bytes, response_header,
    response_header_bytes, RequestHeader, RequestHeaderView, ResponseHeader,
};
use crate::text::same_text;
use crate::wire::{
    boolean_bytes, byte_string, byte_string_bytes, count, group_reads_back, lemma_text_fits,
    localized_text, localized_text_bytes, node_id, string, string_array, string_bytes,
    string_or_empty, text_fits, UaBinary, UaBinaryWrite,
};

verus! {

/// `CreateSessionRequest_Encoding_DefaultBinary`.
pub const CREATE_SESSION_REQUEST: u32 = 461;

/// `CreateSessionResponse_Encoding_DefaultBinary`.
pub const CREATE_SESSION_RESPONSE: u32 = 464;

/// `ActivateSessionRequest_Encoding_DefaultBinary`.
pub const ACTIVATE_SESSION_REQUEST: u32 = 467;

/// `ActivateSessionResponse_Encoding_DefaultBinary`.
pub const ACTIVATE_SESSION_RESPONSE: u32 = 470;

/// `CloseSessionRequest_Encoding_DefaultBinary`.
pub const CLOSE_SESSION_REQUEST: u32 = 473;

/// `CloseSessionResponse_Encoding_DefaultBinary`.
pub const CLOSE_SESSION_RESPONSE: u32 = 476;

/// `AnonymousIdentityToken_Encoding_DefaultBinary`.
pub const ANONYMOUS_IDENTITY_TOKEN: u32 = 321;

/// What this side says it is.
pub const APPLICATION_URI: &'static str = "urn:xmip:transport:opc-ua";

/// The transport profile of the binary encoding over TCP.
pub const BINARY_PROFILE: &'static str =
    "http://opcfoundation.org/UA-Profile/Transport/uatcp-uasc-uabinary";

/// How long a session may be idle: sixty thousand milliseconds, as the bit
/// pattern of a double.
pub const SESSION_TIMEOUT: u64 = 0x40ED_4C00_0000_0000;

/// The application description, a client's or a server's.
#[verifier::opaque]
pub open spec fn application_bytes(kind: u32) -> Seq<u8> {
    string_bytes(Some(APPLICATION_URI@)) + (string_bytes(Some(APPLICATION_URI@)) + (
    localized_text_bytes("Xmip"@) + (u32_bytes(kind) + (string_bytes(None) + (string_bytes(None)
        + i32_bytes(0))))))
}

/// Past an application description.
#[verifier::opaque]
pub open spec fn application(bytes: Seq<u8>) -> Parsed<()> {
    string(bytes).and(
        |uri: Option<Seq<char>>, rest: Seq<u8>|
    string(rest).and(
        |product: Option<Seq<char>>, rest: Seq<u8>|
    localized_text(rest).and(
        |name: (), rest: Seq<u8>|
    u32_le(rest).and(
        |kind: u32, rest: Seq<u8>|
    string(rest).and(
        |gateway: Option<Seq<char>>, rest: Seq<u8>|
    string(rest).and(
        |profile: Option<Seq<char>>, rest: Seq<u8>| string_array(rest),
    ))))))
}

/// The application description, a client's or a server's.
fn put_application(out: &mut Vec<u8>, kind: u32)
    ensures
        final(out)@ == old(out)@ + application_bytes(kind),
{
    broadcast use lemma_join;

    reveal(application_bytes);
    out.string(Some(APPLICATION_URI)).string(Some(APPLICATION_URI)).localized_text("Xmip").u32_le(
        kind,
    ).string(None).string(None).i32_le(0);
}

/// Past an application description.
fn skip_application(reader: &mut Cursor<'_>) -> (result: Result<()>)
    ensures
        agrees(result, final(reader)@, application(old(reader)@)),
{
    reveal(application);
    reader.string()?;
    reader.string()?;
    reader.skip_localized_text()?;
    reader.u32_le()?;
    reader.string()?;
    reader.string()?;
    reader.skip_strings()
}

/// `CreateSessionRequest`: this client, the endpoint, a name.
#[derive(Debug, PartialEq, Eq)]
pub struct CreateSession {
    pub header: RequestHeader,
    pub endpoint_url: String,
    pub session_name: String,
}

/// What a [`CreateSession`] asks.
pub struct CreateSessionView {
    pub header: RequestHeaderView,
    pub endpoint_url: Seq<char>,
    pub session_name: Seq<char>,
}

impl View for CreateSession {
    type V = CreateSessionView;

    open spec fn view(&self) -> CreateSessionView {
        CreateSessionView {
            header: self.header@,
            endpoint_url: self.endpoint_url@,
            session_name: self.session_name@,
        }
    }
}

impl CreateSessionView {
    /// That the encoding can say how long each text is.
    pub open spec fn fits(self) -> bool {
        self.header.token.fits() && text_fits(self.endpoint_url) && text_fits(self.session_name)
    }
}

impl Clone for CreateSession {
    fn clone(&self) -> (copy: Self)
        ensures
            copy@ == self@,
    {
        CreateSession {
            header: self.header.clone(),
            endpoint_url: self.endpoint_url.clone(),
            session_name: self.session_name.clone(),
        }
    }
}

/// A create request: a client, no server uri, no nonce, no certificate, no
/// limit on the response.
pub open spec fn create_session_bytes(create: CreateSessionView) -> Seq<u8> {
    body_bytes(CREATE_SESSION_REQUEST) + (request_header_bytes(create.header) + (application_bytes(1)
        + (string_bytes(None) + (string_bytes(Some(create.endpoint_url)) + (string_bytes(
        Some(create.session_name),
    ) + (byte_string_bytes(None) + (byte_string_bytes(None) + (u64_bytes(SESSION_TIMEOUT)
        + u32_bytes(0)))))))))
}

/// The create request at a cursor, behind whose session name stand a nonce, a
/// certificate, a timeout and a limit on the response.
pub open spec fn create_session(bytes: Seq<u8>) -> Parsed<CreateSessionView> {
    request_header(bytes).and(
        |header: RequestHeaderView, rest: Seq<u8>|
    application(rest).and(
        |client: (), rest: Seq<u8>|
    string(rest).and(
        |server: Option<Seq<char>>, rest: Seq<u8>|
    string_or_empty(rest).and(
        |endpoint_url: Seq<char>, rest: Seq<u8>|
    string_or_empty(rest).and(
        |session_name: Seq<char>, rest: Seq<u8>|
    byte_string(rest).and(
        |nonce: Option<Seq<u8>>, rest: Seq<u8>|
    byte_string(rest).and(
        |certificate: Option<Seq<u8>>, rest: Seq<u8>|
    u64_le(rest).and(
        |timeout: u64, rest: Seq<u8>|
    u32_le(rest).and(
        |max_response: u32, rest: Seq<u8>|
            Parsed::Read(CreateSessionView { header, endpoint_url, session_name }, rest),
    )))))))))
}

impl CreateSession {
    #[must_use]
    pub fn to_bytes(&self) -> (out: Vec<u8>)
        ensures
            out@ == create_session_bytes(self@),
    {
        broadcast use lemma_join;

        let mut out = body(CREATE_SESSION_REQUEST);
        self.header.put(&mut out);
        put_application(&mut out, 1);
        out.string(None).string(Some(self.endpoint_url.as_str())).string(
            Some(self.session_name.as_str()),
        ).byte_string(None).byte_string(None).u64_le(SESSION_TIMEOUT).u32_le(0);
        out
    }

    /// # Errors
    /// Where the request is cut short.
    pub fn take(reader: &mut Cursor<'_>) -> (result: Result<Self>)
        ensures
            agrees(result, final(reader)@, create_session(old(reader)@)),
    {
        let header = RequestHeader::take(reader)?;
        skip_application(reader)?;
        reader.string()?;
        let endpoint_url = reader.string_or_empty()?;
        let session_name = reader.string_or_empty()?;
        reader.byte_string()?;
        reader.byte_string()?;
        reader.u64_le()?;
        reader.u32_le()?;
        Ok(CreateSession { header, endpoint_url, session_name })
    }
}

/// One endpoint a server describes: where, under which policy, and the
/// id of its anonymous token policy where it has one.
#[derive(Debug, PartialEq, Eq)]
pub struct Endpoint {
    pub url: String,
    pub security_policy: String,
    pub anonymous_policy: Option<String>,
}

/// What an [`Endpoint`] offers.
pub struct EndpointView {
    pub url: Seq<char>,
    pub security_policy: Seq<char>,
    pub anonymous_policy: Option<Seq<char>>,
}

impl View for Endpoint {
    type V = EndpointView;

    open spec fn view(&self) -> EndpointView {
        EndpointView {
            url: self.url@,
            security_policy: self.security_policy@,
            anonymous_policy: held(self.anonymous_policy),
        }
    }
}

impl EndpointView {
    /// That the encoding can say how long each text is.
    pub open spec fn fits(self) -> bool {
        &&& text_fits(self.url)
        &&& text_fits(self.security_policy)
        &&& self.anonymous_policy matches Some(policy) ==> text_fits(policy)
    }
}

impl Clone for Endpoint {
    fn clone(&self) -> (copy: Self)
        ensures
            copy@ == self@,
    {
        let anonymous_policy = match &self.anonymous_policy {
            Some(policy) => Some(policy.clone()),
            None => None,
        };
        Endpoint {
            url: self.url.clone(),
            security_policy: self.security_policy.clone(),
            anonymous_policy,
        }
    }
}

/// The user token policies of an endpoint: the anonymous one, or none.
#[verifier::opaque]
pub open spec fn policies_bytes(anonymous_policy: Option<Seq<char>>) -> Seq<u8> {
    match anonymous_policy {
        Some(policy) => i32_bytes(1) + (string_bytes(Some(policy)) + (u32_bytes(0) + (string_bytes(
            None,
        ) + (string_bytes(None) + string_bytes(None))))),
        None => i32_bytes(0),
    }
}

/// An endpoint description: a server, no certificate, security mode None,
/// the binary encoding over TCP, security level zero.
#[verifier::opaque]
pub open spec fn endpoint_bytes(endpoint: EndpointView) -> Seq<u8> {
    string_bytes(Some(endpoint.url)) + (application_bytes(0) + (byte_string_bytes(None) + (u32_bytes(
        1,
    ) + (string_bytes(Some(endpoint.security_policy)) + (policies_bytes(endpoint.anonymous_policy)
        + (string_bytes(Some(BINARY_PROFILE@)) + seq![0u8]))))))
}

/// The id of the first anonymous one of `number` user token policies,
/// where none was `found` before them.
pub open spec fn policies(bytes: Seq<u8>, number: nat, found: Option<Seq<char>>) -> Parsed<
    Option<Seq<char>>,
>
    decreases number,
{
    if number == 0 {
        Parsed::Read(found, bytes)
    } else {
        string(bytes).and(
            |policy_id: Option<Seq<char>>, rest: Seq<u8>|
        u32_le(rest).and(
            |token_type: u32, rest: Seq<u8>|
        string(rest).and(
            |issued: Option<Seq<char>>, rest: Seq<u8>|
        string(rest).and(
            |issuer: Option<Seq<char>>, rest: Seq<u8>|
        string(rest).and(
            |security: Option<Seq<char>>, rest: Seq<u8>|
                policies(
                    rest,
                    (number - 1) as nat,
                    if token_type == 0 && found is None {
                        policy_id
                    } else {
                        found
                    },
                ),
        )))))
    }
}

/// The endpoint description at a cursor.
#[verifier::opaque]
pub open spec fn endpoint(bytes: Seq<u8>) -> Parsed<EndpointView> {
    string_or_empty(bytes).and(
        |url: Seq<char>, rest: Seq<u8>|
    application(rest).and(
        |server: (), rest: Seq<u8>|
    byte_string(rest).and(
        |certificate: Option<Seq<u8>>, rest: Seq<u8>|
    u32_le(rest).and(
        |mode: u32, rest: Seq<u8>|
    string_or_empty(rest).and(
        |security_policy: Seq<char>, rest: Seq<u8>|
    count(rest).and(
        |number: usize, rest: Seq<u8>|
    policies(rest, number as nat, None).and(
        |anonymous_policy: Option<Seq<char>>, rest: Seq<u8>|
    string(rest).and(
        |profile: Option<Seq<char>>, rest: Seq<u8>|
    byte(rest).and(
        |level: u8, rest: Seq<u8>|
            Parsed::Read(EndpointView { url, security_policy, anonymous_policy }, rest),
    )))))))))
}

/// The anonymous one of `number` user token policies.
fn take_policies(reader: &mut Cursor<'_>, number: usize) -> (result: Result<Option<String>>)
    ensures
        crate::codec::agrees_held(
            result,
            final(reader)@,
            policies(old(reader)@, number as nat, None),
        ),
{
    let ghost before = reader@;
    let mut anonymous_policy: Option<String> = None;
    let mut left: usize = number;
    while left > 0
        invariant
            before == old(reader)@,
            policies(before, number as nat, None) == policies(
                reader@,
                left as nat,
                held(anonymous_policy),
            ),
        decreases left,
    {
        let policy_id = reader.string()?;
        let token_type = reader.u32_le()?;
        reader.string()?;
        reader.string()?;
        reader.string()?;
        if token_type == 0 && anonymous_policy.is_none() {
            anonymous_policy = policy_id;
        }
        left -= 1;
    }
    Ok(anonymous_policy)
}

impl Endpoint {
    fn put(&self, out: &mut Vec<u8>)
        ensures
            final(out)@ == old(out)@ + endpoint_bytes(self@),
    {
        broadcast use lemma_join;

        reveal(endpoint_bytes);
        reveal(policies_bytes);
        out.string(Some(self.url.as_str()));
        put_application(out, 0);
        out.byte_string(None).u32_le(1).string(Some(self.security_policy.as_str()));
        match &self.anonymous_policy {
            Some(policy) => {
                out.i32_le(1).string(Some(policy.as_str())).u32_le(0).string(None).string(
                    None,
                ).string(None);
            },
            None => {
                out.i32_le(0);
            },
        }
        out.string(Some(BINARY_PROFILE)).byte(0);
    }

    fn take(reader: &mut Cursor<'_>) -> (result: Result<Self>)
        ensures
            agrees(result, final(reader)@, endpoint(old(reader)@)),
    {
        reveal(endpoint);
        let url = reader.string_or_empty()?;
        skip_application(reader)?;
        reader.byte_string()?;
        reader.u32_le()?;
        let security_policy = reader.string_or_empty()?;
        let number = reader.count()?;
        let anonymous_policy = take_policies(reader, number)?;
        reader.string()?;
        reader.byte()?;
        Ok(Endpoint { url, security_policy, anonymous_policy })
    }
}

/// `CreateSessionResponse`: the session, its token, and the endpoints.
#[derive(Debug, PartialEq, Eq)]
pub struct SessionCreated {
    pub header: ResponseHeader,
    pub session_id: NodeId,
    pub token: NodeId,
    pub endpoints: Vec<Endpoint>,
}

/// What a [`SessionCreated`] answers.
pub struct SessionCreatedView {
    pub header: ResponseHeader,
    pub session_id: NodeIdView,
    pub token: NodeIdView,
    pub endpoints: Seq<EndpointView>,
}

/// What each of some endpoints offers.
pub open spec fn offered(endpoints: Seq<Endpoint>) -> Seq<EndpointView> {
    Seq::new(endpoints.len(), |i: int| endpoints[i]@)
}

impl View for SessionCreated {
    type V = SessionCreatedView;

    open spec fn view(&self) -> SessionCreatedView {
        SessionCreatedView {
            header: self.header,
            session_id: self.session_id@,
            token: self.token@,
            endpoints: offered(self.endpoints@),
        }
    }
}

impl SessionCreatedView {
    /// That the encoding can say how long each text is, and how many
    /// endpoints there are.
    pub open spec fn fits(self) -> bool {
        &&& self.session_id.fits()
        &&& self.token.fits()
        &&& self.endpoints.len() <= i32::MAX
        &&& forall|i: int| 0 <= i < self.endpoints.len() ==> (#[trigger] self.endpoints[i]).fits()
    }
}

/// Endpoint descriptions, one behind the other.
pub open spec fn endpoints_bytes(endpoints: Seq<EndpointView>) -> Seq<u8>
    decreases endpoints.len(),
{
    if endpoints.len() == 0 {
        Seq::empty()
    } else {
        endpoint_bytes(endpoints[0]) + endpoints_bytes(endpoints.skip(1))
    }
}

/// A create response: the endpoints behind their number, no signature, no
/// certificates, no limit on the request. More endpoints than a signed
/// number of four bytes counts are written behind a zero.
pub open spec fn session_created_bytes(created: SessionCreatedView) -> Seq<u8> {
    let number = if created.endpoints.len() <= i32::MAX {
        created.endpoints.len() as i32
    } else {
        0
    };
    body_bytes(CREATE_SESSION_RESPONSE) + (response_header_bytes(created.header) + (node_bytes(
        created.session_id,
    ) + (node_bytes(created.token) + (u64_bytes(SESSION_TIMEOUT) + (byte_string_bytes(None) + (
    byte_string_bytes(None) + (i32_bytes(number) + (endpoints_bytes(created.endpoints) + (i32_bytes(
        0,
    ) + (string_bytes(None) + (byte_string_bytes(None) + u32_bytes(0))))))))))))
}

/// `number` endpoint descriptions, behind those `before` them.
pub open spec fn endpoints(bytes: Seq<u8>, number: nat, before: Seq<EndpointView>) -> Parsed<
    Seq<EndpointView>,
>
    decreases number,
{
    if number == 0 {
        Parsed::Read(before, bytes)
    } else {
        endpoint(bytes).and(
            |described: EndpointView, rest: Seq<u8>|
                endpoints(rest, (number - 1) as nat, before.push(described)),
        )
    }
}

/// Past what stands behind the endpoints of a create response: software
/// certificates, a signature, and a limit on the request.
#[verifier::opaque]
pub open spec fn behind_endpoints(bytes: Seq<u8>) -> Parsed<()> {
    count(bytes).and(
        |number: usize, rest: Seq<u8>|
    certificates(rest, number as nat).and(
        |certificates: (), rest: Seq<u8>|
    string(rest).and(
        |algorithm: Option<Seq<char>>, rest: Seq<u8>|
    byte_string(rest).and(
        |signature: Option<Seq<u8>>, rest: Seq<u8>|
    u32_le(rest).and(
        |max_request: u32, rest: Seq<u8>| Parsed::Read((), rest),
    )))))
}

/// The create response at a cursor.
pub open spec fn session_created(bytes: Seq<u8>) -> Parsed<SessionCreatedView> {
    response_header(bytes).and(
        |header: ResponseHeader, rest: Seq<u8>|
    node_id(rest).and(
        |session_id: NodeIdView, rest: Seq<u8>|
    node_id(rest).and(
        |token: NodeIdView, rest: Seq<u8>|
    u64_le(rest).and(
        |timeout: u64, rest: Seq<u8>|
    byte_string(rest).and(
        |nonce: Option<Seq<u8>>, rest: Seq<u8>|
    byte_string(rest).and(
        |certificate: Option<Seq<u8>>, rest: Seq<u8>|
    count(rest).and(
        |number: usize, rest: Seq<u8>|
    endpoints(rest, number as nat, Seq::empty()).and(
        |endpoints: Seq<EndpointView>, rest: Seq<u8>|
    behind_endpoints(rest).and(
        |past: (), rest: Seq<u8>|
            Parsed::Read(SessionCreatedView { header, session_id, token, endpoints }, rest),
    )))))))))
}

/// The anonymous policy id of the first endpoint under policy None that
/// has one.
pub open spec fn anonymous_under_none(endpoints: Seq<EndpointView>) -> Option<Seq<char>>
    decreases endpoints.len(),
{
    if endpoints.len() == 0 {
        None
    } else if endpoints[0].security_policy == NONE_POLICY@ && endpoints[0].anonymous_policy is Some {
        endpoints[0].anonymous_policy
    } else {
        anonymous_under_none(endpoints.skip(1))
    }
}

/// Endpoint descriptions, one behind the other.
fn put_endpoints(out: &mut Vec<u8>, endpoints: &Vec<Endpoint>)
    ensures
        final(out)@ == old(out)@ + endpoints_bytes(offered(endpoints@)),
{
    broadcast use {lemma_join, lemma_join_nothing};

    let ghost start = out@;
    let ghost all = offered(endpoints@);
    assert(all.skip(0) =~= all);
    let mut i: usize = 0;
    while i < endpoints.len()
        invariant
            start == old(out)@,
            i <= endpoints@.len(),
            all == offered(endpoints@),
            out@ + endpoints_bytes(all.skip(i as int)) == start + endpoints_bytes(all),
        decreases endpoints@.len() - i,
    {
        let ghost so_far = out@;
        endpoints[i].put(out);
        proof {
            let left = all.skip(i as int);
            assert(left.skip(1) =~= all.skip(i + 1));
            lemma_join(so_far, endpoint_bytes(left[0]), endpoints_bytes(left.skip(1)));
        }
        i += 1;
    }
    assert(endpoints_bytes(all.skip(i as int)) == Seq::<u8>::empty());
}

/// `number` endpoint descriptions.
fn take_endpoints(reader: &mut Cursor<'_>, number: usize) -> (result: Result<Vec<Endpoint>>)
    ensures
        match (result, endpoints(old(reader)@, number as nat, Seq::empty())) {
            (Ok(described), Parsed::Read(expected, after)) => offered(described@) == expected
                && final(reader)@ == after,
            (Err(error), Parsed::Failed(failure, after)) => error@ == failure && final(reader)@
                == after,
            _ => false,
        },
{
    let ghost before = reader@;
    let mut described: Vec<Endpoint> = Vec::new();
    let mut left: usize = number;
    assert(offered(described@) =~= Seq::empty());
    while left > 0
        invariant
            before == old(reader)@,
            endpoints(before, number as nat, Seq::empty()) == endpoints(
                reader@,
                left as nat,
                offered(described@),
            ),
        decreases left,
    {
        let ghost so_far = described@;
        let next = Endpoint::take(reader)?;
        let ghost described_next = next@;
        described.push(next);
        assert(offered(described@) =~= offered(so_far).push(described_next));
        left -= 1;
    }
    Ok(described)
}

/// Past what stands behind the endpoints of a create response.
fn skip_behind_endpoints(reader: &mut Cursor<'_>) -> (result: Result<()>)
    ensures
        agrees(result, final(reader)@, behind_endpoints(old(reader)@)),
{
    reveal(behind_endpoints);
    let number = reader.count()?;
    skip_certificates(reader, number)?;
    reader.string()?;
    reader.byte_string()?;
    reader.u32_le()?;
    Ok(())
}

impl SessionCreated {
    #[must_use]
    pub fn to_bytes(&self) -> (out: Vec<u8>)
        ensures
            out@ == session_created_bytes(self@),
    {
        broadcast use lemma_join;

        let mut out = body(CREATE_SESSION_RESPONSE);
        self.header.put(&mut out);
        self.session_id.put(&mut out);
        self.token.put(&mut out);
        let number: i32 = if self.endpoints.len() <= 0x7fff_ffff {
            self.endpoints.len() as i32
        } else {
            0
        };
        out.u64_le(SESSION_TIMEOUT).byte_string(None).byte_string(None).i32_le(number);
        put_endpoints(&mut out, &self.endpoints);
        out.i32_le(0).string(None).byte_string(None).u32_le(0);
        out
    }

    /// # Errors
    /// Where the response is cut short.
    #[verifier::rlimit(40)]
    pub fn take(reader: &mut Cursor<'_>) -> (result: Result<Self>)
        ensures
            agrees(result, final(reader)@, session_created(old(reader)@)),
    {
        let header = ResponseHeader::take(reader)?;
        let session_id = reader.node_id()?;
        let token = reader.node_id()?;
        reader.u64_le()?;
        reader.byte_string()?;
        reader.byte_string()?;
        let number = reader.count()?;
        let endpoints = take_endpoints(reader, number)?;
        skip_behind_endpoints(reader)?;
        Ok(SessionCreated { header, session_id, token, endpoints })
    }

    /// The anonymous policy id of the first endpoint under policy None
    /// that has one.
    ///
    /// # Errors
    /// Where no endpoint offers an anonymous login over None.
    pub fn anonymous_policy(&self) -> (result: Result<&str>)
        ensures
            match anonymous_under_none(self@.endpoints) {
                Some(policy) => result matches Ok(found) && found@ == policy,
                None => result matches Err(error) && error@ == permanent(
                    "the server offers no anonymous login under security policy None"@,
                ),
            },
    {
        let ghost all = offered(self.endpoints@);
        assert(all.skip(0) =~= all);
        let mut i: usize = 0;
        while i < self.endpoints.len()
            invariant
                i <= self.endpoints@.len(),
                all == offered(self.endpoints@),
                anonymous_under_none(all) == anonymous_under_none(all.skip(i as int)),
            decreases self.endpoints@.len() - i,
        {
            let described = &self.endpoints[i];
            assert(all.skip(i as int)[0] == described@);
            if same_text(described.security_policy.as_str(), NONE_POLICY) {
                if let Some(policy) = &described.anonymous_policy {
                    return Ok(policy.as_str());
                }
            }
            assert(all.skip(i as int).skip(1) =~= all.skip(i + 1));
            i += 1;
        }
        Err(protocol_error("the server offers no anonymous login under security policy None"))
    }
}

/// `ActivateSessionRequest` with an anonymous identity under `policy_id`.
#[derive(Debug, PartialEq, Eq)]
pub struct ActivateSession {
    pub header: RequestHeader,
    pub policy_id: String,
}

/// What an [`ActivateSession`] presents.
pub struct ActivateSessionView {
    pub header: RequestHeaderView,
    pub policy_id: Seq<char>,
}

impl View for ActivateSession {
    type V = ActivateSessionView;

    open spec fn view(&self) -> ActivateSessionView {
        ActivateSessionView { header: self.header@, policy_id: self.policy_id@ }
    }
}

impl ActivateSessionView {
    /// That the encoding can say how long the token, and the policy id
    /// behind its own length, are.
    pub open spec fn fits(self) -> bool {
        self.header.token.fits() && text_fits(self.policy_id) && string_bytes(
            Some(self.policy_id),
        ).len() <= i32::MAX
    }
}

impl Clone for ActivateSession {
    fn clone(&self) -> (copy: Self)
        ensures
            copy@ == self@,
    {
        ActivateSession { header: self.header.clone(), policy_id: self.policy_id.clone() }
    }
}

/// The node id that names the kind of an anonymous identity.
pub open spec fn anonymous_identity() -> NodeIdView {
    NodeIdView::Numeric { namespace: 0, id: ANONYMOUS_IDENTITY_TOKEN }
}

/// An activate request: no signature, no certificates, no locales, the
/// identity as an extension object with a binary body.
pub open spec fn activate_session_bytes(activate: ActivateSessionView) -> Seq<u8> {
    body_bytes(ACTIVATE_SESSION_REQUEST) + (request_header_bytes(activate.header) + (string_bytes(
        None,
    ) + (byte_string_bytes(None) + (i32_bytes(0) + (i32_bytes(0) + (node_bytes(
        anonymous_identity(),
    ) + (seq![1u8] + (byte_string_bytes(Some(string_bytes(Some(activate.policy_id)))) + (
    string_bytes(None) + byte_string_bytes(None))))))))))
}

/// Past `number` software certificates, each with its signature.
pub open spec fn certificates(bytes: Seq<u8>, number: nat) -> Parsed<()>
    decreases number,
{
    if number == 0 {
        Parsed::Read((), bytes)
    } else {
        byte_string(bytes).and(
            |certificate: Option<Seq<u8>>, rest: Seq<u8>|
        byte_string(rest).and(
            |signature: Option<Seq<u8>>, rest: Seq<u8>| certificates(rest, (number - 1) as nat),
        ))
    }
}

/// The policy id of the identity at a cursor, which must be anonymous.
#[verifier::opaque]
pub open spec fn identity(bytes: Seq<u8>) -> Parsed<Seq<char>> {
    node_id(bytes).and(
        |kind: NodeIdView, rest: Seq<u8>|
            {
                let refused = permanent(
                    "an identity token of type "@ + node_text(kind)
                        + ", and this side takes anonymous"@,
                );
                if kind != anonymous_identity() {
                    Parsed::Failed(refused, rest)
                } else {
                    byte(rest).and(
                        |encoding: u8, rest: Seq<u8>|
                            if encoding != 1 {
                                Parsed::Failed(refused, rest)
                            } else {
                                byte_string(rest).and(
                                    |token: Option<Seq<u8>>, rest: Seq<u8>|
                                        match string_or_empty(
                                            match token {
                                                Some(token) => token,
                                                None => Seq::empty(),
                                            },
                                        ) {
                                            Parsed::Read(policy_id, _) => Parsed::Read(
                                                policy_id,
                                                rest,
                                            ),
                                            Parsed::Failed(failure, _) => Parsed::Failed(
                                                failure,
                                                rest,
                                            ),
                                        },
                                )
                            },
                    )
                }
            },
    )
}

/// The activate request at a cursor, behind whose identity stands a
/// signature.
pub open spec fn activate_session(bytes: Seq<u8>) -> Parsed<ActivateSessionView> {
    request_header(bytes).and(
        |header: RequestHeaderView, rest: Seq<u8>|
    string(rest).and(
        |algorithm: Option<Seq<char>>, rest: Seq<u8>|
    byte_string(rest).and(
        |signature: Option<Seq<u8>>, rest: Seq<u8>|
    count(rest).and(
        |number: usize, rest: Seq<u8>|
    certificates(rest, number as nat).and(
        |certificates: (), rest: Seq<u8>|
    string_array(rest).and(
        |locales: (), rest: Seq<u8>|
    identity(rest).and(
        |policy_id: Seq<char>, rest: Seq<u8>|
    string(rest).and(
        |token_algorithm: Option<Seq<char>>, rest: Seq<u8>|
    byte_string(rest).and(
        |token_signature: Option<Seq<u8>>, rest: Seq<u8>|
            Parsed::Read(ActivateSessionView { header, policy_id }, rest),
    )))))))))
}

/// Past `number` software certificates, each with its signature.
fn skip_certificates(reader: &mut Cursor<'_>, number: usize) -> (result: Result<()>)
    ensures
        agrees(result, final(reader)@, certificates(old(reader)@, number as nat)),
{
    let ghost before = reader@;
    let mut left: usize = number;
    while left > 0
        invariant
            before == old(reader)@,
            certificates(before, number as nat) == certificates(reader@, left as nat),
        decreases left,
    {
        reader.byte_string()?;
        reader.byte_string()?;
        left -= 1;
    }
    Ok(())
}

/// The policy id of the identity at the cursor.
fn take_identity(reader: &mut Cursor<'_>) -> (result: Result<String>)
    ensures
        agrees(result, final(reader)@, identity(old(reader)@)),
{
    reveal(identity);
    let kind = reader.node_id()?;
    let anonymous = kind.same(&NodeId::numeric(0, ANONYMOUS_IDENTITY_TOKEN));
    let mut encoding: u8 = 0;
    if anonymous {
        encoding = reader.byte()?;
    }
    if !anonymous || encoding != 1 {
        let mut message = "an identity token of type ".to_string();
        message.append(kind.to_string().as_str());
        message.append(", and this side takes anonymous");
        return Err(TransportError::permanent(message));
    }
    let token: &[u8] = match reader.byte_string()? {
        Some(token) => token,
        None => &[],
    };
    Cursor::new(token).string_or_empty()
}

impl ActivateSession {
    #[must_use]
    pub fn to_bytes(&self) -> (out: Vec<u8>)
        ensures
            out@ == activate_session_bytes(self@),
    {
        broadcast use {lemma_join, lemma_nothing_join};

        let mut out = body(ACTIVATE_SESSION_REQUEST);
        self.header.put(&mut out);
        out.string(None).byte_string(None).i32_le(0).i32_le(0);
        NodeId::numeric(0, ANONYMOUS_IDENTITY_TOKEN).put(&mut out);
        let mut token: Vec<u8> = Vec::new();
        token.string(Some(self.policy_id.as_str()));
        out.byte(1).byte_string(Some(token.as_slice())).string(None).byte_string(None);
        out
    }

    /// # Errors
    /// Where the request is cut short or presents an identity other than
    /// anonymous.
    pub fn take(reader: &mut Cursor<'_>) -> (result: Result<Self>)
        ensures
            agrees(result, final(reader)@, activate_session(old(reader)@)),
    {
        let header = RequestHeader::take(reader)?;
        reader.string()?;
        reader.byte_string()?;
        let number = reader.count()?;
        skip_certificates(reader, number)?;
        reader.skip_strings()?;
        let policy_id = take_identity(reader)?;
        reader.string()?;
        reader.byte_string()?;
        Ok(ActivateSession { header, policy_id })
    }
}

/// An activate response: no nonce, no results, no diagnostics.
pub open spec fn session_activated_bytes(header: ResponseHeader) -> Seq<u8> {
    body_bytes(ACTIVATE_SESSION_RESPONSE) + (response_header_bytes(header) + (byte_string_bytes(None)
        + (i32_bytes(0) + i32_bytes(0))))
}

/// `ActivateSessionResponse`: nothing beyond the header.
#[must_use]
pub fn session_activated(header: &ResponseHeader) -> (out: Vec<u8>)
    ensures
        out@ == session_activated_bytes(*header),
{
    broadcast use lemma_join;

    let mut out = body(ACTIVATE_SESSION_RESPONSE);
    header.put(&mut out);
    out.byte_string(None).i32_le(0).i32_le(0);
    out
}

/// A close request: the header, and that subscriptions go with the session.
pub open spec fn close_session_bytes(header: RequestHeaderView) -> Seq<u8> {
    body_bytes(CLOSE_SESSION_REQUEST) + (request_header_bytes(header) + boolean_bytes(true))
}

/// `CloseSessionRequest`, subscriptions deleted with it.
#[must_use]
pub fn close_session(header: &RequestHeader) -> (out: Vec<u8>)
    ensures
        out@ == close_session_bytes(header@),
{
    broadcast use lemma_join;

    let mut out = body(CLOSE_SESSION_REQUEST);
    header.put(&mut out);
    out.bool(true);
    out
}

/// A close response: the header alone.
pub open spec fn session_closed_bytes(header: ResponseHeader) -> Seq<u8> {
    body_bytes(CLOSE_SESSION_RESPONSE) + response_header_bytes(header)
}

/// `CloseSessionResponse`: the header alone.
#[must_use]
pub fn session_closed(header: &ResponseHeader) -> (out: Vec<u8>)
    ensures
        out@ == session_closed_bytes(*header),
{
    let mut out = body(CLOSE_SESSION_RESPONSE);
    header.put(&mut out);
    out
}

pub broadcast proof fn lemma_application_is_passed(kind: u32, rest: Seq<u8>)
    ensures
        #[trigger] application(application_bytes(kind) + rest) == Parsed::Read((), rest),
{
    broadcast use group_reads_back;

    reveal(application);
    reveal(application_bytes);
    reveal_strlit("urn:xmip:transport:opc-ua");
    reveal_strlit("Xmip");
    lemma_text_fits(APPLICATION_URI@);
    lemma_text_fits("Xmip"@);
}

/// A create request says its type and reads back, to its last byte. Left out
/// are texts too long for their length field.
pub proof fn law_create_session_reads_back(create: CreateSessionView)
    requires
        create.fits(),
    ensures
        body_type(create_session_bytes(create)) matches Parsed::Read(id, rest) && id
            == CREATE_SESSION_REQUEST && create_session(rest) == Parsed::Read(
            create,
            Seq::empty(),
        ),
{
    broadcast use {
        group_reads_back,
        law_body_says_its_type,
        law_request_header_reads_back,
        lemma_application_is_passed,
    };

    let end = Seq::<u8>::empty();
    assert(u32_bytes(0) + end == u32_bytes(0));
}

proof fn lemma_policies_read_back(anonymous_policy: Option<Seq<char>>, rest: Seq<u8>)
    requires
        anonymous_policy matches Some(policy) ==> text_fits(policy),
    ensures
        count(policies_bytes(anonymous_policy) + rest) matches Parsed::Read(number, after)
            && policies(after, number as nat, None) == Parsed::Read(anonymous_policy, rest),
{
    broadcast use group_reads_back;

    reveal(policies_bytes);
    reveal_with_fuel(policies, 2);
    lemma_le_bytes_len(0, 4);
}

broadcast proof fn lemma_endpoint_reads_back(described: EndpointView, rest: Seq<u8>)
    requires
        described.fits(),
    ensures
        #[trigger] endpoint(endpoint_bytes(described) + rest) == Parsed::Read(described, rest),
{
    broadcast use {group_reads_back, lemma_application_is_passed};

    reveal(endpoint);
    reveal(endpoint_bytes);
    reveal_strlit("http://opcfoundation.org/UA-Profile/Transport/uatcp-uasc-uabinary");
    lemma_text_fits(BINARY_PROFILE@);
    let tail = string_bytes(Some(BINARY_PROFILE@)) + seq![0u8];
    lemma_policies_read_back(described.anonymous_policy, tail + rest);
}

proof fn lemma_endpoints_read_back(
    described: Seq<EndpointView>,
    before: Seq<EndpointView>,
    rest: Seq<u8>,
)
    requires
        forall|i: int| 0 <= i < described.len() ==> (#[trigger] described[i]).fits(),
    ensures
        endpoints(endpoints_bytes(described) + rest, described.len(), before) == Parsed::Read(
            before + described,
            rest,
        ),
        endpoints_bytes(described).len() >= described.len(),
    decreases described.len(),
{
    broadcast use {lemma_join, lemma_nothing_join, lemma_endpoint_reads_back};

    if described.len() == 0 {
        assert(before + described =~= before);
    } else {
        let first = described[0];
        let others = described.skip(1);
        assert(endpoint_bytes(first).len() >= 1) by {
            reveal(endpoint_bytes);
        }
        assert forall|i: int| 0 <= i < others.len() implies (#[trigger] others[i]).fits() by {
            assert(others[i] == described[i + 1]);
        }
        lemma_endpoints_read_back(others, before.push(first), rest);
        assert(before.push(first) + others =~= before + described);
    }
}

proof fn lemma_tail_is_passed()
    ensures
        behind_endpoints(
            i32_bytes(0) + (string_bytes(None) + (byte_string_bytes(None) + u32_bytes(0))),
        ) == Parsed::Read((), Seq::<u8>::empty()),
{
    broadcast use group_reads_back;

    reveal(behind_endpoints);
    let end = Seq::<u8>::empty();
    assert(u32_bytes(0) + end == u32_bytes(0));
}

/// A create response says its type and reads back, its endpoints in their
/// order, to its last byte. Left out are texts too long for their length field, and more
/// endpoints than their number can say.
pub proof fn law_session_created_reads_back(created: SessionCreatedView)
    requires
        created.fits(),
    ensures
        body_type(session_created_bytes(created)) matches Parsed::Read(id, rest) && id
            == CREATE_SESSION_RESPONSE && session_created(rest) == Parsed::Read(
            created,
            Seq::empty(),
        ),
{
    broadcast use {group_reads_back, law_body_says_its_type, law_response_header_reads_back};

    let tail = i32_bytes(0) + (string_bytes(None) + (byte_string_bytes(None) + u32_bytes(0)));
    lemma_endpoints_read_back(created.endpoints, Seq::empty(), tail);
    lemma_tail_is_passed();
    assert(Seq::<EndpointView>::empty() + created.endpoints =~= created.endpoints);
}

proof fn lemma_identity_reads_back(policy_id: Seq<char>, rest: Seq<u8>)
    requires
        text_fits(policy_id),
        string_bytes(Some(policy_id)).len() <= i32::MAX,
    ensures
        identity(
            node_bytes(anonymous_identity()) + (seq![1u8] + (byte_string_bytes(
                Some(string_bytes(Some(policy_id))),
            ) + rest)),
        ) == Parsed::Read(policy_id, rest),
{
    broadcast use group_reads_back;

    reveal(identity);
    let end = Seq::<u8>::empty();
    assert(string_bytes(Some(policy_id)) + end == string_bytes(Some(policy_id)));
}

/// An activate request says its type and reads back, to its last byte. Left
/// out are a token and a policy id too long for their length field.
pub proof fn law_activate_session_reads_back(activate: ActivateSessionView)
    requires
        activate.fits(),
    ensures
        body_type(activate_session_bytes(activate)) matches Parsed::Read(id, rest) && id
            == ACTIVATE_SESSION_REQUEST && activate_session(rest) == Parsed::Read(
            activate,
            Seq::empty(),
        ),
{
    broadcast use {group_reads_back, law_body_says_its_type, law_request_header_reads_back};

    let tail = string_bytes(None) + byte_string_bytes(None);
    lemma_identity_reads_back(activate.policy_id, tail);
    let end = Seq::<u8>::empty();
    assert(byte_string_bytes(None) + end == byte_string_bytes(None));
}

/// An activate response says its type and whom it answers.
pub proof fn law_session_activated_reads_back(header: ResponseHeader)
    ensures
        body_type(session_activated_bytes(header)) matches Parsed::Read(id, rest) && id
            == ACTIVATE_SESSION_RESPONSE && response_header(rest).gives(header),
{
    broadcast use {group_reads_back, law_body_says_its_type, law_response_header_reads_back};

}

/// A close request says its type and whose session it closes. Left out is
/// a token too long for its length field.
pub proof fn law_close_session_reads_back(header: RequestHeaderView)
    requires
        header.token.fits(),
    ensures
        body_type(close_session_bytes(header)) matches Parsed::Read(id, rest) && id
            == CLOSE_SESSION_REQUEST && request_header(rest).gives(header),
{
    broadcast use {group_reads_back, law_body_says_its_type, law_request_header_reads_back};

}

/// A close response says its type and whom it answers, to its last byte.
pub proof fn law_session_closed_reads_back(header: ResponseHeader)
    ensures
        body_type(session_closed_bytes(header)) matches Parsed::Read(id, rest) && id
            == CLOSE_SESSION_RESPONSE && response_header(rest) == Parsed::Read(
            header,
            Seq::empty(),
        ),
{
    broadcast use {group_reads_back, law_body_says_its_type, law_response_header_reads_back};

    let end = Seq::<u8>::empty();
    assert(response_header_bytes(header) + end == response_header_bytes(header));
}

/// That an endpoint offers an anonymous login under security policy None.
pub open spec fn offers_anonymous(described: EndpointView) -> bool {
    described.security_policy == "http://opcfoundation.org/UA/SecurityPolicy#None"@
        && described.anonymous_policy is Some
}

/// The anonymous policy chosen is that of the first endpoint that is under
/// security policy None and has one, whatever endpoints stand before it and
/// behind it; none is chosen exactly where no endpoint is such.
pub proof fn law_anonymous_policy_is_the_first_under_none(endpoints: Seq<EndpointView>)
    ensures
        match anonymous_under_none(endpoints) {
            Some(policy) => exists|at: int|
                0 <= at < endpoints.len() && #[trigger] offers_anonymous(endpoints[at])
                    && endpoints[at].anonymous_policy == Some(policy) && (forall|before: int|
                    0 <= before < at ==> !#[trigger] offers_anonymous(endpoints[before])),
            None => forall|at: int|
                0 <= at < endpoints.len() ==> !#[trigger] offers_anonymous(endpoints[at]),
        },
    decreases endpoints.len(),
{
    if endpoints.len() > 0 {
        let others = endpoints.skip(1);
        law_anonymous_policy_is_the_first_under_none(others);
        assert forall|at: int| 1 <= at < endpoints.len() implies #[trigger] endpoints[at]
            == others[at - 1] by {}
        if offers_anonymous(endpoints[0]) {
            assert(endpoints[0].anonymous_policy == anonymous_under_none(endpoints));
        } else if let Some(policy) = anonymous_under_none(others) {
            let at = choose|at: int|
                0 <= at < others.len() && #[trigger] offers_anonymous(others[at])
                    && others[at].anonymous_policy == Some(policy) && (forall|before: int|
                    0 <= before < at ==> !#[trigger] offers_anonymous(others[before]));
            assert(offers_anonymous(endpoints[at + 1]));
        }
    }
}

} // verus!
