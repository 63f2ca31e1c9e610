//! The transport itself: an endpoint, the node on it that is read and
//! written, and how a send target and an origin name the two.

use std::time::Duration;

use vstd::prelude::*;

use crate::error::{permanent, Failure, Result, TransportError};
use crate::node::{
    law_node_text_parses_back, node_text, not_a_node, parsed_node, NodeId, NodeIdView,
};
use crate::service::{status_error, status_failure, GOOD};
use crate::text::{
    begins_with, characters, debug_text, decimal, find, first_place, law_first_place_is_the_first,
    lemma_first_place, quoted, signed_decimal, signed_decimal_text, starts_with,
};
use crate::wire::{DataValue, DataValueView};

verus! {

/// What an endpoint begins with.
pub const SCHEME: &'static str = "opc.tcp://";

/// The endpoint path the loopback pair agrees on.
pub const LOOPBACK_PATH: &'static str = "/xmip";

/// The node the loopback pair agrees on.
pub const LOOPBACK_NODE: &'static str = "ns=2;s=Probe";

/// One Stream, and where it came from.
#[derive(Debug, PartialEq, Eq)]
pub struct Arrived {
    pub origin_uri: String,
    pub bytes: Vec<u8>,
}

/// What an [`Arrived`] is.
pub struct ArrivedView {
    pub origin_uri: Seq<char>,
    pub bytes: Seq<u8>,
}

impl View for Arrived {
    type V = ArrivedView;

    open spec fn view(&self) -> ArrivedView {
        ArrivedView { origin_uri: self.origin_uri@, bytes: self.bytes@ }
    }
}

impl Clone for Arrived {
    fn clone(&self) -> (copy: Self)
        ensures
            copy@ == self@,
    {
        Arrived {
            origin_uri: self.origin_uri.clone(),
            bytes: vstd::slice::slice_to_vec(self.bytes.as_slice()),
        }
    }
}

/// An endpoint, the node on it, and how long to wait for an answer.
pub struct OpcUaTransport {
    /// `opc.tcp://host:port/path`.
    endpoint: String,
    node: NodeId,
    timeout: Option<Duration>,
}

/// What an [`OpcUaTransport`] speaks about.
pub struct OpcUaTransportView {
    pub endpoint: Seq<char>,
    pub node: NodeIdView,
    pub timeout: Option<Duration>,
}

impl View for OpcUaTransport {
    type V = OpcUaTransportView;

    closed spec fn view(&self) -> OpcUaTransportView {
        OpcUaTransportView {
            endpoint: self.endpoint@,
            node: self.node@,
            timeout: self.timeout,
        }
    }
}

impl Clone for OpcUaTransport {
    fn clone(&self) -> (copy: Self)
        ensures
            copy@ == self@,
    {
        OpcUaTransport {
            endpoint: self.endpoint.clone(),
            node: self.node.clone(),
            timeout: self.timeout,
        }
    }
}

/// A transport that speaks to `endpoint` about `node`.
pub open spec fn transport_to(endpoint: Seq<char>, node: NodeIdView) -> OpcUaTransportView {
    OpcUaTransportView { endpoint, node, timeout: None }
}

impl OpcUaTransportView {
    /// With `timeout` on every read.
    pub open spec fn timed(self, timeout: Duration) -> OpcUaTransportView {
        OpcUaTransportView { timeout: Some(timeout), ..self }
    }
}

/// What each of some Streams is.
pub open spec fn streams(all: Seq<Arrived>) -> Seq<ArrivedView> {
    Seq::new(all.len(), |at: int| all[at]@)
}

/// Both ends on this machine, with `timeout` on every read.
pub open spec fn loopback_transport(timeout: Duration) -> OpcUaTransportView {
    OpcUaTransportView {
        endpoint: "opc.tcp://127.0.0.1:0"@ + LOOPBACK_PATH@,
        node: NodeIdView::String { namespace: 2, id: "Probe"@ },
        timeout: Some(timeout),
    }
}

/// The near end of a loopback pair about `node` whose far end is at `address`.
pub open spec fn near_transport(
    node: NodeIdView,
    address: Seq<char>,
    timeout: Duration,
) -> OpcUaTransportView {
    OpcUaTransportView {
        endpoint: SCHEME@ + address + LOOPBACK_PATH@,
        node,
        timeout: Some(timeout),
    }
}

/// The authority and path of `opc.tcp://host:port/path`: what stands before
/// and behind the first slash.
pub open spec fn split_endpoint(endpoint: Seq<char>) -> Option<(Seq<char>, Seq<char>)> {
    if begins_with(endpoint, SCHEME@) {
        let slash = first_place(endpoint, '/', 10);
        let authority = endpoint.subrange(10, slash);
        if slash < endpoint.len() {
            Some((authority, endpoint.skip(slash + 1)))
        } else {
            Some((authority, Seq::empty()))
        }
    } else {
        None
    }
}

/// A text that is no endpoint.
pub open spec fn not_an_endpoint(endpoint: Seq<char>) -> Failure {
    permanent(debug_text(endpoint) + " is not opc.tcp://host:port/path"@)
}

/// A target that names an endpoint and no node on it.
pub open spec fn names_no_node(target: Seq<char>) -> Failure {
    permanent(debug_text(target) + " names no node: opc.tcp://host/path#node"@)
}

/// The endpoint and node a target names, on `endpoint` where it names a node
/// alone; or why it names none.
pub open spec fn resolved(endpoint: Seq<char>, target: Seq<char>) -> std::result::Result<
    (Seq<char>, NodeIdView),
    Failure,
> {
    if begins_with(target, SCHEME@) {
        let hash = first_place(target, '#', 0);
        if hash >= target.len() {
            Err(names_no_node(target))
        } else {
            match parsed_node(target.skip(hash + 1)) {
                Some(node) => Ok((target.take(hash), node)),
                None => Err(not_a_node(target.skip(hash + 1))),
            }
        }
    } else {
        match parsed_node(target) {
            Some(node) => Ok((endpoint, node)),
            None => Err(not_a_node(target)),
        }
    }
}

/// Where a value that was read comes from: the endpoint, the node, and the
/// value's own timestamp, or zero.
pub open spec fn origin(
    authority: Seq<char>,
    path: Seq<char>,
    node: NodeIdView,
    source_timestamp: Option<i64>,
) -> Seq<char> {
    let source = match source_timestamp {
        Some(stamp) => stamp as int,
        None => 0,
    };
    "opc-ua://"@ + authority + "/"@ + path + "#"@ + node_text(node) + "?source="@ + signed_decimal(
        source,
    )
}

/// The Streams a value that was read is: one, or none where the value is
/// null; or why it is refused.
pub open spec fn received(transport: OpcUaTransportView, value: DataValueView) -> std::result::Result<
    Seq<ArrivedView>,
    Failure,
> {
    if value.status != GOOD {
        Err(status_failure("reading the node"@, value.status))
    } else {
        match value.bytes {
            None => Ok(Seq::empty()),
            Some(bytes) => match split_endpoint(transport.endpoint) {
                None => Err(not_an_endpoint(transport.endpoint)),
                Some((authority, path)) => Ok(
                    seq![
                        ArrivedView {
                            origin_uri: origin(
                                authority,
                                path,
                                transport.node,
                                value.source_timestamp,
                            ),
                            bytes,
                        },
                    ],
                ),
            },
        }
    }
}

/// The authority and path of `opc.tcp://host:port/path`.
///
/// # Errors
/// Where the text is not that.
pub fn split<'a>(endpoint: &'a str) -> (result: Result<(&'a str, &'a str)>)
    ensures
        match split_endpoint(endpoint@) {
            Some((authority, path)) => result matches Ok(parts) && parts.0@ == authority
                && parts.1@ == path,
            None => result matches Err(error) && error@ == not_an_endpoint(endpoint@),
        },
{
    proof {
        reveal_strlit("opc.tcp://");
    }
    let text = characters(endpoint);
    assert(endpoint@.skip(0) =~= endpoint@);
    if !starts_with(&text, 0, SCHEME) {
        let mut message = quoted(endpoint);
        message.append(" is not opc.tcp://host:port/path");
        return Err(TransportError::permanent(message));
    }
    let slash = find(&text, '/', 10);
    let authority = endpoint.substring_char(10, slash);
    let path = if slash < text.len() {
        endpoint.substring_char(slash + 1, text.len())
    } else {
        endpoint.substring_char(text.len(), text.len())
    };
    assert(slash < endpoint@.len() ==> endpoint@.subrange(slash + 1, endpoint@.len() as int)
        =~= endpoint@.skip(slash + 1));
    assert(endpoint@.subrange(endpoint@.len() as int, endpoint@.len() as int)
        =~= Seq::<char>::empty());
    Ok((authority, path))
}

impl OpcUaTransport {
    /// Speak to the server at `endpoint` — `opc.tcp://host:4840/path` —
    /// about `node`.
    #[must_use]
    pub fn new(endpoint: &str, node: NodeId) -> (transport: Self)
        ensures
            transport@ == transport_to(endpoint@, node@),
    {
        OpcUaTransport { endpoint: endpoint.to_string(), node, timeout: None }
    }

    /// Give up on a server that stops mid-answer.
    #[must_use]
    pub fn timing_out_after(self, timeout: Duration) -> (transport: Self)
        ensures
            transport@ == self@.timed(timeout),
    {
        OpcUaTransport { endpoint: self.endpoint, node: self.node, timeout: Some(timeout) }
    }

    /// What this transport is called.
    #[must_use]
    pub fn name(&self) -> (name: &'static str)
        ensures
            name@ == "opc-ua"@,
    {
        "opc-ua"
    }

    /// The endpoint spoken to.
    #[must_use]
    pub fn endpoint(&self) -> (endpoint: &str)
        ensures
            endpoint@ == self@.endpoint,
    {
        self.endpoint.as_str()
    }

    /// The node spoken about.
    #[must_use]
    pub fn node(&self) -> (node: &NodeId)
        ensures
            node@ == self@.node,
    {
        &self.node
    }

    /// How long to wait for an answer.
    #[must_use]
    pub fn timeout(&self) -> (timeout: Option<Duration>)
        ensures
            timeout == self@.timeout,
    {
        self.timeout
    }

    /// Where a target names the endpoint and node itself —
    /// `opc.tcp://host:port/path#node` — or is a node id alone on this
    /// transport's endpoint.
    ///
    /// # Errors
    /// Where the target names no node.
    pub fn resolve(&self, target: &str) -> (result: Result<(String, NodeId)>)
        ensures
            match resolved(self@.endpoint, target@) {
                Ok((endpoint, node)) => result matches Ok(found) && found.0@ == endpoint
                    && found.1@ == node,
                Err(failure) => result matches Err(error) && error@ == failure,
            },
    {
        let text = characters(target);
        assert(target@.skip(0) =~= target@);
        if starts_with(&text, 0, SCHEME) {
            let hash = find(&text, '#', 0);
            if hash == text.len() {
                let mut message = quoted(target);
                message.append(" names no node: opc.tcp://host/path#node");
                return Err(TransportError::permanent(message));
            }
            assert(target@.subrange(0, hash as int) =~= target@.take(hash as int));
            assert(target@.subrange(hash + 1, target@.len() as int) =~= target@.skip(hash + 1));
            let node = NodeId::parse(target.substring_char(hash + 1, text.len()))?;
            return Ok((target.substring_char(0, hash).to_string(), node));
        }
        let node = NodeId::parse(target)?;
        Ok((self.endpoint.clone(), node))
    }

    /// The Streams a value that was read is: the node's value, one Stream;
    /// none where the value is null.
    ///
    /// # Errors
    /// Where the value is not good, or the endpoint is not
    /// `opc.tcp://host:port/path`.
    pub fn received(&self, value: DataValue) -> (result: Result<Vec<Arrived>>)
        ensures
            match received(self@, value@) {
                Ok(expected) => result matches Ok(all) && streams(all@) == expected,
                Err(failure) => result matches Err(error) && error@ == failure,
            },
    {
        if value.status != GOOD {
            return Err(status_error("reading the node", value.status));
        }
        let mut all: Vec<Arrived> = Vec::new();
        if let Some(bytes) = value.bytes {
            let (authority, path) = split(self.endpoint.as_str())?;
            let source: i64 = match value.source_timestamp {
                Some(stamp) => stamp,
                None => 0,
            };
            let mut origin_uri = "opc-ua://".to_string();
            origin_uri.append(authority);
            origin_uri.append("/");
            origin_uri.append(path);
            origin_uri.append("#");
            origin_uri.append(self.node.to_string().as_str());
            origin_uri.append("?source=");
            origin_uri.append(signed_decimal_text(source).as_str());
            all.push(Arrived { origin_uri, bytes });
            assert(streams(all@) =~= seq![all@[0]@]);
        }
        assert(all@.len() == 0 ==> streams(all@) =~= Seq::<ArrivedView>::empty());
        Ok(all)
    }

    /// Both ends on this machine: an ephemeral local port, one node,
    /// `timeout` on every read.
    #[must_use]
    pub fn loopback(timeout: Duration) -> (transport: Self)
        ensures
            transport@ == loopback_transport(timeout),
    {
        proof {
            reveal_strlit("ns=");
            reveal_strlit(";s=");
            reveal_strlit("Probe");
            reveal_strlit("ns=2;s=Probe");
            let probe = NodeIdView::String { namespace: 2, id: "Probe"@ };
            assert(decimal(2) =~= seq!['2']);
            assert(node_text(probe) =~= LOOPBACK_NODE@);
            law_node_text_parses_back(probe);
        }
        let node = match NodeId::parse(LOOPBACK_NODE) {
            Ok(node) => node,
            Err(_) => NodeId::numeric(0, 0),
        };
        let mut endpoint = "opc.tcp://127.0.0.1:0".to_string();
        endpoint.append(LOOPBACK_PATH);
        Self::new(endpoint.as_str(), node).timing_out_after(timeout)
    }

    /// The near end of a loopback pair whose far end is at `address`.
    #[must_use]
    pub fn near_end(&self, address: &str, timeout: Duration) -> (transport: Self)
        ensures
            transport@ == near_transport(self@.node, address@, timeout),
    {
        let mut endpoint = SCHEME.to_string();
        endpoint.append(address);
        endpoint.append(LOOPBACK_PATH);
        Self::new(endpoint.as_str(), self.node.clone()).timing_out_after(timeout)
    }
}

/// A node id alone, as it is written, names that node on the configured
/// endpoint.
pub proof fn law_bare_node_is_on_the_endpoint(endpoint: Seq<char>, node: NodeIdView)
    ensures
        resolved(endpoint, node_text(node)) == Ok::<(Seq<char>, NodeIdView), Failure>(
            (endpoint, node),
        ),
{
    law_node_text_parses_back(node);
    reveal_strlit("opc.tcp://");
    reveal_strlit("i=");
    reveal_strlit("ns=");
    let text = node_text(node);
    assert(text[0] == 'i' || text[0] == 'n');
    if begins_with(text, SCHEME@) {
        assert(text[0] == text.take(10)[0]);
    }
}

/// An endpoint and a node, with a hash between them, name both. Left out are
/// endpoints that do not begin as one, or have a hash of their own.
pub proof fn law_target_names_its_endpoint_and_node(
    configured: Seq<char>,
    endpoint: Seq<char>,
    node: NodeIdView,
)
    requires
        begins_with(endpoint, SCHEME@),
        !endpoint.contains('#'),
    ensures
        resolved(configured, endpoint + "#"@ + node_text(node)) == Ok::<
            (Seq<char>, NodeIdView),
            Failure,
        >((endpoint, node)),
{
    law_node_text_parses_back(node);
    reveal_strlit("#");
    let target = endpoint + "#"@ + node_text(node);
    let hash = endpoint.len() as int;
    assert(target[hash] == '#');
    assert forall|i: int| 0 <= i < hash implies #[trigger] target[i] != '#' by {
        assert(target[i] == endpoint[i]);
        assert(endpoint.contains(endpoint[i]));
    }
    lemma_first_place(target, '#', 0, hash);
    assert(target.take(hash) =~= endpoint);
    assert(target.skip(hash + 1) =~= node_text(node));
    assert(target.take(SCHEME@.len() as int) =~= endpoint.take(SCHEME@.len() as int));
}

/// An origin names the endpoint that a target does, and the node: two values
/// read of one node have one origin if and only if they have one timestamp,
/// so that a value read again can be told from a new one.
pub proof fn law_origin_tells_a_new_value(
    authority: Seq<char>,
    path: Seq<char>,
    node: NodeIdView,
    first: i64,
    second: i64,
)
    ensures
        origin(authority, path, node, Some(first)) == origin(authority, path, node, Some(second))
            <==> first == second,
{
    let a = origin(authority, path, node, Some(first));
    let b = origin(authority, path, node, Some(second));
    let front = "opc-ua://"@ + authority + "/"@ + path + "#"@ + node_text(node) + "?source="@;
    if a == b {
        assert(a.skip(front.len() as int) =~= signed_decimal(first as int));
        assert(b.skip(front.len() as int) =~= signed_decimal(second as int));
        lemma_signed_decimal_tells(first as int, second as int);
    }
}

proof fn lemma_signed_decimal_tells(first: int, second: int)
    requires
        signed_decimal(first) == signed_decimal(second),
    ensures
        first == second,
{
    let a = if first < 0 { -first } else { first } as nat;
    let b = if second < 0 { -second } else { second } as nat;
    crate::text::lemma_decimal(a);
    crate::text::lemma_decimal(b);
    if first < 0 {
        assert(signed_decimal(first).skip(1) =~= decimal(a));
        assert(signed_decimal(first)[0] == '-');
    }
    if second < 0 {
        assert(signed_decimal(second).skip(1) =~= decimal(b));
        assert(signed_decimal(second)[0] == '-');
    }
}

/// An endpoint is an authority, up to the first slash, and a path behind it,
/// which may be missing or empty; what does not begin as one is none.
pub proof fn law_endpoint_is_an_authority_and_a_path(
    authority: Seq<char>,
    path: Seq<char>,
    other: Seq<char>,
)
    requires
        !authority.contains('/'),
        !begins_with(other, "opc.tcp://"@),
    ensures
        split_endpoint("opc.tcp://"@ + authority + "/"@ + path) == Some((authority, path)),
        split_endpoint("opc.tcp://"@ + authority) == Some((authority, Seq::<char>::empty())),
        split_endpoint(other) is None,
{
    reveal_strlit("opc.tcp://");
    reveal_strlit("/");
    let whole = "opc.tcp://"@ + authority + "/"@ + path;
    let bare = "opc.tcp://"@ + authority;
    let slash = 10 + authority.len() as int;
    assert(whole.take(10) =~= "opc.tcp://"@);
    assert(bare.take(10) =~= "opc.tcp://"@);
    assert forall|i: int| 10 <= i < slash implies #[trigger] whole[i] != '/' by {
        assert(whole[i] == authority[i - 10]);
        assert(authority.contains(authority[i - 10]));
    }
    lemma_first_place(whole, '/', 10, slash);
    law_first_place_is_the_first(bare, '/', 10);
    let place = first_place(bare, '/', 10);
    if place < bare.len() {
        assert(bare[place] == authority[place - 10]);
        assert(authority.contains(authority[place - 10]));
    }
    assert(whole.subrange(10, slash) =~= authority);
    assert(whole.skip(slash + 1) =~= path);
    assert(bare.subrange(10, slash) =~= authority);
}

/// A good value with bytes is one Stream of exactly those bytes, however many
/// there are, whose origin is the authority and path of the endpoint, the node
/// as it is printed, and the value's own timestamp, or zero where it has none.
pub proof fn law_value_is_received_whole(
    authority: Seq<char>,
    path: Seq<char>,
    node: NodeIdView,
    timeout: Option<Duration>,
    bytes: Seq<u8>,
    stamp: Option<i64>,
)
    requires
        !authority.contains('/'),
    ensures
        received(
            OpcUaTransportView {
                endpoint: "opc.tcp://"@ + authority + "/"@ + path,
                node,
                timeout,
            },
            DataValueView { bytes: Some(bytes), status: 0, source_timestamp: stamp },
        ) == Ok::<Seq<ArrivedView>, Failure>(
            seq![
                ArrivedView {
                    origin_uri: "opc-ua://"@ + authority + "/"@ + path + "#"@ + node_text(node)
                        + "?source="@ + match stamp {
                        Some(stamp) => signed_decimal(stamp as int),
                        None => signed_decimal(0),
                    },
                    bytes,
                },
            ],
        ),
{
    reveal_strlit("");
    reveal_strlit("opc.tcp://");
    assert(!begins_with(""@, "opc.tcp://"@));
    law_endpoint_is_an_authority_and_a_path(authority, path, ""@);
}

/// A good value is one Stream of its bytes on any endpoint, and no Stream
/// where it is null; a value of any other status is refused, by its status,
/// whatever it has; and so is one with bytes on what is no endpoint.
pub proof fn law_value_is_received_or_refused(
    transport: OpcUaTransportView,
    value: DataValueView,
)
    ensures
        value.status != 0 ==> received(transport, value) == Err::<Seq<ArrivedView>, Failure>(
            status_failure("reading the node"@, value.status),
        ),
        value.status == 0 && value.bytes is None ==> received(transport, value) == Ok::<
            Seq<ArrivedView>,
            Failure,
        >(Seq::empty()),
        value.status == 0 && value.bytes is Some && begins_with(transport.endpoint, "opc.tcp://"@)
            ==> (received(transport, value) matches Ok(all) && all.len() == 1 && Some(all[0].bytes)
            == value.bytes),
        value.status == 0 && value.bytes is Some && !begins_with(transport.endpoint, "opc.tcp://"@)
            ==> received(transport, value) == Err::<Seq<ArrivedView>, Failure>(
            Failure {
                message: debug_text(transport.endpoint) + " is not opc.tcp://host:port/path"@,
                retryable: false,
            },
        ),
{
}

/// Each of some Streams is told, in their order.
pub proof fn law_streams_are_told_one_by_one(all: Seq<Arrived>)
    ensures
        streams(all).len() == all.len(),
        forall|at: int| 0 <= at < all.len() ==> #[trigger] streams(all)[at] == (ArrivedView {
            origin_uri: all[at].origin_uri@,
            bytes: all[at].bytes@,
        }),
{
}

/// The far end of a loopback pair takes any port of this machine, and the
/// near end is at whatever address it took, on one path and about one node;
/// both wait no longer than they are told.
pub proof fn law_loopback_ends_meet(node: NodeIdView, address: Seq<char>, timeout: Duration)
    ensures
        loopback_transport(timeout).endpoint == "opc.tcp://127.0.0.1:0"@ + "/xmip"@,
        loopback_transport(timeout).node == (NodeIdView::String {
            namespace: 2,
            id: "Probe"@,
        }),
        loopback_transport(timeout).timeout == Some(timeout),
        near_transport(node, address, timeout).endpoint == "opc.tcp://"@ + address + "/xmip"@,
        near_transport(node, address, timeout).node == node,
        near_transport(node, address, timeout).timeout == Some(timeout),
        !address.contains('/') ==> split_endpoint(near_transport(node, address, timeout).endpoint)
            == Some((address, "xmip"@)),
{
    reveal_strlit("");
    reveal_strlit("opc.tcp://");
    reveal_strlit("/xmip");
    reveal_strlit("xmip");
    reveal_strlit("/");
    assert("/xmip"@ =~= "/"@ + "xmip"@);
    assert("opc.tcp://"@ + address + "/xmip"@ =~= "opc.tcp://"@ + address + "/"@ + "xmip"@);
    if !address.contains('/') {
        assert(!begins_with(""@, "opc.tcp://"@));
        law_endpoint_is_an_authority_and_a_path(address, "xmip"@, ""@);
    }
}

/// A target that begins as an endpoint names what stands before its first hash
/// and the node behind it; where that names none, or there is no hash, it is
/// refused. Any other target is a node on the configured endpoint, or is
/// refused.
pub proof fn law_target_is_resolved(
    configured: Seq<char>,
    endpoint: Seq<char>,
    text: Seq<char>,
    bare: Seq<char>,
)
    requires
        begins_with(endpoint, "opc.tcp://"@),
        !endpoint.contains('#'),
        !begins_with(bare, "opc.tcp://"@),
    ensures
        resolved(configured, endpoint + "#"@ + text) == match parsed_node(text) {
            Some(node) => Ok::<(Seq<char>, NodeIdView), Failure>((endpoint, node)),
            None => Err(not_a_node(text)),
        },
        resolved(configured, endpoint) == Err::<(Seq<char>, NodeIdView), Failure>(
            Failure {
                message: debug_text(endpoint) + " names no node: opc.tcp://host/path#node"@,
                retryable: false,
            },
        ),
        resolved(configured, bare) == match parsed_node(bare) {
            Some(node) => Ok::<(Seq<char>, NodeIdView), Failure>((configured, node)),
            None => Err(not_a_node(bare)),
        },
{
    reveal_strlit("#");
    let target = endpoint + "#"@ + text;
    let hash = endpoint.len() as int;
    assert(target[hash] == '#');
    assert forall|i: int| 0 <= i < hash implies #[trigger] target[i] != '#' by {
        assert(target[i] == endpoint[i]);
        assert(endpoint.contains(endpoint[i]));
    }
    lemma_first_place(target, '#', 0, hash);
    assert(target.take(hash) =~= endpoint);
    assert(target.skip(hash + 1) =~= text);
    assert(target.take("opc.tcp://"@.len() as int) =~= endpoint.take("opc.tcp://"@.len() as int));
    law_first_place_is_the_first(endpoint, '#', 0);
    let place = first_place(endpoint, '#', 0);
    if place < endpoint.len() {
        assert(endpoint.contains(endpoint[place]));
    }
}

/// A transport speaks to the endpoint and about the node it was given, and
/// waits for as long as it takes, until it is told how long; what it was told
/// last counts.
pub proof fn law_transport_is_what_it_was_told(
    endpoint: Seq<char>,
    node: NodeIdView,
    first: Duration,
    last: Duration,
)
    ensures
        transport_to(endpoint, node).endpoint == endpoint,
        transport_to(endpoint, node).node == node,
        transport_to(endpoint, node).timeout is None,
        transport_to(endpoint, node).timed(first).timed(last) == (OpcUaTransportView {
            endpoint,
            node,
            timeout: Some(last),
        }),
{
}

} // verus!
