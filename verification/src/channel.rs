//! The OPC UA connection protocol over TCP: a message is three letters,
//! whether it is final, its size and its body. Hello and Acknowledge agree
//! the buffers; Error says why the other side is going; `OpenSecureChannel`
//! carries the asymmetric security header — the policy, which here is
//! always None — and every message after it carries the channel id, the
//! token id and a sequence header. A message longer than the far end's
//! receive buffer crosses in chunks, each with its own headers, the last
//! marked final.

use vstd::arithmetic::div_mod::{lemma_basic_div, lemma_div_plus_one};
use vstd::arithmetic::power::pow;
use vstd::prelude::*;

use crate::codec::{
    agrees, agrees_held, held, le_value, lemma_join, lemma_le_bytes_len, lemma_le_reads_back,
    lemma_nothing_join, u32_bytes, u32_le, ByteWriter, Cursor, Parsed,
};
use crate::error::{permanent, protocol_error, Failure, Result, TransportError};
use crate::text::{decimal, decimal_text, hex, hex_text, lossy, same_text, text_of};
use crate::wire::{
    byte_string, byte_string_bytes, group_reads_back, lemma_text_fits, string_bytes,
    string_or_empty, text_fits, UaBinary, UaBinaryWrite,
};

verus! {

/// The one security policy spoken here.
pub const NONE_POLICY: &'static str = "http://opcfoundation.org/UA/SecurityPolicy#None";

/// The protocol version every stack answers.
pub const PROTOCOL_VERSION: u32 = 0;

/// `HEL`.
pub const HELLO: [u8; 3] = [0x48, 0x45, 0x4c];

/// `ACK`.
pub const ACKNOWLEDGE: [u8; 3] = [0x41, 0x43, 0x4b];

/// `ERR`.
pub const ERROR: [u8; 3] = [0x45, 0x52, 0x52];

/// `OPN`.
pub const OPEN: [u8; 3] = [0x4f, 0x50, 0x4e];

/// `MSG`.
pub const MESSAGE: [u8; 3] = [0x4d, 0x53, 0x47];

/// `CLO`.
pub const CLOSE: [u8; 3] = [0x43, 0x4c, 0x4f];

/// `F`: the last chunk of a message.
pub const FINAL: u8 = 0x46;

/// `C`: a chunk that others follow.
pub const CONTINUED: u8 = 0x43;

/// `A`: the message is given up.
pub const ABORTED: u8 = 0x41;

/// The bytes of a chunk that are not its body: the message header, the
/// channel id, the token id and the sequence header.
pub const CHUNK_OVERHEAD: usize = 24;

/// The smallest receive buffer the protocol allows.
pub const MIN_BUFFER: u32 = 8_192;

/// What one side reads and sends: a chunk's size each way, the largest
/// message and the most chunks, zero for no limit.
#[derive(Clone, Copy, Debug, PartialEq, Eq)]
pub struct Limits {
    pub receive_buffer: u32,
    pub send_buffer: u32,
    pub max_message: u32,
    pub max_chunks: u32,
}

impl View for Limits {
    type V = Limits;

    open spec fn view(&self) -> Limits {
        *self
    }
}

/// Limits behind the protocol version.
pub open spec fn limits_bytes(limits: Limits) -> Seq<u8> {
    u32_bytes(PROTOCOL_VERSION) + (u32_bytes(limits.receive_buffer) + (u32_bytes(limits.send_buffer)
        + (u32_bytes(limits.max_message) + u32_bytes(limits.max_chunks))))
}

/// The limits at a cursor, behind a protocol version. A buffer under the
/// minimum is refused.
pub open spec fn limits(bytes: Seq<u8>) -> Parsed<Limits> {
    u32_le(bytes).and(
        |version: u32, rest: Seq<u8>|
    u32_le(rest).and(
        |receive_buffer: u32, rest: Seq<u8>|
    u32_le(rest).and(
        |send_buffer: u32, rest: Seq<u8>|
    u32_le(rest).and(
        |max_message: u32, rest: Seq<u8>|
    u32_le(rest).and(
        |max_chunks: u32, rest: Seq<u8>|
            if receive_buffer < MIN_BUFFER || send_buffer < MIN_BUFFER {
                Parsed::Failed(
                    permanent("a buffer under the eight kibibytes the protocol asks"@),
                    rest,
                )
            } else {
                Parsed::Read(Limits { receive_buffer, send_buffer, max_message, max_chunks }, rest)
            },
    )))))
}

impl Default for Limits {
    /// Sixty-four kibibyte chunks, any message, any number of chunks.
    fn default() -> (limits: Self)
        ensures
            limits == (Limits {
                receive_buffer: 65_535,
                send_buffer: 65_535,
                max_message: 0,
                max_chunks: 0,
            }),
    {
        Limits { receive_buffer: 65_535, send_buffer: 65_535, max_message: 0, max_chunks: 0 }
    }
}

impl Limits {
    fn put(&self, out: &mut Vec<u8>)
        ensures
            final(out)@ == old(out)@ + limits_bytes(*self),
    {
        broadcast use lemma_join;

        out.u32_le(PROTOCOL_VERSION).u32_le(self.receive_buffer).u32_le(self.send_buffer).u32_le(
            self.max_message,
        ).u32_le(self.max_chunks);
    }

    fn take(reader: &mut Cursor<'_>) -> (result: Result<Self>)
        ensures
            agrees(result, final(reader)@, limits(old(reader)@)),
    {
        reader.u32_le()?;
        let receive_buffer = reader.u32_le()?;
        let send_buffer = reader.u32_le()?;
        let max_message = reader.u32_le()?;
        let max_chunks = reader.u32_le()?;
        if receive_buffer < MIN_BUFFER || send_buffer < MIN_BUFFER {
            return Err(protocol_error("a buffer under the eight kibibytes the protocol asks"));
        }
        Ok(Limits { receive_buffer, send_buffer, max_message, max_chunks })
    }

    /// The largest body one chunk to a side with these limits carries.
    #[must_use]
    pub fn chunk_body(&self) -> (length: usize)
        requires
            self.receive_buffer >= CHUNK_OVERHEAD,
        ensures
            length == self.receive_buffer - CHUNK_OVERHEAD,
    {
        self.receive_buffer as usize - CHUNK_OVERHEAD
    }
}

/// Hello: the client's limits and the endpoint it wants.
#[derive(Debug, PartialEq, Eq)]
pub struct Hello {
    pub limits: Limits,
    pub endpoint_url: String,
}

/// What a [`Hello`] asks.
pub struct HelloView {
    pub limits: Limits,
    pub endpoint_url: Seq<char>,
}

impl View for Hello {
    type V = HelloView;

    open spec fn view(&self) -> HelloView {
        HelloView { limits: self.limits, endpoint_url: self.endpoint_url@ }
    }
}

impl Clone for Hello {
    fn clone(&self) -> (copy: Self)
        ensures
            copy@ == self@,
    {
        Hello { limits: self.limits, endpoint_url: self.endpoint_url.clone() }
    }
}

/// The body of a hello.
pub open spec fn hello_bytes(hello: HelloView) -> Seq<u8> {
    limits_bytes(hello.limits) + string_bytes(Some(hello.endpoint_url))
}

/// The hello that a body is.
pub open spec fn hello(bytes: Seq<u8>) -> Parsed<HelloView> {
    limits(bytes).and(
        |limits: Limits, rest: Seq<u8>|
    string_or_empty(rest).and(
        |endpoint_url: Seq<char>, rest: Seq<u8>|
            Parsed::Read(HelloView { limits, endpoint_url }, rest),
    ))
}

/// That a body's result is what `parsed` says, wherever it ends.
pub open spec fn agrees_body<T: View>(result: Result<T>, parsed: Parsed<T::V>) -> bool {
    match (result, parsed) {
        (Ok(value), Parsed::Read(expected, _)) => value@ == expected,
        (Err(error), Parsed::Failed(failure, _)) => error@ == failure,
        _ => false,
    }
}

impl Hello {
    #[must_use]
    pub fn to_bytes(&self) -> (out: Vec<u8>)
        ensures
            out@ == hello_bytes(self@),
    {
        broadcast use lemma_nothing_join;

        let mut out: Vec<u8> = Vec::new();
        self.limits.put(&mut out);
        out.string(Some(self.endpoint_url.as_str()));
        out
    }

    /// # Errors
    /// Where the body is cut short or the limits are under the minimum.
    pub fn from_bytes(body: &[u8]) -> (result: Result<Self>)
        ensures
            agrees_body(result, hello(body@)),
    {
        let mut reader = Cursor::new(body);
        let limits = Limits::take(&mut reader)?;
        let endpoint_url = reader.string_or_empty()?;
        Ok(Hello { limits, endpoint_url })
    }
}

/// Acknowledge: the server's limits.
#[derive(Clone, Copy, Debug, PartialEq, Eq)]
pub struct Acknowledge {
    pub limits: Limits,
}

impl View for Acknowledge {
    type V = Acknowledge;

    open spec fn view(&self) -> Acknowledge {
        *self
    }
}

/// The acknowledge that a body is.
pub open spec fn acknowledge(bytes: Seq<u8>) -> Parsed<Acknowledge> {
    limits(bytes).and(
        |limits: Limits, rest: Seq<u8>| Parsed::Read(Acknowledge { limits }, rest),
    )
}

impl Acknowledge {
    #[must_use]
    pub fn to_bytes(&self) -> (out: Vec<u8>)
        ensures
            out@ == limits_bytes(self.limits),
    {
        broadcast use lemma_nothing_join;

        let mut out: Vec<u8> = Vec::new();
        self.limits.put(&mut out);
        out
    }

    /// # Errors
    /// Where the body is cut short or the limits are under the minimum.
    pub fn from_bytes(body: &[u8]) -> (result: Result<Self>)
        ensures
            agrees_body(result, acknowledge(body@)),
    {
        let mut reader = Cursor::new(body);
        let limits = Limits::take(&mut reader)?;
        Ok(Acknowledge { limits })
    }
}

/// Error: why the sender is closing.
#[derive(Debug, PartialEq, Eq)]
pub struct Fault {
    pub code: u32,
    pub reason: String,
}

/// What a [`Fault`] says.
pub struct FaultView {
    pub code: u32,
    pub reason: Seq<char>,
}

impl View for Fault {
    type V = FaultView;

    open spec fn view(&self) -> FaultView {
        FaultView { code: self.code, reason: self.reason@ }
    }
}

impl Clone for Fault {
    fn clone(&self) -> (copy: Self)
        ensures
            copy@ == self@,
    {
        Fault { code: self.code, reason: self.reason.clone() }
    }
}

/// The body of an error.
pub open spec fn fault_bytes(fault: FaultView) -> Seq<u8> {
    u32_bytes(fault.code) + string_bytes(Some(fault.reason))
}

/// The error that a body is.
pub open spec fn fault(bytes: Seq<u8>) -> Parsed<FaultView> {
    u32_le(bytes).and(
        |code: u32, rest: Seq<u8>|
    string_or_empty(rest).and(
        |reason: Seq<char>, rest: Seq<u8>| Parsed::Read(FaultView { code, reason }, rest),
    ))
}

impl Fault {
    #[must_use]
    pub fn to_bytes(&self) -> (out: Vec<u8>)
        ensures
            out@ == fault_bytes(self@),
    {
        broadcast use lemma_nothing_join;

        let mut out: Vec<u8> = Vec::new();
        out.u32_le(self.code).string(Some(self.reason.as_str()));
        out
    }

    /// # Errors
    /// Where the body is cut short.
    pub fn from_bytes(body: &[u8]) -> (result: Result<Self>)
        ensures
            agrees_body(result, fault(body@)),
    {
        let mut reader = Cursor::new(body);
        let code = reader.u32_le()?;
        let reason = reader.string_or_empty()?;
        Ok(Fault { code, reason })
    }
}

/// One raw message: its kind, whether it is final, and its body.
pub type Raw = ([u8; 3], u8, Vec<u8>);

/// What a [`Raw`] message is.
pub struct RawView {
    pub kind: Seq<u8>,
    pub is_final: u8,
    pub body: Seq<u8>,
}

/// What a raw message is.
pub open spec fn raw_view(message: Raw) -> RawView {
    RawView { kind: message.0@, is_final: message.1, body: message.2@ }
}

/// The longest body whose message's size can be said.
pub const MAX_RAW_BODY: usize = 0xffff_fff7;

/// A raw message: the kind, whether it is final, the size, the body.
pub open spec fn raw_bytes(message: RawView) -> Seq<u8> {
    message.kind + (seq![message.is_final] + (u32_bytes((message.body.len() + 8) as u32)
        + message.body))
}

/// How long the message with these first eight bytes says it is.
pub open spec fn said_size(head: Seq<u8>) -> u32 {
    le_value(head.subrange(4, 8)) as u32
}

/// That the eight bytes of a header count themselves, and a body of at most
/// `max` bytes.
pub open spec fn size_allowed(size: u32, max: nat) -> bool {
    8 <= size && size - 8 <= max
}

/// A message said to be of a size that is not read here.
pub open spec fn wrong_size(size: u32) -> Failure {
    permanent("a message of "@ + decimal(size as nat) + " bytes"@)
}

/// How long a body follows the first eight bytes of a message, or why none
/// may.
pub open spec fn said_length(head: Seq<u8>, max: nat) -> std::result::Result<nat, Failure> {
    let size = said_size(head);
    if size_allowed(size, max) {
        Ok((size - 8) as nat)
    } else {
        Err(wrong_size(size))
    }
}

/// A connection that closed between the first and the last byte of a
/// message.
pub open spec fn closed_inside() -> Failure {
    permanent("the connection closed mid-message"@)
}

/// The raw message at the front of what a connection still carries, its
/// body at most `max` bytes; none where the connection carries nothing more.
pub open spec fn raw(bytes: Seq<u8>, max: nat) -> Parsed<Option<RawView>> {
    if bytes.len() == 0 {
        Parsed::Read(None, bytes)
    } else if bytes.len() < 8 {
        Parsed::Failed(closed_inside(), bytes)
    } else {
        let size = said_size(bytes.take(8));
        let rest = bytes.skip(8);
        if !size_allowed(size, max) {
            Parsed::Failed(wrong_size(size), rest)
        } else if rest.len() < size - 8 {
            Parsed::Failed(closed_inside(), rest)
        } else {
            Parsed::Read(
                Some(
                    RawView {
                        kind: bytes.take(3),
                        is_final: bytes[3],
                        body: rest.take(size - 8),
                    },
                ),
                rest.skip(size - 8),
            )
        }
    }
}

/// Write one raw message: the kind, whether it is final, the size, the
/// body.
///
/// # Errors
/// Where the size cannot say how long the message is; nothing is written
/// then.
pub fn write_raw(out: &mut Vec<u8>, kind: [u8; 3], is_final: u8, body: &[u8]) -> (result: Result<()>)
    ensures
        result is Ok <==> body@.len() <= MAX_RAW_BODY,
        result matches Err(error) ==> error@ == permanent(
            "a message longer than its size can say"@,
        ) && final(out)@ == old(out)@,
        result is Ok ==> final(out)@ == old(out)@ + raw_bytes(
            RawView { kind: kind@, is_final, body: body@ },
        ),
{
    broadcast use lemma_join;

    if body.len() > MAX_RAW_BODY {
        return Err(protocol_error("a message longer than its size can say"));
    }
    let size: u32 = body.len() as u32 + 8;
    out.bytes(kind.as_slice()).byte(is_final).u32_le(size).bytes(body);
    Ok(())
}

/// How long a body follows these first eight bytes of a message.
///
/// # Errors
/// Where the message is shorter than its header or its body over `max`.
pub fn body_length(head: &[u8], max: usize) -> (result: Result<usize>)
    requires
        head@.len() == 8,
    ensures
        match (result, said_length(head@, max as nat)) {
            (Ok(length), Ok(expected)) => length == expected,
            (Err(error), Err(failure)) => error@ == failure,
            _ => false,
        },
{
    let tail = vstd::slice::slice_subrange(head, 4, 8);
    assert(tail@.take(4) =~= tail@);
    let size = Cursor::new(tail).u32_le()?;
    if size < 8 || (size - 8) as usize > max {
        let mut message = "a message of ".to_string();
        message.append(decimal_text(size as u64).as_str());
        message.append(" bytes");
        return Err(TransportError::permanent(message));
    }
    Ok((size - 8) as usize)
}

/// Read one raw message: its kind, whether it is final, and its body;
/// `None` where the connection closed cleanly before one began.
///
/// # Errors
/// Where the connection closed mid-message, or the message is over `max`.
pub fn read_raw(input: &mut Cursor<'_>, max: usize) -> (result: Result<Option<Raw>>)
    ensures
        match (result, raw(old(input)@, max as nat)) {
            (Ok(None), Parsed::Read(None, rest)) => final(input)@ == rest,
            (Ok(Some(message)), Parsed::Read(Some(expected), rest)) => raw_view(message) == expected
                && final(input)@ == rest,
            (Err(error), Parsed::Failed(failure, rest)) => error@ == failure && final(input)@
                == rest,
            _ => false,
        },
{
    let left = input.remaining().len();
    if left == 0 {
        return Ok(None);
    }
    if left < 8 {
        return Err(protocol_error("the connection closed mid-message"));
    }
    let head = input.take(8)?;
    let length = body_length(head, max)?;
    if input.remaining().len() < length {
        return Err(protocol_error("the connection closed mid-message"));
    }
    let body = input.take(length)?;
    let kind = [head[0], head[1], head[2]];
    assert(kind@ =~= head@.take(3));
    assert(head@.take(3) =~= old(input)@.take(3));
    Ok(Some((kind, head[3], vstd::slice::slice_to_vec(body))))
}

/// Read one raw message, which must be there.
///
/// # Errors
/// As [`read_raw`], and where the connection closed.
pub fn expect_raw(input: &mut Cursor<'_>, max: usize) -> (result: Result<Raw>)
    ensures
        match (result, expected(raw(old(input)@, max as nat))) {
            (Ok(message), Parsed::Read(expected, rest)) => raw_view(message) == expected
                && final(input)@ == rest,
            (Err(error), Parsed::Failed(failure, rest)) => error@ == failure && final(input)@
                == rest,
            _ => false,
        },
{
    match read_raw(input, max)? {
        Some(message) => Ok(message),
        None => Err(protocol_error("the other side closed the connection")),
    }
}

/// A connection that closed where a message was expected.
pub open spec fn closed() -> Failure {
    permanent("the other side closed the connection"@)
}

/// A message where one was expected: none is a connection that closed.
pub open spec fn expected<T>(parsed: Parsed<Option<T>>) -> Parsed<T> {
    match parsed {
        Parsed::Read(Some(message), rest) => Parsed::Read(message, rest),
        Parsed::Read(None, rest) => Parsed::Failed(closed(), rest),
        Parsed::Failed(failure, rest) => Parsed::Failed(failure, rest),
    }
}

/// One message of the secure conversation, its security and sequence
/// headers taken off: an `OPN`, a `MSG` or a `CLO`.
#[derive(Debug, PartialEq, Eq)]
pub struct Secure {
    pub kind: [u8; 3],
    pub channel_id: u32,
    pub token_id: u32,
    pub sequence: u32,
    pub request_id: u32,
    pub body: Vec<u8>,
}

/// What a [`Secure`] message is.
pub struct SecureView {
    pub kind: Seq<u8>,
    pub channel_id: u32,
    pub token_id: u32,
    pub sequence: u32,
    pub request_id: u32,
    pub body: Seq<u8>,
}

impl View for Secure {
    type V = SecureView;

    open spec fn view(&self) -> SecureView {
        SecureView {
            kind: self.kind@,
            channel_id: self.channel_id,
            token_id: self.token_id,
            sequence: self.sequence,
            request_id: self.request_id,
            body: self.body@,
        }
    }
}

impl Clone for Secure {
    fn clone(&self) -> (copy: Self)
        ensures
            copy@ == self@,
    {
        Secure {
            kind: self.kind,
            channel_id: self.channel_id,
            token_id: self.token_id,
            sequence: self.sequence,
            request_id: self.request_id,
            body: vstd::slice::slice_to_vec(self.body.as_slice()),
        }
    }
}

impl SecureView {
    /// This message with another body.
    pub open spec fn with_body(self, body: Seq<u8>) -> SecureView {
        SecureView { body, ..self }
    }
}

/// That a kind is one of the secure conversation.
pub open spec fn is_secure(kind: Seq<u8>) -> bool {
    kind == OPEN@ || kind == MESSAGE@ || kind == CLOSE@
}

/// The security header behind the channel id: the policy, no certificate and
/// no thumbprint for an open, and the token id for any other kind.
pub open spec fn security_bytes(kind: Seq<u8>, token_id: u32) -> Seq<u8> {
    if kind == OPEN@ {
        string_bytes(Some(NONE_POLICY@)) + (byte_string_bytes(None) + byte_string_bytes(None))
    } else {
        u32_bytes(token_id)
    }
}

/// What stands before the body of the chunk of `message` numbered
/// `sequence`.
#[verifier::opaque]
pub open spec fn chunk_head_bytes(message: SecureView, sequence: u32) -> Seq<u8> {
    u32_bytes(message.channel_id) + (security_bytes(message.kind, message.token_id) + (u32_bytes(
        sequence,
    ) + u32_bytes(message.request_id)))
}

/// One chunk of `message`, as a raw message.
#[verifier::opaque]
pub open spec fn chunk_bytes(message: SecureView, sequence: u32, is_final: u8, piece: Seq<u8>) -> Seq<
    u8,
> {
    raw_bytes(
        RawView {
            kind: message.kind,
            is_final,
            body: chunk_head_bytes(message, sequence) + piece,
        },
    )
}

/// The number `steps` behind `sequence`, from the first again behind the
/// last.
pub open spec fn numbered(sequence: u32, steps: nat) -> u32 {
    ((sequence + steps) % 0x1_0000_0000) as u32
}

/// The chunks of what is `left` of the body of `message`, each with at most
/// `piece` bytes of it, numbered from `sequence` on. The last is marked
/// final, and may be the only one and empty.
pub open spec fn chunks(message: SecureView, sequence: u32, left: Seq<u8>, piece: nat) -> Seq<u8>
    decreases left.len(),
{
    if left.len() <= piece || piece == 0 {
        chunk_bytes(message, sequence, FINAL, left)
    } else {
        chunk_bytes(message, sequence, CONTINUED, left.take(piece as int)) + chunks(
            message,
            numbered(sequence, 1),
            left.skip(piece as int),
            piece,
        )
    }
}

/// How many bytes of a body a chunk takes: at least one.
pub open spec fn piece_of(chunk: usize) -> nat {
    if chunk == 0 {
        1
    } else {
        chunk as nat
    }
}

/// How many chunks a body of `length` bytes takes: at least one.
pub open spec fn chunk_count(length: nat, piece: nat) -> nat {
    if length == 0 {
        1
    } else {
        ((length + piece - 1) / piece as int) as nat
    }
}

/// That the size of the largest chunk of `message`, the first, can be said.
pub open spec fn sendable(message: SecureView, piece: nat) -> bool {
    chunk_head_bytes(message, message.sequence).len() + if message.body.len() <= piece {
        message.body.len()
    } else {
        piece
    } <= MAX_RAW_BODY
}

fn same_kind(a: &[u8; 3], b: &[u8; 3]) -> (same: bool)
    ensures
        same == (a@ == b@),
{
    let same = a[0] == b[0] && a[1] == b[1] && a[2] == b[2];
    assert(same ==> a@ =~= b@);
    same
}

fn chunk_head(message: &Secure, sequence: u32) -> (head: Vec<u8>)
    ensures
        head@ == chunk_head_bytes(message@, sequence),
{
    broadcast use {lemma_join, lemma_nothing_join};

    reveal(chunk_head_bytes);
    let mut head: Vec<u8> = Vec::new();
    head.u32_le(message.channel_id);
    if same_kind(&message.kind, &OPEN) {
        head.string(Some(NONE_POLICY)).byte_string(None).byte_string(None);
    } else {
        head.u32_le(message.token_id);
    }
    head.u32_le(sequence).u32_le(message.request_id);
    head
}

/// Write `message` in chunks whose bodies fit `chunk`, each numbered
/// from its sequence on; the sequence after the last chunk comes back.
///
/// # Errors
/// Where the size of a chunk cannot say how long it is; nothing is written
/// then.
#[verifier::spinoff_prover]
#[verifier::rlimit(40)]
pub fn write_secure(out: &mut Vec<u8>, message: &Secure, chunk: usize) -> (result: Result<u32>)
    ensures
        match result {
            Ok(next) => sendable(message@, piece_of(chunk)) && final(out)@ == old(out)@ + chunks(
                message@,
                message.sequence,
                message.body@,
                piece_of(chunk),
            ) && next == numbered(
                message.sequence,
                chunk_count(message.body@.len(), piece_of(chunk)),
            ),
            Err(error) => !sendable(message@, piece_of(chunk)) && error@ == permanent(
                "a message longer than its size can say"@,
            ) && final(out)@ == old(out)@,
        },
{
    let piece: usize = if chunk == 0 {
        1
    } else {
        chunk
    };
    let ghost start = out@;
    let ghost whole = message.body@;
    let mut sequence: u32 = message.sequence;
    let mut at: usize = 0;
    assert(whole.skip(0) =~= whole);
    while message.body.len() - at > piece
        invariant
            start == old(out)@,
            whole == message.body@,
            piece == piece_of(chunk),
            at <= whole.len(),
            at == 0 ==> out@ == start && sequence == message.sequence,
            at > 0 ==> sendable(message@, piece as nat) && whole.len() > piece,
            out@ + chunks(message@, sequence, whole.skip(at as int), piece as nat) == start
                + chunks(message@, message.sequence, whole, piece as nat),
            numbered(sequence, chunk_count((whole.len() - at) as nat, piece as nat)) == numbered(
                message.sequence,
                chunk_count(whole.len(), piece as nat),
            ),
        decreases whole.len() - at,
    {
        proof {
            lemma_chunk_head_len(message@, sequence, message.sequence);
            lemma_chunk_count((whole.len() - at) as nat, piece as nat);
            lemma_chunk_behind(out@, message@, sequence, whole.skip(at as int), piece as nat);
            assert(whole.subrange(at as int, at + piece) =~= whole.skip(at as int).take(
                piece as int,
            ));
            assert(whole.skip(at as int).skip(piece as int) =~= whole.skip(at + piece));
        }
        write_chunk(out, message, sequence, at, at + piece, CONTINUED)?;
        sequence = sequence.wrapping_add(1);
        at += piece;
    }
    proof {
        lemma_chunk_head_len(message@, sequence, message.sequence);
        lemma_chunk_count((whole.len() - at) as nat, piece as nat);
        assert(whole.subrange(at as int, whole.len() as int) =~= whole.skip(at as int));
    }
    write_chunk(out, message, sequence, at, message.body.len(), FINAL)?;
    Ok(sequence.wrapping_add(1))
}

/// Write the chunk of `message` that carries its body from `from` to `to`.
fn write_chunk(
    out: &mut Vec<u8>,
    message: &Secure,
    sequence: u32,
    from: usize,
    to: usize,
    is_final: u8,
) -> (result: Result<()>)
    requires
        from <= to <= message.body@.len(),
    ensures
        result is Ok <==> chunk_head_bytes(message@, sequence).len() + (to - from) <= MAX_RAW_BODY,
        result matches Err(error) ==> error@ == permanent(
            "a message longer than its size can say"@,
        ) && final(out)@ == old(out)@,
        result is Ok ==> final(out)@ == old(out)@ + chunk_bytes(
            message@,
            sequence,
            is_final,
            message.body@.subrange(from as int, to as int),
        ),
{
    reveal(chunk_bytes);
    let mut bytes = chunk_head(message, sequence);
    bytes.bytes(vstd::slice::slice_subrange(message.body.as_slice(), from, to));
    write_raw(out, message.kind, is_final, bytes.as_slice())
}

/// Where more than a piece is left, the chunks are one of a piece and those
/// of the rest.
proof fn lemma_chunk_behind(
    before: Seq<u8>,
    message: SecureView,
    sequence: u32,
    left: Seq<u8>,
    piece: nat,
)
    requires
        0 < piece < left.len(),
    ensures
        before + chunks(message, sequence, left, piece) == (before + chunk_bytes(
            message,
            sequence,
            CONTINUED,
            left.take(piece as int),
        )) + chunks(message, numbered(sequence, 1), left.skip(piece as int), piece),
{
    broadcast use lemma_join;

}

proof fn lemma_chunk_count(length: nat, piece: nat)
    requires
        piece > 0,
    ensures
        length <= piece ==> chunk_count(length, piece) == 1,
        length > piece ==> chunk_count(length, piece) == 1 + chunk_count(
            (length - piece) as nat,
            piece,
        ),
{
    if length > 0 {
        lemma_div_plus_one(length - 1, piece as int);
        if length <= piece {
            lemma_basic_div(length - 1, piece as int);
        }
    }
}

proof fn lemma_chunk_head_len(message: SecureView, a: u32, b: u32)
    ensures
        chunk_head_bytes(message, a).len() == chunk_head_bytes(message, b).len(),
{
    broadcast use lemma_le_bytes_len;

    reveal(chunk_head_bytes);
}

/// What stands before the body of a chunk.
pub struct ChunkHead {
    pub channel_id: u32,
    pub token_id: u32,
    pub sequence: u32,
    pub request_id: u32,
}

impl View for ChunkHead {
    type V = ChunkHead;

    open spec fn view(&self) -> ChunkHead {
        *self
    }
}

/// A policy other than None.
pub open spec fn wrong_policy(policy: Seq<char>) -> Failure {
    permanent("security policy "@ + policy + ", and this crate speaks None"@)
}

/// The security header at a cursor, as the token id it names: none, so zero,
/// in an open, whose policy must be None.
pub open spec fn security(kind: Seq<u8>, bytes: Seq<u8>) -> Parsed<u32> {
    if kind == OPEN@ {
        string_or_empty(bytes).and(
            |policy: Seq<char>, rest: Seq<u8>|
        if policy != NONE_POLICY@ {
            Parsed::Failed(wrong_policy(policy), rest)
        } else {
        byte_string(rest).and(
            |certificate: Option<Seq<u8>>, rest: Seq<u8>|
        byte_string(rest).and(
            |thumbprint: Option<Seq<u8>>, rest: Seq<u8>| Parsed::Read(0u32, rest),
        ))})
    } else {
        u32_le(bytes)
    }
}

/// What stands before the body of the chunk at a cursor.
#[verifier::opaque]
pub open spec fn chunk_head_of(kind: Seq<u8>, bytes: Seq<u8>) -> Parsed<ChunkHead> {
    u32_le(bytes).and(
        |channel_id: u32, rest: Seq<u8>|
    security(kind, rest).and(
        |token_id: u32, rest: Seq<u8>|
    u32_le(rest).and(
        |sequence: u32, rest: Seq<u8>|
    u32_le(rest).and(
        |request_id: u32, rest: Seq<u8>|
            Parsed::Read(ChunkHead { channel_id, token_id, sequence, request_id }, rest),
    ))))
}

/// What a raw message makes of the secure message read so far.
pub enum Step<T> {
    /// More chunks must follow.
    More(T),
    /// The message is whole.
    Whole(T),
}

/// What [`Step`] a raw message leads to, or why it is refused.
pub enum Joined {
    More(SecureView),
    Whole(SecureView),
    Refused(Failure),
}

/// The failure an `ERR` names.
pub open spec fn named(fault: FaultView) -> Failure {
    permanent("the other side closed with 0x"@ + hex(fault.code as nat, 8) + ": "@ + fault.reason)
}

/// A message that is not of the secure conversation.
pub open spec fn not_secure(kind: Seq<u8>) -> Failure {
    permanent(text_of(kind) + " where a secure message was expected"@)
}

/// A message longer than is read here.
pub open spec fn over(max: nat) -> Failure {
    permanent("a message over the "@ + decimal(max) + " bytes read here"@)
}

/// `so_far`, or the message that a first chunk begins, with the body of one
/// more chunk behind its own.
pub open spec fn with_chunk(
    so_far: Option<SecureView>,
    kind: Seq<u8>,
    is_final: u8,
    head: ChunkHead,
    piece: Seq<u8>,
    max: nat,
) -> Joined {
    let message = match so_far {
        Some(message) => message,
        None => SecureView {
            kind,
            channel_id: head.channel_id,
            token_id: head.token_id,
            sequence: head.sequence,
            request_id: head.request_id,
            body: Seq::empty(),
        },
    };
    if message.request_id != head.request_id || message.kind != kind {
        Joined::Refused(permanent("a chunk of another message in the middle of this one"@))
    } else if message.body.len() + piece.len() > max {
        Joined::Refused(over(max))
    } else if is_final == FINAL {
        Joined::Whole(message.with_body(message.body + piece))
    } else {
        Joined::More(message.with_body(message.body + piece))
    }
}

/// What a raw message makes of the secure message read so far: an `ERR` is
/// the error it names, and anything but an `OPN`, a `MSG` or a `CLO` that is
/// not given up is refused.
#[verifier::opaque]
pub open spec fn joined(so_far: Option<SecureView>, message: RawView, max: nat) -> Joined {
    if message.kind == ERROR@ {
        match fault(message.body) {
            Parsed::Read(fault, _) => Joined::Refused(named(fault)),
            Parsed::Failed(failure, _) => Joined::Refused(failure),
        }
    } else if !is_secure(message.kind) {
        Joined::Refused(not_secure(message.kind))
    } else if message.is_final == ABORTED {
        Joined::Refused(permanent("the other side aborted the message"@))
    } else {
        match chunk_head_of(message.kind, message.body) {
            Parsed::Read(head, piece) => with_chunk(
                so_far,
                message.kind,
                message.is_final,
                head,
                piece,
                max,
            ),
            Parsed::Failed(failure, _) => Joined::Refused(failure),
        }
    }
}

/// That the outcome of a step is what `expected` says.
pub open spec fn agrees_joined(result: Result<Step<Secure>>, expected: Joined) -> bool {
    match (result, expected) {
        (Ok(Step::More(message)), Joined::More(view)) => message@ == view,
        (Ok(Step::Whole(message)), Joined::Whole(view)) => message@ == view,
        (Err(error), Joined::Refused(failure)) => error@ == failure,
        _ => false,
    }
}

/// The secure message at the front of what a connection still carries,
/// behind the chunks `so_far`; none where the connection carries nothing
/// more and no message has begun.
pub open spec fn secure(bytes: Seq<u8>, so_far: Option<SecureView>, max: nat) -> Parsed<
    Option<SecureView>,
>
    decreases bytes.len(),
{
    match raw(bytes, max) {
        Parsed::Failed(failure, rest) => Parsed::Failed(failure, rest),
        Parsed::Read(None, rest) => if so_far is Some {
            Parsed::Failed(closed_inside(), rest)
        } else {
            Parsed::Read(None, rest)
        },
        Parsed::Read(Some(message), rest) => match joined(so_far, message, max) {
            Joined::Refused(failure) => Parsed::Failed(failure, rest),
            Joined::Whole(whole) => Parsed::Read(Some(whole), rest),
            Joined::More(more) => secure(rest, Some(more), max),
        },
    }
}

fn take_security(kind: &[u8; 3], reader: &mut Cursor<'_>) -> (result: Result<u32>)
    ensures
        agrees(result, final(reader)@, security(kind@, old(reader)@)),
{
    if same_kind(kind, &OPEN) {
        let policy = reader.string_or_empty()?;
        if !same_text(policy.as_str(), NONE_POLICY) {
            let mut message = "security policy ".to_string();
            message.append(policy.as_str());
            message.append(", and this crate speaks None");
            return Err(TransportError::permanent(message));
        }
        reader.byte_string()?;
        reader.byte_string()?;
        Ok(0)
    } else {
        reader.u32_le()
    }
}

fn take_chunk_head(kind: &[u8; 3], reader: &mut Cursor<'_>) -> (result: Result<ChunkHead>)
    ensures
        agrees(result, final(reader)@, chunk_head_of(kind@, old(reader)@)),
{
    reveal(chunk_head_of);
    let channel_id = reader.u32_le()?;
    let token_id = take_security(kind, reader)?;
    let sequence = reader.u32_le()?;
    let request_id = reader.u32_le()?;
    Ok(ChunkHead { channel_id, token_id, sequence, request_id })
}

/// The error an `ERR` names.
fn named_error(body: &[u8]) -> (error: TransportError)
    ensures
        match fault(body@) {
            Parsed::Read(fault, _) => error@ == named(fault),
            Parsed::Failed(failure, _) => error@ == failure,
        },
{
    match Fault::from_bytes(body) {
        Ok(fault) => {
            let mut message = "the other side closed with 0x".to_string();
            message.append(hex_text(fault.code, 8).as_str());
            message.append(": ");
            message.append(fault.reason.as_str());
            TransportError::permanent(message)
        },
        Err(error) => error,
    }
}

/// `so_far`, or the message that a first chunk begins, with the body of one
/// more chunk behind its own.
fn add_chunk(
    so_far: Option<Secure>,
    kind: [u8; 3],
    is_final: u8,
    head: &ChunkHead,
    piece: &[u8],
    max: usize,
) -> (result: Result<Step<Secure>>)
    ensures
        agrees_joined(
            result,
            with_chunk(
                held(so_far),
                kind@,
                is_final,
                *head,
                piece@,
                max as nat,
            ),
        ),
{
    let mut message = match so_far {
        Some(message) => message,
        None => {
            let body: Vec<u8> = Vec::new();
            assert(body@ =~= Seq::<u8>::empty());
            Secure {
                kind,
                channel_id: head.channel_id,
                token_id: head.token_id,
                sequence: head.sequence,
                request_id: head.request_id,
                body,
            }
        },
    };
    if message.request_id != head.request_id || !same_kind(&message.kind, &kind) {
        return Err(protocol_error("a chunk of another message in the middle of this one"));
    }
    if message.body.len() > max || piece.len() > max - message.body.len() {
        let mut text = "a message over the ".to_string();
        text.append(decimal_text(max as u64).as_str());
        text.append(" bytes read here");
        return Err(TransportError::permanent(text));
    }
    message.body.bytes(piece);
    if is_final == FINAL {
        Ok(Step::Whole(message))
    } else {
        Ok(Step::More(message))
    }
}

/// What one more raw message makes of the secure message read `so_far`.
///
/// # Errors
/// Where the raw message is an error, is of another kind or message, aborts
/// this one, makes it longer than `max`, or names a policy other than None.
pub fn join_chunk(so_far: Option<Secure>, message: &Raw, max: usize) -> (result: Result<
    Step<Secure>,
>)
    ensures
        agrees_joined(
            result,
            joined(
                held(so_far),
                raw_view(*message),
                max as nat,
            ),
        ),
{
    reveal(joined);
    let kind = message.0;
    if same_kind(&kind, &ERROR) {
        return Err(named_error(message.2.as_slice()));
    }
    if !same_kind(&kind, &OPEN) && !same_kind(&kind, &MESSAGE) && !same_kind(&kind, &CLOSE) {
        let mut text = lossy(kind.as_slice());
        text.append(" where a secure message was expected");
        return Err(TransportError::permanent(text));
    }
    if message.1 == ABORTED {
        return Err(protocol_error("the other side aborted the message"));
    }
    let mut chunk = Cursor::new(message.2.as_slice());
    let head = take_chunk_head(&kind, &mut chunk)?;
    add_chunk(so_far, kind, message.1, &head, chunk.remaining(), max)
}

/// Read one secure message, chunk by chunk until the final one; an `ERR`
/// on the way is the error it names, and `None` is a connection closed
/// cleanly before a message began.
///
/// # Errors
/// Where the connection closed mid-message, the message is over `max`, the
/// other side sent an error or aborted, or the policy is not None.
pub fn read_secure(input: &mut Cursor<'_>, max: usize) -> (result: Result<Option<Secure>>)
    ensures
        agrees_held(result, final(input)@, secure(old(input)@, None, max as nat)),
{
    let ghost before = input@;
    let mut so_far: Option<Secure> = None;
    loop
        invariant
            before == old(input)@,
            secure(before, None, max as nat) == secure(input@, held(so_far), max as nat),
        decreases input@.len(),
    {
        let message = match read_raw(input, max)? {
            Some(message) => message,
            None => {
                if so_far.is_some() {
                    return Err(protocol_error("the connection closed mid-message"));
                }
                return Ok(None);
            },
        };
        match join_chunk(so_far, &message, max)? {
            Step::Whole(whole) => {
                return Ok(Some(whole));
            },
            Step::More(more) => {
                so_far = Some(more);
            },
        }
    }
}

/// Read one secure message, which must be there.
///
/// # Errors
/// As [`read_secure`], and where the connection closed.
pub fn expect_secure(input: &mut Cursor<'_>, max: usize) -> (result: Result<Secure>)
    ensures
        match (result, expected(secure(old(input)@, None, max as nat))) {
            (Ok(message), Parsed::Read(expected, rest)) => message@ == expected && final(input)@
                == rest,
            (Err(error), Parsed::Failed(failure, rest)) => error@ == failure && final(input)@
                == rest,
            _ => false,
        },
{
    match read_secure(input, max)? {
        Some(message) => Ok(message),
        None => Err(protocol_error("the other side closed the connection")),
    }
}

/// That neither buffer is under the minimum.
pub open spec fn large_enough(limits: Limits) -> bool {
    limits.receive_buffer >= MIN_BUFFER && limits.send_buffer >= MIN_BUFFER
}

/// Limits read back, unless a buffer is under the minimum: they are refused
/// then.
pub broadcast proof fn law_limits_read_back(given: Limits, rest: Seq<u8>)
    ensures
        #[trigger] limits(limits_bytes(given) + rest) == if large_enough(given) {
            Parsed::Read(given, rest)
        } else {
            Parsed::Failed(
                permanent("a buffer under the eight kibibytes the protocol asks"@),
                rest,
            )
        },
{
    broadcast use group_reads_back;

}

/// A hello reads back. Left out are limits under the minimum, and an
/// endpoint url too long for its length field.
pub proof fn law_hello_reads_back(given: HelloView)
    requires
        large_enough(given.limits),
        text_fits(given.endpoint_url),
    ensures
        hello(hello_bytes(given)) == Parsed::Read(given, Seq::empty()),
{
    broadcast use {group_reads_back, law_limits_read_back};

    let end = Seq::<u8>::empty();
    assert(string_bytes(Some(given.endpoint_url)) + end == string_bytes(Some(given.endpoint_url)));
}

/// An acknowledge reads back, unless a buffer is under the minimum: it is
/// refused then.
pub proof fn law_acknowledge_reads_back(given: Acknowledge)
    ensures
        acknowledge(limits_bytes(given.limits)) == if large_enough(given.limits) {
            Parsed::Read(given, Seq::empty())
        } else {
            Parsed::Failed(
                permanent("a buffer under the eight kibibytes the protocol asks"@),
                Seq::empty(),
            )
        },
{
    broadcast use {group_reads_back, law_limits_read_back};

    let end = Seq::<u8>::empty();
    assert(limits_bytes(given.limits) + end == limits_bytes(given.limits));
}

/// An error reads back. Left out is a reason too long for its length field.
pub proof fn law_fault_reads_back(given: FaultView)
    requires
        text_fits(given.reason),
    ensures
        fault(fault_bytes(given)) == Parsed::Read(given, Seq::empty()),
{
    broadcast use group_reads_back;

    let end = Seq::<u8>::empty();
    assert(string_bytes(Some(given.reason)) + end == string_bytes(Some(given.reason)));
}

/// A raw message reads back, and nothing behind it is touched. Left out are
/// bodies over what is read, or over what a size can say.
pub broadcast proof fn law_raw_reads_back(message: RawView, rest: Seq<u8>, max: nat)
    requires
        message.kind.len() == 3,
        message.body.len() <= max,
        message.body.len() <= MAX_RAW_BODY,
    ensures
        #[trigger] raw(raw_bytes(message) + rest, max) == Parsed::Read(Some(message), rest),
{
    broadcast use lemma_le_bytes_len;

    let bytes = raw_bytes(message) + rest;
    let size = (message.body.len() + 8) as u32;
    assert(bytes.take(8).subrange(4, 8) =~= u32_bytes(size));
    assert(le_value(u32_bytes(size)) as u32 == size) by {
        lemma_u32_value(size);
    }
    assert(bytes.take(3) =~= message.kind);
    assert(bytes.skip(8).take(size - 8) =~= message.body);
    assert(bytes.skip(8).skip(size - 8) =~= rest);
}

/// A raw message whose body is over what is read is an error.
pub proof fn law_raw_over_max_is_an_error(message: RawView, rest: Seq<u8>, max: nat)
    requires
        message.kind.len() == 3,
        max < message.body.len() <= MAX_RAW_BODY,
    ensures
        raw(raw_bytes(message) + rest, max) matches Parsed::Failed(failure, _) && failure
            == wrong_size((message.body.len() + 8) as u32),
{
    broadcast use lemma_le_bytes_len;

    let bytes = raw_bytes(message) + rest;
    let size = (message.body.len() + 8) as u32;
    assert(bytes.take(8).subrange(4, 8) =~= u32_bytes(size));
    lemma_u32_value(size);
}

/// A raw message cut anywhere is an error: of its size where its body is over
/// what is read and the header is whole, and else that the connection closed.
pub proof fn law_cut_raw_is_an_error(message: RawView, length: int, max: nat)
    requires
        message.kind.len() == 3,
        message.body.len() <= MAX_RAW_BODY,
        0 < length < raw_bytes(message).len(),
    ensures
        raw(raw_bytes(message).take(length), max) matches Parsed::Failed(failure, _) && failure
            == if length >= 8 && message.body.len() > max {
            wrong_size((message.body.len() + 8) as u32)
        } else {
            closed_inside()
        },
{
    broadcast use lemma_le_bytes_len;

    let bytes = raw_bytes(message).take(length);
    let size = (message.body.len() + 8) as u32;
    if length >= 8 {
        assert(bytes.take(8).subrange(4, 8) =~= u32_bytes(size));
        lemma_u32_value(size);
    }
}

proof fn lemma_u32_value(value: u32)
    ensures
        le_value(u32_bytes(value)) == value,
{
    assert(pow(256, 4) == 0x1_0000_0000) by {
        reveal_with_fuel(pow, 5);
    }
    lemma_le_reads_back(value as nat, 4);
}

/// The message that crosses: an open carries no token.
pub open spec fn carried(message: SecureView) -> SecureView {
    if message.kind == OPEN@ {
        SecureView { token_id: 0, ..message }
    } else {
        message
    }
}

proof fn lemma_chunks_carry(message: SecureView, sequence: u32, left: Seq<u8>, piece: nat)
    ensures
        chunks(message, sequence, left, piece) == chunks(carried(message), sequence, left, piece),
        chunk_head_bytes(message, sequence) == chunk_head_bytes(carried(message), sequence),
    decreases left.len(),
{
    reveal(chunk_bytes);
    reveal(chunk_head_bytes);
    if left.len() > piece && piece > 0 {
        lemma_chunks_carry(message, numbered(sequence, 1), left.skip(piece as int), piece);
    }
}

/// That a secure message can be sent in pieces, and is read where `max`
/// bytes are: it is of a secure kind, and neither the whole body nor the
/// largest chunk is over what is read.
pub open spec fn readable(message: SecureView, piece: nat, max: nat) -> bool {
    &&& is_secure(message.kind)
    &&& message.body.len() <= max
    &&& sendable(message, piece)
    &&& chunk_head_bytes(message, message.sequence).len() + if message.body.len() <= piece {
        message.body.len()
    } else {
        piece
    } <= max
}

proof fn lemma_chunk_head_reads_back(message: SecureView, sequence: u32, piece: Seq<u8>)
    requires
        carried(message) == message,
    ensures
        chunk_head_of(message.kind, chunk_head_bytes(message, sequence) + piece) == Parsed::Read(
            ChunkHead {
                channel_id: message.channel_id,
                token_id: message.token_id,
                sequence,
                request_id: message.request_id,
            },
            piece,
        ),
{
    broadcast use group_reads_back;

    reveal(chunk_head_bytes);
    reveal(chunk_head_of);
    reveal_strlit("http://opcfoundation.org/UA/SecurityPolicy#None");
    lemma_text_fits(NONE_POLICY@);
}

/// The message that has the chunks before it, of which the first `done`
/// bytes of the body have come: none where this is the first chunk.
spec fn begun(message: SecureView, done: Seq<u8>, so_far: Option<SecureView>, sequence: u32) -> bool {
    match so_far {
        Some(before) => before == message.with_body(done),
        None => done.len() == 0 && sequence == message.sequence,
    }
}

/// A chunk of a piece of the body is read as one, and joins those before it
/// unless the message is over what is read.
proof fn lemma_chunk_joins(
    message: SecureView,
    done: Seq<u8>,
    so_far: Option<SecureView>,
    sequence: u32,
    is_final: u8,
    part: Seq<u8>,
    rest: Seq<u8>,
    max: nat,
)
    requires
        is_secure(message.kind),
        carried(message) == message,
        begun(message, done, so_far, sequence),
        chunk_head_bytes(message, message.sequence).len() + part.len() <= max,
        chunk_head_bytes(message, message.sequence).len() + part.len() <= MAX_RAW_BODY,
        is_final == FINAL || is_final == CONTINUED,
    ensures
        raw(chunk_bytes(message, sequence, is_final, part) + rest, max) matches Parsed::Read(
            Some(read),
            after,
        ) && after == rest && joined(so_far, read, max) == if done.len() + part.len() > max {
            Joined::Refused(over(max))
        } else if is_final == FINAL {
            Joined::Whole(message.with_body(done + part))
        } else {
            Joined::More(message.with_body(done + part))
        },
{
    reveal(chunk_bytes);
    lemma_chunk_head_len(message, sequence, message.sequence);
    let read = RawView {
        kind: message.kind,
        is_final,
        body: chunk_head_bytes(message, sequence) + part,
    };
    assert(message.kind.len() == 3);
    law_raw_reads_back(read, rest, max);
    lemma_chunk_head_reads_back(message, sequence, part);
    reveal(joined);
    assert(OPEN@[0] != ERROR@[0] && MESSAGE@[0] != ERROR@[0] && CLOSE@[0] != ERROR@[0]);
    if so_far is None {
        assert(done =~= Seq::empty());
    }
}

#[verifier::spinoff_prover]
#[verifier::rlimit(40)]
proof fn lemma_chunks_read_back(
    message: SecureView,
    done: Seq<u8>,
    left: Seq<u8>,
    so_far: Option<SecureView>,
    sequence: u32,
    rest: Seq<u8>,
    piece: nat,
    max: nat,
)
    requires
        piece > 0,
        readable(message, piece, max),
        carried(message) == message,
        begun(message, done, so_far, sequence),
        done.len() + left.len() <= message.body.len(),
    ensures
        secure(chunks(message, sequence, left, piece) + rest, so_far, max) == Parsed::Read(
            Some(message.with_body(done + left)),
            rest,
        ),
    decreases left.len(),
{
    if left.len() <= piece {
        lemma_chunk_joins(message, done, so_far, sequence, FINAL, left, rest, max);
    } else {
        let part = left.take(piece as int);
        let behind = left.skip(piece as int);
        let next = numbered(sequence, 1);
        let others = chunks(message, next, behind, piece) + rest;
        lemma_chunk_joins(message, done, so_far, sequence, CONTINUED, part, others, max);
        lemma_join(
            chunk_bytes(message, sequence, CONTINUED, part),
            chunks(message, next, behind, piece),
            rest,
        );
        let more = message.with_body(done + part);
        lemma_chunks_read_back(message, done + part, behind, Some(more), next, rest, piece, max);
        assert((done + part) + behind =~= done + left);
    }
}

/// What is written of a secure message, in chunks of any size, is the
/// message read, but for the token of an open, and nothing behind it is
/// touched. Left out are messages that are over what is read or over what a
/// size can say.
pub proof fn law_secure_reads_back(message: SecureView, chunk: usize, rest: Seq<u8>, max: nat)
    requires
        readable(message, piece_of(chunk), max),
    ensures
        secure(
            chunks(message, message.sequence, message.body, piece_of(chunk)) + rest,
            None,
            max,
        ) == Parsed::Read(Some(carried(message)), rest),
{
    let nothing = Seq::<u8>::empty();
    lemma_chunks_carry(message, message.sequence, message.body, piece_of(chunk));
    lemma_chunks_read_back(
        carried(message),
        nothing,
        message.body,
        None,
        message.sequence,
        rest,
        piece_of(chunk),
        max,
    );
    assert(nothing + message.body =~= message.body);
}

/// A chunk that others follow makes no message whole.
proof fn lemma_continued_is_not_whole(so_far: Option<SecureView>, message: RawView, max: nat)
    requires
        message.is_final != FINAL,
    ensures
        joined(so_far, message, max) !is Whole,
{
    reveal(joined);
}

#[verifier::spinoff_prover]
#[verifier::rlimit(40)]
proof fn lemma_cut_chunks(
    message: SecureView,
    left: Seq<u8>,
    so_far: Option<SecureView>,
    sequence: u32,
    length: int,
    piece: nat,
    max: nat,
)
    requires
        piece > 0,
        message.kind.len() == 3,
        chunk_head_bytes(message, message.sequence).len() + if left.len() <= piece {
            left.len()
        } else {
            piece
        } <= MAX_RAW_BODY,
        0 <= length < chunks(message, sequence, left, piece).len(),
        length == 0 ==> so_far is Some,
    ensures
        secure(chunks(message, sequence, left, piece).take(length), so_far, max) is Failed,
    decreases left.len(),
{
    let bytes = chunks(message, sequence, left, piece);
    let is_final = if left.len() <= piece {
        FINAL
    } else {
        CONTINUED
    };
    let part = if left.len() <= piece {
        left
    } else {
        left.take(piece as int)
    };
    let first = RawView {
        kind: message.kind,
        is_final,
        body: chunk_head_bytes(message, sequence) + part,
    };
    lemma_chunk_head_len(message, sequence, message.sequence);
    assert(chunk_bytes(message, sequence, is_final, part) == raw_bytes(first)) by {
        reveal(chunk_bytes);
    }
    if length > 0 && length < raw_bytes(first).len() {
        assert(bytes.take(length) =~= raw_bytes(first).take(length));
        law_cut_raw_is_an_error(first, length, max);
    } else if length > 0 {
        let behind = left.skip(piece as int);
        let next = numbered(sequence, 1);
        let others = chunks(message, next, behind, piece);
        let kept = length - raw_bytes(first).len();
        assert(bytes.take(length) =~= raw_bytes(first) + others.take(kept));
        if first.body.len() > max {
            law_raw_over_max_is_an_error(first, others.take(kept), max);
        } else {
            law_raw_reads_back(first, others.take(kept), max);
            lemma_continued_is_not_whole(so_far, first, max);
            if let Joined::More(more) = joined(so_far, first, max) {
                lemma_cut_chunks(message, behind, Some(more), next, kept, piece, max);
            }
        }
    }
}

/// A connection that closes anywhere inside a message, between two of its
/// chunks too, is an error and no message, whatever the message is and however
/// much is read.
pub proof fn law_cut_message_is_an_error(message: SecureView, chunk: usize, length: int, max: nat)
    requires
        message.kind.len() == 3,
        sendable(message, piece_of(chunk)),
        0 < length < chunks(message, message.sequence, message.body, piece_of(chunk)).len(),
    ensures
        secure(
            chunks(message, message.sequence, message.body, piece_of(chunk)).take(length),
            None,
            max,
        ) is Failed,
{
    lemma_cut_chunks(
        message,
        message.body,
        None,
        message.sequence,
        length,
        piece_of(chunk),
        max,
    );
}

#[verifier::spinoff_prover]
#[verifier::rlimit(40)]
proof fn lemma_over_max(
    message: SecureView,
    done: Seq<u8>,
    left: Seq<u8>,
    so_far: Option<SecureView>,
    sequence: u32,
    rest: Seq<u8>,
    piece: nat,
    max: nat,
)
    requires
        piece > 0,
        is_secure(message.kind),
        carried(message) == message,
        sendable(message, piece),
        begun(message, done, so_far, sequence),
        done.len() + left.len() == message.body.len(),
        message.body.len() > max,
    ensures
        secure(chunks(message, sequence, left, piece) + rest, so_far, max) is Failed,
    decreases left.len(),
{
    let is_final = if left.len() <= piece {
        FINAL
    } else {
        CONTINUED
    };
    let part = if left.len() <= piece {
        left
    } else {
        left.take(piece as int)
    };
    let behind = left.skip(piece as int);
    let next = numbered(sequence, 1);
    let others = if left.len() <= piece {
        rest
    } else {
        chunks(message, next, behind, piece) + rest
    };
    let first = chunk_bytes(message, sequence, is_final, part);
    assert(chunks(message, sequence, left, piece) + rest =~= first + others);
    if chunk_head_bytes(message, message.sequence).len() + part.len() > max {
        reveal(chunk_bytes);
        lemma_chunk_head_len(message, sequence, message.sequence);
        assert(message.kind.len() == 3);
        let read = RawView {
            kind: message.kind,
            is_final,
            body: chunk_head_bytes(message, sequence) + part,
        };
        law_raw_over_max_is_an_error(read, others, max);
    } else {
        lemma_chunk_joins(message, done, so_far, sequence, is_final, part, others, max);
        if left.len() > piece {
            let more = message.with_body(done + part);
            lemma_over_max(message, done + part, behind, Some(more), next, rest, piece, max);
        }
    }
}

/// A message of a kind that is not of the secure conversation is an error at
/// its first chunk.
proof fn lemma_not_secure_is_refused(message: SecureView, rest: Seq<u8>, piece: nat, max: nat)
    requires
        piece > 0,
        message.kind.len() == 3,
        !is_secure(message.kind),
        sendable(message, piece),
    ensures
        secure(
            chunks(message, message.sequence, message.body, piece) + rest,
            None,
            max,
        ) is Failed,
{
    let body = message.body;
    let is_final = if body.len() <= piece {
        FINAL
    } else {
        CONTINUED
    };
    let part = if body.len() <= piece {
        body
    } else {
        body.take(piece as int)
    };
    let others = if body.len() <= piece {
        rest
    } else {
        chunks(message, numbered(message.sequence, 1), body.skip(piece as int), piece) + rest
    };
    let first = RawView {
        kind: message.kind,
        is_final,
        body: chunk_head_bytes(message, message.sequence) + part,
    };
    assert(chunk_bytes(message, message.sequence, is_final, part) == raw_bytes(first)) by {
        reveal(chunk_bytes);
    }
    assert(chunks(message, message.sequence, body, piece) + rest =~= raw_bytes(first) + others);
    if first.body.len() > max {
        law_raw_over_max_is_an_error(first, others, max);
    } else {
        law_raw_reads_back(first, others, max);
        reveal(joined);
    }
}

/// A message whose body is over what is read is an error, of whatever kind it
/// is and in chunks of any size.
pub proof fn law_message_over_max_is_an_error(
    message: SecureView,
    chunk: usize,
    rest: Seq<u8>,
    max: nat,
)
    requires
        message.kind.len() == 3,
        sendable(message, piece_of(chunk)),
        message.body.len() > max,
    ensures
        secure(
            chunks(message, message.sequence, message.body, piece_of(chunk)) + rest,
            None,
            max,
        ) is Failed,
{
    if is_secure(message.kind) {
        lemma_chunks_carry(message, message.sequence, message.body, piece_of(chunk));
        lemma_over_max(
            carried(message),
            Seq::empty(),
            message.body,
            None,
            message.sequence,
            rest,
            piece_of(chunk),
            max,
        );
    } else {
        lemma_not_secure_is_refused(message, rest, piece_of(chunk), max);
    }
}

/// An `ERR`, before a message or between its chunks, is the error it names.
pub proof fn law_error_on_the_way_is_the_error(
    fault: FaultView,
    is_final: u8,
    so_far: Option<SecureView>,
    rest: Seq<u8>,
    max: nat,
)
    requires
        text_fits(fault.reason),
        fault_bytes(fault).len() <= max,
        fault_bytes(fault).len() <= MAX_RAW_BODY,
    ensures
        secure(
            raw_bytes(RawView { kind: ERROR@, is_final, body: fault_bytes(fault) }) + rest,
            so_far,
            max,
        ) == Parsed::<Option<SecureView>>::Failed(named(fault), rest),
{
    law_raw_reads_back(RawView { kind: ERROR@, is_final, body: fault_bytes(fault) }, rest, max);
    law_fault_reads_back(fault);
    reveal(joined);
}

/// Every chunk but an open's, with no more of the body than a side's limits
/// allow, fits the receive buffer of that side.
pub proof fn law_chunk_fits_the_receive_buffer(
    limits: Limits,
    message: SecureView,
    sequence: u32,
    is_final: u8,
    part: Seq<u8>,
)
    requires
        limits.receive_buffer >= CHUNK_OVERHEAD,
        message.kind.len() == 3,
        message.kind != OPEN@,
        part.len() <= limits.receive_buffer - CHUNK_OVERHEAD,
    ensures
        chunk_bytes(message, sequence, is_final, part).len() == CHUNK_OVERHEAD + part.len(),
        chunk_bytes(message, sequence, is_final, part).len() <= limits.receive_buffer,
{
    broadcast use lemma_le_bytes_len;

    reveal(chunk_bytes);
    reveal(chunk_head_bytes);
}

} // verus!
