//! How raw messages are told apart and secure ones put together, whatever
//! another side sends.

use vstd::prelude::*;

use crate::channel::{
    acknowledge, chunk_count, chunk_head_bytes, chunk_head_of, expected, fault, hello, joined,
    law_raw_reads_back, limits, numbered, piece_of, raw, raw_bytes, said_length, said_size, secure,
    sendable, size_allowed, Acknowledge, ChunkHead, FaultView, HelloView, Joined, Limits, RawView,
    SecureView, CLOSE, ERROR, MAX_RAW_BODY, MESSAGE, OPEN,
};
use crate::codec::{law_u32_reads_back, lemma_le_bytes_len, lemma_le_reads_back, u32_bytes, Parsed};
use crate::error::Failure;
use crate::text::{decimal, hex, text_of};
use crate::wire::{
    byte_string_bytes, group_reads_back, law_byte_string_reads_back, law_string_reads_back,
    string_bytes, text_fits,
};

verus! {

/// Limits are read whatever version stands before them, where neither buffer
/// is under eight kibibytes, and refused else; a hello and an error that name
/// nothing are read as naming the empty text.
pub proof fn law_any_greeting_is_read(
    version: u32,
    given: Limits,
    text: Option<Seq<char>>,
    code: u32,
    rest: Seq<u8>,
)
    requires
        text matches Some(text) ==> text_fits(text),
    ensures
        ({
            let bytes = u32_bytes(version) + (u32_bytes(given.receive_buffer) + (u32_bytes(
                given.send_buffer,
            ) + (u32_bytes(given.max_message) + (u32_bytes(given.max_chunks) + (string_bytes(text)
                + rest)))));
            let said = match text {
                Some(text) => text,
                None => Seq::empty(),
            };
            &&& fault(u32_bytes(code) + (string_bytes(text) + rest)) == Parsed::Read(
                FaultView { code, reason: said },
                rest,
            )
            &&& if given.receive_buffer >= 8_192 && given.send_buffer >= 8_192 {
                &&& limits(bytes) == Parsed::Read(given, string_bytes(text) + rest)
                &&& acknowledge(bytes).gives(Acknowledge { limits: given })
                &&& hello(bytes) == Parsed::Read(
                    HelloView { limits: given, endpoint_url: said },
                    rest,
                )
            } else {
                let message = "a buffer under the eight kibibytes the protocol asks"@;
                &&& limits(bytes).refused(message)
                &&& acknowledge(bytes).refused(message)
                &&& hello(bytes).refused(message)
            }
        }),
{
    broadcast use group_reads_back;

}

proof fn lemma_said(kind: Seq<u8>, is_final: u8, size: u32, rest: Seq<u8>)
    requires
        kind.len() == 3,
    ensures
        ({
            let bytes = kind + (seq![is_final] + (u32_bytes(size) + rest));
            &&& bytes.len() == 8 + rest.len()
            &&& said_size(bytes.take(8)) == size
            &&& bytes.take(3) == kind
            &&& bytes[3] == is_final
            &&& bytes.skip(8) == rest
        }),
{
    broadcast use lemma_le_bytes_len;

    let bytes = kind + (seq![is_final] + (u32_bytes(size) + rest));
    assert(bytes.take(8).subrange(4, 8) =~= u32_bytes(size));
    assert(vstd::arithmetic::power::pow(256, 4) == 0x1_0000_0000) by {
        reveal_with_fuel(vstd::arithmetic::power::pow, 5);
    }
    lemma_le_reads_back(size as nat, 4);
    assert(bytes.take(3) =~= kind);
    assert(bytes.skip(8) =~= rest);
}

/// A message is as long as it says, its header's eight bytes with it, and what
/// is behind it is left alone. One that says it is shorter than its header or
/// has a body over `max` is refused by its size; one of which a part is
/// missing is cut off; and nothing at all is no message.
pub proof fn law_message_is_as_long_as_it_says(
    kind: Seq<u8>,
    is_final: u8,
    size: u32,
    rest: Seq<u8>,
    max: nat,
)
    requires
        kind.len() == 3,
    ensures
        size_allowed(size, max) <==> 8 <= size <= max + 8,
        said_size((kind + (seq![is_final] + u32_bytes(size)))) == size,
        raw(Seq::empty(), max) == Parsed::Read(None::<RawView>, Seq::empty()),
        ({
            let bytes = kind + (seq![is_final] + (u32_bytes(size) + rest));
            if size < 8 || size > max + 8 {
                raw(bytes, max) matches Parsed::Failed(failure, _) && !failure.retryable
                    && failure.message == "a message of "@ + decimal(size as nat) + " bytes"@
            } else if rest.len() < size - 8 {
                raw(bytes, max) matches Parsed::Failed(failure, _) && !failure.retryable
                    && failure.message == "the connection closed mid-message"@
            } else {
                raw(bytes, max) == Parsed::Read(
                    Some(RawView { kind, is_final, body: rest.take(size - 8) }),
                    rest.skip(size - 8),
                )
            }
        }),
{
    lemma_said(kind, is_final, size, rest);
    let nothing = Seq::<u8>::empty();
    lemma_said(kind, is_final, size, nothing);
    assert(u32_bytes(size) + nothing =~= u32_bytes(size));
    let head = kind + (seq![is_final] + u32_bytes(size));
    assert(head.take(8) =~= head);
}

/// A header of which bytes are missing is cut off.
pub proof fn law_cut_header_is_an_error(bytes: Seq<u8>, max: nat)
    requires
        0 < bytes.len() < 8,
    ensures
        raw(bytes, max) matches Parsed::Failed(failure, _) && !failure.retryable && failure.message
            == "the connection closed mid-message"@,
{
}

/// The message that one more chunk makes: it begins one where none has begun,
/// and else goes behind the one of its own kind and request, which keeps its
/// channel, token and number.
pub open spec fn grown(
    so_far: Option<SecureView>,
    chunk: SecureView,
) -> Option<SecureView> {
    match so_far {
        None => Some(chunk),
        Some(begun) => if begun.kind == chunk.kind && begun.request_id == chunk.request_id {
            Some(SecureView { body: begun.body + chunk.body, ..begun })
        } else {
            None
        },
    }
}

/// That a chunk was refused with `message`, and trying again will not mend it.
pub open spec fn refused(outcome: Joined, message: Seq<char>) -> bool {
    outcome matches Joined::Refused(failure) && failure.message == message && !failure.retryable
}

/// That a chunk, its headers read, was taken as it must be: refused where it
/// is of another message, given up, or over `max`, and else behind those
/// before it, and the message whole exactly where it is marked `F`.
pub open spec fn taken_rightly(
    so_far: Option<SecureView>,
    chunk: SecureView,
    is_final: u8,
    max: nat,
    outcome: Joined,
) -> bool {
    if is_final == 0x41 {
        refused(outcome, "the other side aborted the message"@)
    } else {
        match grown(so_far, chunk) {
            None => refused(outcome, "a chunk of another message in the middle of this one"@),
            Some(message) => if message.body.len() > max {
                refused(outcome, "a message over the "@ + decimal(max) + " bytes read here"@)
            } else if is_final == 0x46 {
                outcome == Joined::Whole(message)
            } else {
                outcome == Joined::More(message)
            },
        }
    }
}

/// A chunk of a message or a close is taken whatever channel, token and number
/// it names.
pub proof fn law_any_chunk_is_taken(
    so_far: Option<SecureView>,
    chunk: SecureView,
    is_final: u8,
    max: nat,
)
    requires
        chunk.kind == seq![0x4du8, 0x53, 0x47] || chunk.kind == seq![0x43u8, 0x4c, 0x4f],
    ensures
        taken_rightly(
            so_far,
            chunk,
            is_final,
            max,
            joined(
                so_far,
                RawView {
                    kind: chunk.kind,
                    is_final,
                    body: u32_bytes(chunk.channel_id) + (u32_bytes(chunk.token_id) + (u32_bytes(
                        chunk.sequence,
                    ) + (u32_bytes(chunk.request_id) + chunk.body))),
                },
                max,
            ),
        ),
{
    broadcast use group_reads_back;

    reveal(joined);
    reveal(chunk_head_of);
    assert(MESSAGE@ =~= seq![0x4du8, 0x53, 0x47]);
    assert(CLOSE@ =~= seq![0x43u8, 0x4c, 0x4f]);
    assert(chunk.kind[0] != OPEN@[0] && chunk.kind[0] != ERROR@[0]);
    assert(Seq::<u8>::empty() + chunk.body =~= chunk.body);
}

/// A chunk of an open is taken whatever certificate and thumbprint it has,
/// where its policy is None, and is refused under any other.
pub proof fn law_any_open_chunk_is_taken(
    so_far: Option<SecureView>,
    chunk: SecureView,
    policy: Option<Seq<char>>,
    certificate: Option<Seq<u8>>,
    thumbprint: Option<Seq<u8>>,
    is_final: u8,
    max: nat,
)
    requires
        chunk.kind == seq![0x4fu8, 0x50, 0x4e],
        chunk.token_id == 0,
        policy matches Some(policy) ==> text_fits(policy),
        certificate matches Some(bytes) ==> bytes.len() <= i32::MAX,
        thumbprint matches Some(bytes) ==> bytes.len() <= i32::MAX,
    ensures
        ({
            let outcome = joined(
                so_far,
                RawView {
                    kind: chunk.kind,
                    is_final,
                    body: u32_bytes(chunk.channel_id) + (string_bytes(policy) + (byte_string_bytes(
                        certificate,
                    ) + (byte_string_bytes(thumbprint) + (u32_bytes(chunk.sequence) + (u32_bytes(
                        chunk.request_id,
                    ) + chunk.body))))),
                },
                max,
            );
            if policy == Some("http://opcfoundation.org/UA/SecurityPolicy#None"@) {
                taken_rightly(so_far, chunk, is_final, max, outcome)
            } else if is_final == 0x41 {
                refused(outcome, "the other side aborted the message"@)
            } else {
                refused(
                    outcome,
                    "security policy "@ + (match policy {
                        Some(policy) => policy,
                        None => Seq::empty(),
                    }) + ", and this crate speaks None"@,
                )
            }
        }),
{
    lemma_open_head(chunk, policy, certificate, thumbprint);
    reveal(joined);
    assert(OPEN@ =~= seq![0x4fu8, 0x50, 0x4e]);
    assert(chunk.kind[0] != ERROR@[0]);
    assert(Seq::<u8>::empty() + chunk.body =~= chunk.body);
}

proof fn lemma_open_head(
    chunk: SecureView,
    policy: Option<Seq<char>>,
    certificate: Option<Seq<u8>>,
    thumbprint: Option<Seq<u8>>,
)
    requires
        policy matches Some(policy) ==> text_fits(policy),
        certificate matches Some(bytes) ==> bytes.len() <= i32::MAX,
        thumbprint matches Some(bytes) ==> bytes.len() <= i32::MAX,
    ensures
        ({
            let read = chunk_head_of(
                OPEN@,
                u32_bytes(chunk.channel_id) + (string_bytes(policy) + (byte_string_bytes(certificate)
                    + (byte_string_bytes(thumbprint) + (u32_bytes(chunk.sequence) + (u32_bytes(
                    chunk.request_id,
                ) + chunk.body))))),
            );
            if policy == Some("http://opcfoundation.org/UA/SecurityPolicy#None"@) {
                read == Parsed::Read(
                    ChunkHead {
                        channel_id: chunk.channel_id,
                        token_id: 0,
                        sequence: chunk.sequence,
                        request_id: chunk.request_id,
                    },
                    chunk.body,
                )
            } else {
                read.refused(
                    "security policy "@ + (match policy {
                        Some(policy) => policy,
                        None => Seq::empty(),
                    }) + ", and this crate speaks None"@,
                )
            }
        }),
{
    broadcast use {law_u32_reads_back, law_string_reads_back, law_byte_string_reads_back};

    reveal(chunk_head_of);
    assert("http://opcfoundation.org/UA/SecurityPolicy#None"@.len() > 0) by {
        reveal_strlit("http://opcfoundation.org/UA/SecurityPolicy#None");
    }
}

/// An `ERR` is refused as the error it names, its code in eight hexadecimal
/// digits, and so is any kind that is not of the secure conversation, by its
/// letters; neither is worth another try.
pub proof fn law_other_messages_are_refused(
    so_far: Option<SecureView>,
    message: RawView,
    code: u32,
    reason: Seq<char>,
    behind: Seq<u8>,
    max: nat,
)
    requires
        fault(message.body) == Parsed::Read(FaultView { code, reason }, behind),
    ensures
        message.kind == seq![0x45u8, 0x52, 0x52] ==> (joined(
            so_far,
            message,
            max,
        ) matches Joined::Refused(failure) && !failure.retryable && failure.message
            == "the other side closed with 0x"@ + hex(code as nat, 8) + ": "@ + reason),
        message.kind != seq![0x45u8, 0x52, 0x52] && message.kind != seq![0x4fu8, 0x50, 0x4e]
            && message.kind != seq![0x4du8, 0x53, 0x47] && message.kind != seq![0x43u8, 0x4c, 0x4f]
            ==> (joined(so_far, message, max) matches Joined::Refused(failure)
            && !failure.retryable && failure.message == text_of(message.kind)
            + " where a secure message was expected"@),
{
    reveal(joined);
    assert(ERROR@ =~= seq![0x45u8, 0x52, 0x52]);
    assert(OPEN@ =~= seq![0x4fu8, 0x50, 0x4e]);
    assert(MESSAGE@ =~= seq![0x4du8, 0x53, 0x47]);
    assert(CLOSE@ =~= seq![0x43u8, 0x4c, 0x4f]);
}

/// A secure message is put together raw message by raw message, until one
/// makes it whole or is refused; a connection that closes before the first is
/// no message, and one that closes behind it is cut off.
pub proof fn law_message_is_put_together_chunk_by_chunk(
    so_far: Option<SecureView>,
    message: RawView,
    rest: Seq<u8>,
    max: nat,
)
    requires
        message.kind.len() == 3,
        message.body.len() <= max,
        message.body.len() + 8 <= u32::MAX,
    ensures
        secure(raw_bytes(message) + rest, so_far, max) == match joined(so_far, message, max) {
            Joined::Refused(failure) => Parsed::Failed(failure, rest),
            Joined::Whole(whole) => Parsed::Read(Some(whole), rest),
            Joined::More(more) => secure(rest, Some(more), max),
        },
        so_far is None ==> secure(Seq::empty(), so_far, max) == Parsed::Read(
            None::<SecureView>,
            Seq::<u8>::empty(),
        ),
        so_far is Some ==> secure(Seq::empty(), so_far, max).refused(
            "the connection closed mid-message"@,
        ),
{
    law_raw_reads_back(message, rest, max);
}

/// A body takes as many chunks as it has pieces, the last of which may be
/// short, and one where it is empty; a chunk takes at least a byte of it; and
/// numbers go on by one and from zero behind the last.
pub proof fn law_chunks_are_counted(length: nat, chunk: usize, sequence: u32, steps: nat)
    ensures
        piece_of(chunk) >= 1,
        chunk >= 1 ==> piece_of(chunk) == chunk,
        chunk == 0 ==> piece_of(chunk) == 1,
        chunk_count(length, piece_of(chunk)) >= 1,
        length <= chunk_count(length, piece_of(chunk)) * piece_of(chunk),
        length > 0 ==> (chunk_count(length, piece_of(chunk)) - 1) * piece_of(chunk) < length,
        length == 0 ==> chunk_count(length, piece_of(chunk)) == 1,
        numbered(sequence, 0) == sequence,
        numbered(sequence, steps + 1) == if numbered(sequence, steps) == u32::MAX {
            0u32
        } else {
            (numbered(sequence, steps) + 1) as u32
        },
{
    let piece = piece_of(chunk) as int;
    if length > 0 {
        let count = (length + piece - 1) / piece;
        vstd::arithmetic::div_mod::lemma_fundamental_div_mod(length + piece - 1, piece);
        vstd::arithmetic::div_mod::lemma_mod_bound(length + piece - 1, piece);
        assert(count * piece == piece * count) by (nonlinear_arith);
        assert((count - 1) * piece == piece * count - piece) by (nonlinear_arith);
        assert(count >= 1) by (nonlinear_arith)
            requires
                piece * count + (length + piece - 1) % piece == length + piece - 1,
                (length + piece - 1) % piece < piece,
                length > 0,
                piece >= 1,
        ;
    }
}

/// A message but an open can be sent exactly where its first piece and the
/// twenty-four bytes before it come to a size that four bytes can say.
pub proof fn law_size_decides_what_can_be_sent(message: SecureView, piece: nat)
    requires
        message.kind != seq![0x4fu8, 0x50, 0x4e],
    ensures
        sendable(message, piece) <==> 24 + if message.body.len() <= piece {
            message.body.len()
        } else {
            piece
        } <= u32::MAX,
        MAX_RAW_BODY + 8 == u32::MAX,
{
    broadcast use lemma_le_bytes_len;

    reveal(chunk_head_bytes);
    assert(OPEN@ =~= seq![0x4fu8, 0x50, 0x4e]);
}

/// An open can be sent exactly where its first piece and the seventy-nine
/// bytes before it, which say the policy, come to a size that four bytes can
/// say.
pub proof fn law_size_decides_what_open_can_be_sent(message: SecureView, piece: nat)
    requires
        message.kind == seq![0x4fu8, 0x50, 0x4e],
    ensures
        sendable(message, piece) <==> 79 + if message.body.len() <= piece {
            message.body.len()
        } else {
            piece
        } <= u32::MAX,
{
    broadcast use lemma_le_bytes_len;

    reveal(chunk_head_bytes);
    reveal_strlit("http://opcfoundation.org/UA/SecurityPolicy#None");
    vstd::utf8::is_ascii_chars_encode_utf8("http://opcfoundation.org/UA/SecurityPolicy#None"@);
    assert(OPEN@ =~= seq![0x4fu8, 0x50, 0x4e]);
}

/// The first eight bytes of a message say how long a body follows them, which
/// is its size without them; one that cannot be, or is over `max`, is refused
/// by its size.
pub proof fn law_header_says_the_body_length(kind: Seq<u8>, is_final: u8, size: u32, max: nat)
    requires
        kind.len() == 3,
    ensures
        said_length(kind + (seq![is_final] + u32_bytes(size)), max) == if 8 <= size <= max + 8 {
            Ok::<nat, Failure>((size - 8) as nat)
        } else {
            Err(
                Failure {
                    message: "a message of "@ + decimal(size as nat) + " bytes"@,
                    retryable: false,
                },
            )
        },
{
    law_message_is_as_long_as_it_says(kind, is_final, size, Seq::empty(), max);
}

/// Where a message is expected, one that comes is taken as it is, and a
/// connection that closes before one is a failure that trying again will not
/// mend.
pub proof fn law_message_that_is_expected_comes<T>(message: T, failure: Failure, rest: Seq<u8>)
    ensures
        expected(Parsed::Read(Some(message), rest)) == Parsed::Read(message, rest),
        expected(Parsed::<Option<T>>::Read(None, rest)).refused(
            "the other side closed the connection"@,
        ),
        expected(Parsed::<Option<T>>::Failed(failure, rest)) == Parsed::<T>::Failed(failure, rest),
{
}

} // verus!
