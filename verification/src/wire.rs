//! The OPC UA binary encoding: little-endian integers, a string and a byte
//! string counted with a length that is minus one where there is none, a
//! node id in the shortest of its forms, a variant that says its type in
//! one byte, and the data value that wraps one with its status and
//! timestamps. Nothing here knows which service is speaking.

use std::time::{Duration, SystemTime, SystemTimeError};

use vstd::prelude::*;
use vstd::string::StringSliceAdditionalSpecFns;
use vstd::utf8::encode_utf8;

use crate::codec::{
    agrees, agrees_held, byte, held, i32_bytes, i32_le, i64_bytes, i64_le, law_byte_reads_back,
    law_i32_reads_back, law_i64_reads_back, law_least_significant_byte_is_first, law_u16_reads_back,
    law_u32_reads_back, law_u64_reads_back, lemma_join, lemma_join_nothing, lemma_nothing_join,
    lemma_take_front, skip, take, u16_bytes, u16_le, u32_bytes, u32_le, ByteWriter, Cursor, Parsed,
};
use crate::error::{permanent, protocol_error, Result, TransportError};
use crate::node::{law_node_id_reads_back, NodeId, NodeIdView};
use crate::text::{decimal, decimal_text, hex, hex_text, lossy, text_of};

verus! {

/// One of the bits of a mask.
pub open spec fn flag(mask: u8, bit: u8) -> bool {
    mask & bit != 0
}

/// A boolean: one byte, zero false.
pub open spec fn boolean(bytes: Seq<u8>) -> Parsed<bool> {
    byte(bytes).and(|value: u8, rest: Seq<u8>| Parsed::Read(value != 0, rest))
}

/// A counted byte string, none where the length is negative.
pub open spec fn byte_string(bytes: Seq<u8>) -> Parsed<Option<Seq<u8>>> {
    i32_le(bytes).and(
        |length: i32, rest: Seq<u8>|
            if length < 0 {
                Parsed::Read(None, rest)
            } else {
                take(rest, length as nat).and(
                    |taken: Seq<u8>, rest: Seq<u8>| Parsed::Read(Some(taken), rest),
                )
            },
    )
}

/// A counted string, none where there is none.
pub open spec fn string(bytes: Seq<u8>) -> Parsed<Option<Seq<char>>> {
    byte_string(bytes).and(
        |counted: Option<Seq<u8>>, rest: Seq<u8>|
            Parsed::Read(
                match counted {
                    Some(taken) => Some(text_of(taken)),
                    None => None,
                },
                rest,
            ),
    )
}

/// A counted string, empty where there is none.
pub open spec fn string_or_empty(bytes: Seq<u8>) -> Parsed<Seq<char>> {
    string(bytes).and(
        |text: Option<Seq<char>>, rest: Seq<u8>|
            Parsed::Read(
                match text {
                    Some(text) => text,
                    None => Seq::empty(),
                },
                rest,
            ),
    )
}

/// The count that opens an array: zero where it is negative, and never
/// more than the bytes behind it, as every element takes one at least.
pub open spec fn count(bytes: Seq<u8>) -> Parsed<usize> {
    i32_le(bytes).and(
        |count: i32, rest: Seq<u8>|
            if count < 0 {
                Parsed::Read(0, rest)
            } else if count as nat > rest.len() {
                Parsed::Failed(permanent("an array longer than its encoding"@), rest)
            } else {
                Parsed::Read(count as usize, rest)
            },
    )
}

/// A node id in any of its forms; a GUID or an opaque one is read and not
/// carried.
pub open spec fn node_id(bytes: Seq<u8>) -> Parsed<NodeIdView> {
    byte(bytes).and(
        |first: u8, rest: Seq<u8>|
            {
                let form = first & 0x3f;
                if form == 0x00 {
                    byte(rest).and(
                        |id: u8, rest: Seq<u8>|
                            Parsed::Read(NodeIdView::Numeric { namespace: 0, id: id as u32 }, rest),
                    )
                } else if form == 0x01 {
                    byte(rest).and(
                        |namespace: u8, rest: Seq<u8>|
                            u16_le(rest).and(
                                |id: u16, rest: Seq<u8>|
                                    Parsed::Read(
                                        NodeIdView::Numeric {
                                            namespace: namespace as u16,
                                            id: id as u32,
                                        },
                                        rest,
                                    ),
                            ),
                    )
                } else if form == 0x02 {
                    u16_le(rest).and(
                        |namespace: u16, rest: Seq<u8>|
                            u32_le(rest).and(
                                |id: u32, rest: Seq<u8>|
                                    Parsed::Read(NodeIdView::Numeric { namespace, id }, rest),
                            ),
                    )
                } else if form == 0x03 {
                    u16_le(rest).and(
                        |namespace: u16, rest: Seq<u8>|
                            string_or_empty(rest).and(
                                |id: Seq<char>, rest: Seq<u8>|
                                    Parsed::Read(NodeIdView::String { namespace, id }, rest),
                            ),
                    )
                } else if form == 0x04 {
                    u16_le(rest).and(
                        |namespace: u16, rest: Seq<u8>|
                            skip(rest, 16).and(
                                |skipped: (), rest: Seq<u8>|
                                    Parsed::Read(NodeIdView::Numeric { namespace: 0, id: 0 }, rest),
                            ),
                    )
                } else if form == 0x05 {
                    u16_le(rest).and(
                        |namespace: u16, rest: Seq<u8>|
                            byte_string(rest).and(
                                |opaque: Option<Seq<u8>>, rest: Seq<u8>|
                                    Parsed::Read(NodeIdView::Numeric { namespace: 0, id: 0 }, rest),
                            ),
                    )
                } else {
                    Parsed::Failed(
                        permanent("a node id of form 0x"@ + hex(form as nat, 2)),
                        rest,
                    )
                }
            },
    )
}

/// Past what `read` reads, where `present`.
#[verifier::opaque]
pub open spec fn past_if<T>(present: bool, read: Parsed<T>, bytes: Seq<u8>) -> Parsed<()> {
    if present {
        read.and(|value: T, rest: Seq<u8>| Parsed::Read((), rest))
    } else {
        Parsed::Read((), bytes)
    }
}

/// Past a localized text.
#[verifier::opaque]
pub open spec fn localized_text(bytes: Seq<u8>) -> Parsed<()> {
    byte(bytes).and(
        |mask: u8, rest: Seq<u8>|
            past_if(flag(mask, 0x01), string(rest), rest).and(
                |locale: (), rest: Seq<u8>| past_if(flag(mask, 0x02), string(rest), rest),
            ),
    )
}

/// Past the fields of a diagnostic info that its mask announces, up to the
/// diagnostic info that may be nested in it.
pub open spec fn diagnostic_fields(mask: u8, bytes: Seq<u8>) -> Parsed<()> {
    past_if(flag(mask, 0x01), i32_le(bytes), bytes).and(
        |past: (), rest: Seq<u8>|
            past_if(flag(mask, 0x02), i32_le(rest), rest).and(
                |past: (), rest: Seq<u8>|
                    past_if(flag(mask, 0x04), i32_le(rest), rest).and(
                        |past: (), rest: Seq<u8>|
                            past_if(flag(mask, 0x08), i32_le(rest), rest).and(
                                |past: (), rest: Seq<u8>|
                                    past_if(flag(mask, 0x10), string(rest), rest).and(
                                        |past: (), rest: Seq<u8>|
                                            past_if(flag(mask, 0x20), u32_le(rest), rest),
                                    ),
                            ),
                    ),
            ),
    )
}

/// Past a diagnostic info nested no deeper than `depth`.
pub open spec fn diagnostic_info_within(bytes: Seq<u8>, depth: nat) -> Parsed<()>
    decreases depth,
{
    byte(bytes).and(
        |mask: u8, rest: Seq<u8>|
            diagnostic_fields(mask, rest).and(
                |past: (), rest: Seq<u8>|
                    if flag(mask, 0x40) && depth > 0 {
                        diagnostic_info_within(rest, (depth - 1) as nat)
                    } else {
                        Parsed::Read((), rest)
                    },
            ),
    )
}

/// Past a diagnostic info, however deep it nests: each level takes a byte
/// at least, so it nests no deeper than there are bytes.
pub open spec fn diagnostic_info(bytes: Seq<u8>) -> Parsed<()> {
    diagnostic_info_within(bytes, bytes.len())
}

/// Past `number` diagnostic infos.
pub open spec fn diagnostics(bytes: Seq<u8>, number: nat) -> Parsed<()>
    decreases number,
{
    if number == 0 {
        Parsed::Read((), bytes)
    } else {
        diagnostic_info(bytes).and(
            |past: (), rest: Seq<u8>| diagnostics(rest, (number - 1) as nat),
        )
    }
}

/// Past an array of diagnostic infos.
pub open spec fn diagnostic_array(bytes: Seq<u8>) -> Parsed<()> {
    count(bytes).and(|number: usize, rest: Seq<u8>| diagnostics(rest, number as nat))
}

/// Past `number` strings.
pub open spec fn strings(bytes: Seq<u8>, number: nat) -> Parsed<()>
    decreases number,
{
    if number == 0 {
        Parsed::Read((), bytes)
    } else {
        string(bytes).and(
            |text: Option<Seq<char>>, rest: Seq<u8>| strings(rest, (number - 1) as nat),
        )
    }
}

/// Past an array of strings.
pub open spec fn string_array(bytes: Seq<u8>) -> Parsed<()> {
    count(bytes).and(|number: usize, rest: Seq<u8>| strings(rest, number as nat))
}

/// Reading UA Binary's own fields off a cursor.
pub trait UaBinary<'a>: Sized {
    /// The bytes that remain.
    spec fn left(&self) -> Seq<u8>;

    /// A boolean: one byte, zero false.
    ///
    /// # Errors
    /// Where the buffer ends first.
    fn bool(&mut self) -> (result: Result<bool>)
        ensures
            agrees(result, final(self).left(), boolean(old(self).left())),
    ;

    /// A counted byte string, `None` where the length is minus one.
    ///
    /// # Errors
    /// Where the buffer ends first.
    fn byte_string(&mut self) -> (result: Result<Option<&'a [u8]>>)
        ensures
            agrees_held(result, final(self).left(), byte_string(old(self).left())),
    ;

    /// A counted string, `None` where there is none.
    ///
    /// # Errors
    /// Where the buffer ends first.
    fn string(&mut self) -> (result: Result<Option<String>>)
        ensures
            agrees_held(result, final(self).left(), string(old(self).left())),
    ;

    /// A counted string, empty where there is none.
    ///
    /// # Errors
    /// Where the buffer ends first.
    fn string_or_empty(&mut self) -> (result: Result<String>)
        ensures
            agrees(result, final(self).left(), string_or_empty(old(self).left())),
    ;

    /// The count that opens an array, zero where it is minus one.
    ///
    /// # Errors
    /// Where the buffer ends first, or the count is absurd.
    fn count(&mut self) -> (result: Result<usize>)
        ensures
            agrees(result, final(self).left(), count(old(self).left())),
    ;

    /// A node id in any of its forms; a GUID or an opaque one is read and
    /// not carried.
    ///
    /// # Errors
    /// Where the buffer ends first or the form is unknown.
    fn node_id(&mut self) -> (result: Result<NodeId>)
        ensures
            agrees(result, final(self).left(), node_id(old(self).left())),
    ;

    /// Past a localized text.
    ///
    /// # Errors
    /// Where the buffer ends first.
    fn skip_localized_text(&mut self) -> (result: Result<()>)
        ensures
            agrees(result, final(self).left(), localized_text(old(self).left())),
    ;

    /// Past a diagnostic info, however deep it nests.
    ///
    /// # Errors
    /// Where the buffer ends first.
    fn skip_diagnostic_info(&mut self) -> (result: Result<()>)
        ensures
            agrees(result, final(self).left(), diagnostic_info(old(self).left())),
    ;

    /// Past an array of diagnostic infos.
    ///
    /// # Errors
    /// Where the buffer ends first, or the count is absurd.
    fn skip_diagnostics(&mut self) -> (result: Result<()>)
        ensures
            agrees(result, final(self).left(), diagnostic_array(old(self).left())),
    ;

    /// Past an array of strings.
    ///
    /// # Errors
    /// Where the buffer ends first, or the count is absurd.
    fn skip_strings(&mut self) -> (result: Result<()>)
        ensures
            agrees(result, final(self).left(), string_array(old(self).left())),
    ;
}

impl<'a> UaBinary<'a> for Cursor<'a> {
    open spec fn left(&self) -> Seq<u8> {
        self@
    }

    fn bool(&mut self) -> (result: Result<bool>) {
        let value = self.byte()?;
        Ok(value != 0)
    }

    fn byte_string(&mut self) -> (result: Result<Option<&'a [u8]>>) {
        let length = self.i32_le()?;
        if length < 0 {
            return Ok(None);
        }
        let taken = self.take(length as usize)?;
        Ok(Some(taken))
    }

    fn string(&mut self) -> (result: Result<Option<String>>) {
        match self.byte_string()? {
            Some(taken) => Ok(Some(lossy(taken))),
            None => Ok(None),
        }
    }

    fn string_or_empty(&mut self) -> (result: Result<String>) {
        match self.string()? {
            Some(text) => Ok(text),
            None => Ok(String::new()),
        }
    }

    fn count(&mut self) -> (result: Result<usize>) {
        let count = self.i32_le()?;
        if count < 0 {
            return Ok(0);
        }
        if count as usize > self.remaining().len() {
            return Err(protocol_error("an array longer than its encoding"));
        }
        Ok(count as usize)
    }

    fn node_id(&mut self) -> (result: Result<NodeId>) {
        let first = self.byte()?;
        let form: u8 = first & 0x3f;
        match form {
            0x00 => {
                let id = self.byte()?;
                Ok(NodeId::numeric(0, id as u32))
            },
            0x01 => {
                let namespace = self.byte()?;
                let id = self.u16_le()?;
                Ok(NodeId::numeric(namespace as u16, id as u32))
            },
            0x02 => {
                let namespace = self.u16_le()?;
                let id = self.u32_le()?;
                Ok(NodeId::numeric(namespace, id))
            },
            0x03 => {
                let namespace = self.u16_le()?;
                let id = self.string_or_empty()?;
                Ok(NodeId::String { namespace, id })
            },
            0x04 => {
                self.u16_le()?;
                self.skip(16)?;
                Ok(NodeId::numeric(0, 0))
            },
            0x05 => {
                self.u16_le()?;
                self.byte_string()?;
                Ok(NodeId::numeric(0, 0))
            },
            _ => {
                let mut message = "a node id of form 0x".to_string();
                message.append(hex_text(form as u32, 2).as_str());
                Err(TransportError::permanent(message))
            },
        }
    }

    fn skip_localized_text(&mut self) -> (result: Result<()>) {
        reveal(localized_text);
        let mask = self.byte()?;
        skip_string_if(self, mask & 0x01 != 0)?;
        skip_string_if(self, mask & 0x02 != 0)
    }

    fn skip_diagnostic_info(&mut self) -> (result: Result<()>) {
        let ghost before = self@;
        let ghost mut depth = before.len();
        let mut mask = self.byte()?;
        loop
            invariant
                diagnostic_info(before) == diagnostic_fields(mask, self@).and(
                    |past: (), rest: Seq<u8>|
                        if flag(mask, 0x40) && depth > 0 {
                            diagnostic_info_within(rest, (depth - 1) as nat)
                        } else {
                            Parsed::Read((), rest)
                        },
                ),
                self@.len() < depth,
                before == old(self)@,
            decreases self@.len(),
        {
            let ghost at = self@;
            skip_diagnostic_fields(self, mask)?;
            if mask & 0x40 == 0 {
                return Ok(());
            }
            proof {
                lemma_diagnostic_fields_shrink(mask, at);
                depth = (depth - 1) as nat;
            }
            mask = self.byte()?;
        }
    }

    fn skip_diagnostics(&mut self) -> (result: Result<()>) {
        let ghost before = self@;
        let number = self.count()?;
        let mut left: usize = number;
        while left > 0
            invariant
                diagnostic_array(before) == diagnostics(self@, left as nat),
                before == old(self)@,
            decreases left,
        {
            self.skip_diagnostic_info()?;
            left -= 1;
        }
        Ok(())
    }

    fn skip_strings(&mut self) -> (result: Result<()>) {
        let ghost before = self@;
        let number = self.count()?;
        let mut left: usize = number;
        while left > 0
            invariant
                string_array(before) == strings(self@, left as nat),
                before == old(self)@,
            decreases left,
        {
            self.string()?;
            left -= 1;
        }
        Ok(())
    }
}

/// Past a number, where there is one.
fn skip_i32_if(reader: &mut Cursor<'_>, present: bool) -> (result: Result<()>)
    ensures
        agrees(result, final(reader)@, past_if(present, i32_le(old(reader)@), old(reader)@)),
{
    reveal(past_if);
    if present {
        reader.i32_le()?;
    }
    Ok(())
}

/// Past a number, where there is one.
fn skip_u32_if(reader: &mut Cursor<'_>, present: bool) -> (result: Result<()>)
    ensures
        agrees(result, final(reader)@, past_if(present, u32_le(old(reader)@), old(reader)@)),
{
    reveal(past_if);
    if present {
        reader.u32_le()?;
    }
    Ok(())
}

/// Past a string, where there is one.
fn skip_string_if(reader: &mut Cursor<'_>, present: bool) -> (result: Result<()>)
    ensures
        agrees(result, final(reader)@, past_if(present, string(old(reader)@), old(reader)@)),
{
    reveal(past_if);
    if present {
        reader.string()?;
    }
    Ok(())
}

/// Past the fields of a diagnostic info that its mask announces.
fn skip_diagnostic_fields(reader: &mut Cursor<'_>, mask: u8) -> (result: Result<()>)
    ensures
        agrees(result, final(reader)@, diagnostic_fields(mask, old(reader)@)),
{
    skip_i32_if(reader, mask & 0x01 != 0)?;
    skip_i32_if(reader, mask & 0x02 != 0)?;
    skip_i32_if(reader, mask & 0x04 != 0)?;
    skip_i32_if(reader, mask & 0x08 != 0)?;
    skip_string_if(reader, mask & 0x10 != 0)?;
    skip_u32_if(reader, mask & 0x20 != 0)
}

/// What is read past only shortens what remains.
broadcast proof fn lemma_past_if_shrinks<T>(present: bool, read: Parsed<T>, bytes: Seq<u8>)
    requires
        read matches Parsed::Read(_, rest) ==> rest.len() <= bytes.len(),
    ensures
        #[trigger] past_if(present, read, bytes) matches Parsed::Read(_, rest) ==> rest.len()
            <= bytes.len(),
{
    reveal(past_if);
}

proof fn lemma_diagnostic_fields_shrink(mask: u8, bytes: Seq<u8>)
    ensures
        diagnostic_fields(mask, bytes) matches Parsed::Read(_, rest) ==> rest.len() <= bytes.len(),
{
    broadcast use lemma_past_if_shrinks;
}

/// A boolean as its one byte.
pub open spec fn boolean_bytes(value: bool) -> Seq<u8> {
    seq![if value { 1u8 } else { 0u8 }]
}

/// A byte string behind its length, or minus one for none. A length that a
/// signed number of four bytes cannot say is written as the largest it can.
pub open spec fn byte_string_bytes(value: Option<Seq<u8>>) -> Seq<u8> {
    match value {
        Some(bytes) => i32_bytes(
            if bytes.len() <= i32::MAX {
                bytes.len() as i32
            } else {
                i32::MAX
            },
        ) + bytes,
        None => i32_bytes((-1int) as i32),
    }
}

/// A string behind the length of its UTF-8, or minus one for none.
pub open spec fn string_bytes(value: Option<Seq<char>>) -> Seq<u8> {
    byte_string_bytes(
        match value {
            Some(text) => Some(encode_utf8(text)),
            None => None,
        },
    )
}

/// A localized text of a text alone, no locale.
#[verifier::opaque]
pub open spec fn localized_text_bytes(text: Seq<char>) -> Seq<u8> {
    seq![0x02u8] + string_bytes(Some(text))
}

/// That a length field can say how long `text` is.
pub open spec fn text_fits(text: Seq<char>) -> bool {
    encode_utf8(text).len() <= i32::MAX
}

/// Writing UA Binary's own fields beside the integers of [`ByteWriter`].
pub trait UaBinaryWrite: ByteWriter {
    /// A boolean: one byte.
    fn bool(&mut self, value: bool) -> (out: &mut Self)
        ensures
            out.written() == old(self).written() + boolean_bytes(value),
            *final(self) == *final(out),
    ;

    /// A counted byte string, or minus one for none.
    fn byte_string(&mut self, bytes: Option<&[u8]>) -> (out: &mut Self)
        ensures
            out.written() == old(self).written() + byte_string_bytes(held(bytes)),
            *final(self) == *final(out),
    ;

    /// A counted string, or minus one for none.
    fn string(&mut self, text: Option<&str>) -> (out: &mut Self)
        ensures
            out.written() == old(self).written() + string_bytes(held(text)),
            *final(self) == *final(out),
    ;

    /// A localized text of `text` alone, no locale.
    fn localized_text(&mut self, text: &str) -> (out: &mut Self)
        ensures
            out.written() == old(self).written() + localized_text_bytes(text@),
            *final(self) == *final(out),
    ;

    /// A diagnostic info with nothing in it.
    fn no_diagnostic_info(&mut self) -> (out: &mut Self)
        ensures
            out.written() == old(self).written() + seq![0u8],
            *final(self) == *final(out),
    ;
}

impl UaBinaryWrite for Vec<u8> {
    fn bool(&mut self, value: bool) -> (out: &mut Self) {
        self.byte(if value { 1 } else { 0 })
    }

    fn byte_string(&mut self, bytes: Option<&[u8]>) -> (out: &mut Self) {
        broadcast use lemma_join;

        match bytes {
            Some(bytes) => {
                let length: i32 = if bytes.len() <= 0x7fff_ffff {
                    bytes.len() as i32
                } else {
                    i32::MAX
                };
                self.i32_le(length).bytes(bytes)
            },
            None => self.i32_le(-1),
        }
    }

    fn string(&mut self, text: Option<&str>) -> (out: &mut Self) {
        match text {
            Some(text) => self.byte_string(Some(text.as_bytes())),
            None => self.byte_string(None),
        }
    }

    fn localized_text(&mut self, text: &str) -> (out: &mut Self) {
        broadcast use lemma_join;

        reveal(localized_text_bytes);
        self.byte(0x02).string(Some(text))
    }

    fn no_diagnostic_info(&mut self) -> (out: &mut Self) {
        self.byte(0)
    }
}

/// The variant type a Stream travels as.
pub const BYTE_STRING: u8 = 15;

/// The variant type a text value has.
pub const STRING: u8 = 12;

/// A value with its source timestamp, as a data value carries it: the
/// bytes of a byte string or a string, or nothing where the value is
/// null.
#[derive(Debug, PartialEq, Eq)]
pub struct DataValue {
    pub bytes: Option<Vec<u8>>,
    pub status: u32,
    pub source_timestamp: Option<i64>,
}

/// What a [`DataValue`] holds.
pub struct DataValueView {
    pub bytes: Option<Seq<u8>>,
    pub status: u32,
    pub source_timestamp: Option<i64>,
}

impl View for DataValue {
    type V = DataValueView;

    open spec fn view(&self) -> DataValueView {
        DataValueView {
            bytes: held(self.bytes),
            status: self.status,
            source_timestamp: self.source_timestamp,
        }
    }
}

impl DataValueView {
    /// That the encoding can say how long the value is.
    pub open spec fn fits(self) -> bool {
        self.bytes matches Some(bytes) ==> bytes.len() <= i32::MAX
    }
}

/// What says which fields follow it in a data value.
pub open spec fn value_mask(value: DataValueView) -> u8 {
    let with_value = if value.bytes is Some { 0x01u8 } else { 0u8 };
    let with_status = if value.status != 0 { 0x02u8 } else { 0u8 };
    let with_stamp = if value.source_timestamp is Some { 0x04u8 } else { 0u8 };
    with_value | with_status | with_stamp
}

/// A data value: the mask, the variant, the status where not good, the
/// source timestamp where there is one.
pub open spec fn value_bytes(value: DataValueView) -> Seq<u8> {
    let variant = match value.bytes {
        Some(bytes) => seq![BYTE_STRING] + byte_string_bytes(Some(bytes)),
        None => Seq::empty(),
    };
    let status = if value.status != 0 {
        u32_bytes(value.status)
    } else {
        Seq::empty()
    };
    let stamp = match value.source_timestamp {
        Some(stamp) => i64_bytes(stamp),
        None => Seq::empty(),
    };
    seq![value_mask(value)] + (variant + (status + stamp))
}

/// That the data value at a cursor is of a variant type that is not bytes:
/// neither a byte string nor a string.
pub open spec fn is_not_bytes(bytes: Seq<u8>) -> bool {
    bytes.len() >= 2 && flag(bytes[0], 0x01) && bytes[1] != BYTE_STRING && bytes[1] != STRING
}

/// The variant of a data value, where there is one: a byte string or a
/// string.
pub open spec fn variant_if(present: bool, bytes: Seq<u8>) -> Parsed<Option<Seq<u8>>> {
    if !present {
        Parsed::Read(None, bytes)
    } else {
        byte(bytes).and(
            |kind: u8, rest: Seq<u8>|
                if kind == BYTE_STRING || kind == STRING {
                    byte_string(rest)
                } else {
                    Parsed::Failed(
                        permanent(
                            "a value of variant type "@ + decimal(kind as nat)
                                + ", and a Stream is a byte string"@,
                        ),
                        rest,
                    )
                },
        )
    }
}

/// A status, good where there is none.
pub open spec fn status_if(present: bool, bytes: Seq<u8>) -> Parsed<u32> {
    if present {
        u32_le(bytes)
    } else {
        Parsed::Read(0, bytes)
    }
}

/// A timestamp, where there is one.
pub open spec fn stamp_if(present: bool, bytes: Seq<u8>) -> Parsed<Option<i64>> {
    if present {
        i64_le(bytes).and(|stamp: i64, rest: Seq<u8>| Parsed::Read(Some(stamp), rest))
    } else {
        Parsed::Read(None, bytes)
    }
}

/// The data value at a cursor; a server timestamp and picoseconds are read
/// past.
pub open spec fn data_value(bytes: Seq<u8>) -> Parsed<DataValueView> {
    byte(bytes).and(
        |mask: u8, rest: Seq<u8>|
            variant_if(flag(mask, 0x01), rest).and(
                |bytes: Option<Seq<u8>>, rest: Seq<u8>|
                    status_if(flag(mask, 0x02), rest).and(
                        |status: u32, rest: Seq<u8>|
                            stamp_if(flag(mask, 0x04), rest).and(
                                |source_timestamp: Option<i64>, rest: Seq<u8>|
                                    past_server_fields(mask, rest).and(
                                        |past: (), rest: Seq<u8>|
                                            Parsed::Read(
                                                DataValueView { bytes, status, source_timestamp },
                                                rest,
                                            ),
                                    ),
                            ),
                    ),
            ),
    )
}

/// Past the server timestamp and the picoseconds of a data value.
pub open spec fn past_server_fields(mask: u8, bytes: Seq<u8>) -> Parsed<()> {
    past_if(flag(mask, 0x08), i64_le(bytes), bytes).and(
        |past: (), rest: Seq<u8>|
            past_if(flag(mask, 0x10), u16_le(rest), rest).and(
                |past: (), rest: Seq<u8>| past_if(flag(mask, 0x20), u16_le(rest), rest),
            ),
    )
}

impl Clone for DataValue {
    fn clone(&self) -> (copy: Self)
        ensures
            copy@ == self@,
    {
        let bytes = match &self.bytes {
            Some(bytes) => Some(vstd::slice::slice_to_vec(bytes.as_slice())),
            None => None,
        };
        DataValue { bytes, status: self.status, source_timestamp: self.source_timestamp }
    }
}

impl DataValue {
    /// `bytes` as a byte string, good, stamped now.
    #[must_use]
    pub fn bytes(bytes: &[u8]) -> (value: Self)
        ensures
            value@.bytes == Some(bytes@),
            value@.status == 0,
            value@.source_timestamp matches Some(stamp) && stamp >= EPOCH_1601 && told_by_a_clock(
                stamp,
            ),
    {
        Self::bytes_at(bytes, now())
    }

    /// `bytes` as a byte string, good, stamped `stamp`.
    #[must_use]
    pub fn bytes_at(bytes: &[u8], stamp: i64) -> (value: Self)
        ensures
            value@ == (DataValueView {
                bytes: Some(bytes@),
                status: 0,
                source_timestamp: Some(stamp),
            }),
    {
        DataValue {
            bytes: Some(vstd::slice::slice_to_vec(bytes)),
            status: 0,
            source_timestamp: Some(stamp),
        }
    }

    /// Append this value: the variant, the status where not good, the
    /// source timestamp where there is one.
    pub fn put(&self, out: &mut Vec<u8>)
        ensures
            final(out)@ == old(out)@ + value_bytes(self@),
    {
        broadcast use {lemma_join, lemma_join_nothing, lemma_nothing_join};

        let mut mask: u8 = 0;
        if self.bytes.is_some() {
            mask = 0x01;
        }
        assert(0u8 | 0u8 == 0 && 0x01u8 | 0u8 == 0x01) by (bit_vector);
        if self.status != 0 {
            mask = mask | 0x02;
        }
        if self.source_timestamp.is_some() {
            mask = mask | 0x04;
        }
        assert(forall|mask: u8| #![trigger mask | 0u8] mask | 0u8 == mask) by (bit_vector);
        assert(mask == value_mask(self@));
        out.byte(mask);
        if let Some(bytes) = &self.bytes {
            out.byte(BYTE_STRING).byte_string(Some(bytes.as_slice()));
        }
        if self.status != 0 {
            out.u32_le(self.status);
        }
        if let Some(stamp) = self.source_timestamp {
            out.i64_le(stamp);
        }
    }

    /// Whether the data value at the cursor, which stays where it is, is of a
    /// variant type that is not bytes.
    pub fn is_not_bytes(reader: &Cursor<'_>) -> (other: bool)
        ensures
            other == is_not_bytes(reader@),
    {
        let bytes = reader.remaining();
        bytes.len() >= 2 && bytes[0] & 0x01 != 0 && bytes[1] != BYTE_STRING && bytes[1] != STRING
    }

    /// The data value at the cursor.
    ///
    /// # Errors
    /// Where the buffer ends first, or the value is of a type that is not
    /// a byte string or a string: a Stream is bytes, and a number or a
    /// structure is another's to read.
    pub fn take(reader: &mut Cursor<'_>) -> (result: Result<Self>)
        ensures
            agrees(result, final(reader)@, data_value(old(reader)@)),
    {
        let mask = reader.byte()?;
        let bytes = take_variant_if(reader, mask & 0x01 != 0)?;
        let status = take_status_if(reader, mask & 0x02 != 0)?;
        let source_timestamp = take_stamp_if(reader, mask & 0x04 != 0)?;
        skip_server_fields(reader, mask)?;
        Ok(DataValue { bytes, status, source_timestamp })
    }
}

fn take_variant_if(reader: &mut Cursor<'_>, present: bool) -> (result: Result<Option<Vec<u8>>>)
    ensures
        agrees_held(result, final(reader)@, variant_if(present, old(reader)@)),
{
    if !present {
        return Ok(None);
    }
    let kind = reader.byte()?;
    if kind != BYTE_STRING && kind != STRING {
        let mut message = "a value of variant type ".to_string();
        message.append(decimal_text(kind as u64).as_str());
        message.append(", and a Stream is a byte string");
        return Err(TransportError::permanent(message));
    }
    match reader.byte_string()? {
        Some(bytes) => Ok(Some(vstd::slice::slice_to_vec(bytes))),
        None => Ok(None),
    }
}

fn take_status_if(reader: &mut Cursor<'_>, present: bool) -> (result: Result<u32>)
    ensures
        agrees(result, final(reader)@, status_if(present, old(reader)@)),
{
    if present {
        reader.u32_le()
    } else {
        Ok(0)
    }
}

fn take_stamp_if(reader: &mut Cursor<'_>, present: bool) -> (result: Result<Option<i64>>)
    ensures
        agrees(result, final(reader)@, stamp_if(present, old(reader)@)),
{
    if present {
        let stamp = reader.i64_le()?;
        Ok(Some(stamp))
    } else {
        Ok(None)
    }
}

fn skip_server_fields(reader: &mut Cursor<'_>, mask: u8) -> (result: Result<()>)
    ensures
        agrees(result, final(reader)@, past_server_fields(mask, old(reader)@)),
{
    reveal(past_if);
    if mask & 0x08 != 0 {
        reader.i64_le()?;
    }
    if mask & 0x10 != 0 {
        reader.u16_le()?;
    }
    if mask & 0x20 != 0 {
        reader.u16_le()?;
    }
    Ok(())
}

/// The offset of 1601-01-01 from 1970-01-01 in hundred-nanosecond ticks.
pub const EPOCH_1601: i64 = 116_444_736_000_000_000;

/// The largest tick count that is still an OPC UA `DateTime` once moved to
/// 1601.
pub const LAST_TICK: i64 = 9_106_927_300_854_775_807;

/// The clock of the system, as the standard library keeps it.
#[verifier::external_type_specification]
#[verifier::external_body]
pub struct ExSystemTime(SystemTime);

/// That one time is before another.
#[verifier::external_type_specification]
#[verifier::external_body]
pub struct ExSystemTimeError(SystemTimeError);

/// How long after the start of 1970 a time is, none where it is before.
pub uninterp spec fn after_1970(time: SystemTime) -> Option<Duration>;

/// How many nanoseconds a duration holds.
pub uninterp spec fn nanos_in(duration: Duration) -> u128;

/// `SystemTime::now`: whatever the clock says, so nothing is said of it.
#[verifier::external_body]
fn clock() -> (time: SystemTime)
{
    SystemTime::now()
}

/// `Duration::as_nanos`: the nanoseconds a duration holds, which depend on
/// the duration alone.
pub assume_specification[ Duration::as_nanos ](duration: &Duration) -> (nanos: u128)
    ensures
        nanos == nanos_in(*duration),
;

/// `SystemTime::duration_since`, from the start of 1970: how long after that
/// `time` is, and an error where it is before. Either depends on `time`
/// alone.
#[verifier::external_body]
fn since_1970(time: &SystemTime) -> (since: std::result::Result<Duration, SystemTimeError>)
    ensures
        match since {
            Ok(duration) => after_1970(*time) == Some(duration),
            Err(_) => after_1970(*time) is None,
        },
{
    time.duration_since(std::time::UNIX_EPOCH)
}

/// The OPC UA `DateTime` of a time that many nanoseconds after the start of
/// 1970: hundred-nanosecond ticks since 1601, the last there is where it is
/// later than that.
pub open spec fn date_time(nanos: u128) -> int {
    if nanos / 100 <= LAST_TICK {
        nanos / 100 + EPOCH_1601
    } else {
        i64::MAX as int
    }
}

/// [`date_time`], computed.
pub fn ticks(nanos: u128) -> (stamp: i64)
    ensures
        stamp == date_time(nanos),
{
    let since: u128 = nanos / 100;
    if since <= LAST_TICK as u128 {
        since as i64 + EPOCH_1601
    } else {
        i64::MAX
    }
}

/// The OPC UA `DateTime` of a time that long after the start of 1970; one
/// before it is taken as the start.
pub open spec fn stamp_at(since: Option<Duration>) -> int {
    match since {
        Some(since) => date_time(nanos_in(since)),
        None => EPOCH_1601 as int,
    }
}

/// That `stamp` is the OPC UA `DateTime` of some time a clock can say.
pub open spec fn told_by_a_clock(stamp: i64) -> bool {
    exists|time: SystemTime| stamp == stamp_at(#[trigger] after_1970(time))
}

/// A time as an OPC UA `DateTime`; one before 1970 as the start of it.
pub fn stamp_of(time: &SystemTime) -> (stamp: i64)
    ensures
        stamp == stamp_at(after_1970(*time)),
{
    match since_1970(time) {
        Ok(since) => ticks(since.as_nanos()),
        Err(_) => ticks(0),
    }
}

/// Now, as an OPC UA `DateTime`: hundred-nanosecond ticks since 1601.
#[must_use]
pub fn now() -> (stamp: i64)
    ensures
        stamp >= EPOCH_1601,
        told_by_a_clock(stamp),
{
    let time = clock();
    let stamp = stamp_of(&time);
    assert(stamp == stamp_at(after_1970(time)));
    stamp
}

/// A text of at most a quarter of what a length field counts fits one: a
/// character takes four bytes at most.
pub proof fn lemma_text_fits(text: Seq<char>)
    requires
        4 * text.len() <= i32::MAX,
    ensures
        text_fits(text),
{
    lemma_encoded_len(text);
}

/// A character takes four bytes at most.
pub proof fn lemma_encoded_len(text: Seq<char>)
    ensures
        encode_utf8(text).len() <= 4 * text.len(),
    decreases text.len(),
{
    if text.len() > 0 {
        lemma_encoded_len(text.drop_first());
    }
}

/// A boolean reads back.
pub broadcast proof fn law_boolean_reads_back(value: bool, rest: Seq<u8>)
    ensures
        #[trigger] boolean(boolean_bytes(value) + rest) == Parsed::Read(value, rest),
{
    broadcast use law_byte_reads_back;

}

/// A byte string that its length field can count reads back, and none as
/// none.
pub broadcast proof fn law_byte_string_reads_back(value: Option<Seq<u8>>, rest: Seq<u8>)
    requires
        value matches Some(bytes) ==> bytes.len() <= i32::MAX,
    ensures
        #[trigger] byte_string(byte_string_bytes(value) + rest) == Parsed::Read(value, rest),
{
    broadcast use {lemma_join, law_i32_reads_back, lemma_take_front};

}

/// A string that its length field can count reads back, and none as none.
pub broadcast proof fn law_string_reads_back(value: Option<Seq<char>>, rest: Seq<u8>)
    requires
        value matches Some(text) ==> text_fits(text),
    ensures
        #[trigger] string(string_bytes(value) + rest) == Parsed::Read(value, rest),
{
    broadcast use {
        law_byte_string_reads_back,
        vstd::utf8::encode_utf8_decode_utf8,
        vstd::utf8::encode_utf8_valid_utf8,
    };

}

/// A localized text is read past, and nothing behind it is touched.
pub broadcast proof fn law_localized_text_is_passed(text: Seq<char>, rest: Seq<u8>)
    requires
        text_fits(text),
    ensures
        #[trigger] localized_text(localized_text_bytes(text) + rest) == Parsed::Read((), rest),
{
    broadcast use {lemma_join, law_byte_reads_back, law_string_reads_back};

    reveal(localized_text);
    reveal(localized_text_bytes);
    reveal(past_if);
    assert(0x02u8 & 0x01 == 0 && 0x02u8 & 0x02 != 0) by (bit_vector);
}

/// A diagnostic info with nothing in it is read past.
pub broadcast proof fn law_no_diagnostic_info_is_passed(rest: Seq<u8>)
    ensures
        #[trigger] diagnostic_info(seq![0u8] + rest) == Parsed::Read((), rest),
{
    broadcast use law_byte_reads_back;

    reveal(past_if);
    assert(forall|bit: u8| #![trigger 0u8 & bit] 0u8 & bit == 0) by (bit_vector);
}

/// What is written of a value is read back, and nothing behind it is
/// touched. Left out are bytes too many for their length field.
pub broadcast proof fn law_data_value_reads_back(value: DataValueView, rest: Seq<u8>)
    requires
        value.fits(),
    ensures
        #[trigger] data_value(value_bytes(value) + rest) == Parsed::Read(value, rest),
{
    broadcast use {
        lemma_join,
        lemma_nothing_join,
        law_byte_reads_back,
        law_byte_string_reads_back,
        law_u32_reads_back,
        law_i64_reads_back,
    };

    reveal(past_if);
    lemma_value_mask(value);
}

/// The mask of a data value announces the fields that are there.
proof fn lemma_value_mask(value: DataValueView)
    ensures
        flag(value_mask(value), 0x01) == value.bytes is Some,
        flag(value_mask(value), 0x02) == (value.status != 0),
        flag(value_mask(value), 0x04) == value.source_timestamp is Some,
        !flag(value_mask(value), 0x08),
        !flag(value_mask(value), 0x10),
        !flag(value_mask(value), 0x20),
{
    let a = if value.bytes is Some { 0x01u8 } else { 0u8 };
    let b = if value.status != 0 { 0x02u8 } else { 0u8 };
    let c = if value.source_timestamp is Some { 0x04u8 } else { 0u8 };
    assert((a == 0 || a == 1) && (b == 0 || b == 2) && (c == 0 || c == 4) ==> ((a | b | c) & 1 != 0)
        == (a == 1) && ((a | b | c) & 2 != 0) == (b == 2) && ((a | b | c) & 4 != 0) == (c == 4) && (
    a | b | c) & 8 == 0 && (a | b | c) & 16 == 0 && (a | b | c) & 32 == 0) by (bit_vector);
}

/// What is written in order is read back in order: every field, and the
/// joining of fields.
pub broadcast group group_reads_back {
    lemma_join,
    lemma_join_nothing,
    lemma_nothing_join,
    law_byte_reads_back,
    law_u16_reads_back,
    law_u32_reads_back,
    law_u64_reads_back,
    law_i32_reads_back,
    law_i64_reads_back,
    law_boolean_reads_back,
    law_byte_string_reads_back,
    law_string_reads_back,
    law_localized_text_is_passed,
    law_no_diagnostic_info_is_passed,
    law_data_value_reads_back,
    law_node_id_reads_back,
}

/// A boolean is one byte: one where it is written true, zero where false, and
/// any byte but zero is read as true.
pub proof fn law_boolean_is_one_byte(value: u8, rest: Seq<u8>)
    ensures
        boolean_bytes(true) == seq![1u8],
        boolean_bytes(false) == seq![0u8],
        boolean(seq![value] + rest) == Parsed::Read(value != 0, rest),
        boolean(Seq::empty()) is Failed,
{
    broadcast use law_byte_reads_back;

    assert(boolean_bytes(true) =~= seq![1u8]);
    assert(boolean_bytes(false) =~= seq![0u8]);
}

/// A byte string stands behind its length, a string behind that of its UTF-8,
/// and none of either is four bytes `ff`. Those too long for their length
/// field stand whole behind the longest there is.
pub proof fn law_strings_stand_behind_their_length(bytes: Seq<u8>, text: Seq<char>)
    ensures
        byte_string_bytes(Some(bytes)) == u32_bytes(
            if bytes.len() < 0x8000_0000 {
                bytes.len() as u32
            } else {
                0x7fff_ffff
            },
        ) + bytes,
        byte_string_bytes(None) == seq![0xffu8, 0xff, 0xff, 0xff],
        string_bytes(Some(text)) == byte_string_bytes(Some(encode_utf8(text))),
        string_bytes(None) == seq![0xffu8, 0xff, 0xff, 0xff],
        localized_text_bytes(text) == seq![2u8] + string_bytes(Some(text)),
{
    reveal(localized_text_bytes);
    law_least_significant_byte_is_first(0, 0xffff_ffff, 0);
}

/// Any bytes behind their number are a byte string, and a string of the text
/// they hold; a negative number is none of either, and a number of more bytes
/// than there are is a failure.
pub proof fn law_length_says_what_is_read(length: i32, bytes: Seq<u8>, rest: Seq<u8>)
    ensures
        length < 0 ==> byte_string(i32_bytes(length) + rest) == Parsed::Read(
            None::<Seq<u8>>,
            rest,
        ) && string(i32_bytes(length) + rest) == Parsed::Read(None::<Seq<char>>, rest) && string_or_empty(
            i32_bytes(length) + rest,
        ) == Parsed::Read(Seq::<char>::empty(), rest),
        length == bytes.len() ==> byte_string(i32_bytes(length) + (bytes + rest)) == Parsed::Read(
            Some(bytes),
            rest,
        ) && string(i32_bytes(length) + (bytes + rest)) == Parsed::Read(Some(text_of(bytes)), rest)
            && string_or_empty(i32_bytes(length) + (bytes + rest)) == Parsed::Read(
            text_of(bytes),
            rest,
        ),
        length > rest.len() ==> ({
            let message = "a field of "@ + decimal(length as nat) + " bytes runs past the "@
                + decimal(rest.len()) + " left"@;
            &&& byte_string(i32_bytes(length) + rest).refused(message)
            &&& string(i32_bytes(length) + rest).refused(message)
            &&& string_or_empty(i32_bytes(length) + rest).refused(message)
        }),
        rest.len() < 4 ==> byte_string(rest) is Failed && string(rest) is Failed && string_or_empty(
            rest,
        ) is Failed && count(rest) is Failed,
{
    broadcast use {law_i32_reads_back, lemma_take_front};

}

/// A count is the number that opens an array, none where it is negative; one
/// over the bytes behind it is a failure.
pub proof fn law_count_is_at_most_the_bytes_behind(number: i32, rest: Seq<u8>)
    ensures
        number < 0 ==> count(i32_bytes(number) + rest) == Parsed::Read(0usize, rest),
        0 <= number <= rest.len() ==> count(i32_bytes(number) + rest) == Parsed::Read(
            number as usize,
            rest,
        ),
        number > rest.len() ==> count(i32_bytes(number) + rest).refused(
            "an array longer than its encoding"@,
        ),
{
    broadcast use law_i32_reads_back;

}

/// Strings in an array are passed one by one, as many as its count says.
pub proof fn law_array_of_strings_is_passed(number: nat, text: Option<Seq<char>>, rest: Seq<u8>)
    requires
        text matches Some(text) ==> text_fits(text),
    ensures
        strings(rest, 0) == Parsed::Read((), rest),
        strings(string_bytes(text) + rest, number + 1) == strings(rest, number),
        number <= rest.len() && number <= i32::MAX ==> string_array(
            i32_bytes(number as i32) + rest,
        ) == strings(rest, number),
        string_array(i32_bytes((-1int) as i32) + rest) == Parsed::Read((), rest),
{
    broadcast use {law_i32_reads_back, law_string_reads_back};

}

/// A localized text is passed whatever it has: a locale, a text, both or
/// neither, as its mask says.
pub proof fn law_any_localized_text_is_passed(
    mask: u8,
    locale: Option<Seq<char>>,
    text: Option<Seq<char>>,
    rest: Seq<u8>,
)
    requires
        locale matches Some(locale) ==> text_fits(locale),
        text matches Some(text) ==> text_fits(text),
    ensures
        localized_text(
            seq![mask] + ((if mask & 0x01 != 0 {
                string_bytes(locale)
            } else {
                Seq::empty()
            }) + ((if mask & 0x02 != 0 {
                string_bytes(text)
            } else {
                Seq::empty()
            }) + rest)),
        ) == Parsed::Read((), rest),
{
    broadcast use {lemma_nothing_join, law_byte_reads_back, law_string_reads_back};

    reveal(localized_text);
    reveal(past_if);
}

/// What a field of a diagnostic info takes, where the mask has its bit.
pub open spec fn if_flag(mask: u8, bit: u8, field: Seq<u8>) -> Seq<u8> {
    if mask & bit != 0 {
        field
    } else {
        Seq::empty()
    }
}

proof fn lemma_past_if_flag<T>(
    mask: u8,
    bit: u8,
    read: Parsed<T>,
    value: T,
    field: Seq<u8>,
    rest: Seq<u8>,
)
    requires
        flag(mask, bit) ==> read == Parsed::Read(value, rest),
    ensures
        past_if(flag(mask, bit), read, if_flag(mask, bit, field) + rest) == Parsed::Read((), rest),
{
    broadcast use lemma_nothing_join;

    reveal(past_if);
}

proof fn lemma_diagnostic_fields_pass(
    mask: u8,
    numbers: (i32, i32, i32, i32),
    info: Option<Seq<char>>,
    status: u32,
    rest: Seq<u8>,
)
    requires
        info matches Some(info) ==> text_fits(info),
    ensures
        diagnostic_fields(
            mask,
            if_flag(mask, 0x01, i32_bytes(numbers.0)) + (if_flag(mask, 0x02, i32_bytes(numbers.1))
                + (if_flag(mask, 0x04, i32_bytes(numbers.2)) + (if_flag(
                mask,
                0x08,
                i32_bytes(numbers.3),
            ) + (if_flag(mask, 0x10, string_bytes(info)) + (if_flag(mask, 0x20, u32_bytes(status))
                + rest))))),
        ) == Parsed::Read((), rest),
{
    broadcast use {law_i32_reads_back, law_u32_reads_back, law_string_reads_back};

    let r6 = if_flag(mask, 0x20, u32_bytes(status)) + rest;
    let r5 = if_flag(mask, 0x10, string_bytes(info)) + r6;
    let r4 = if_flag(mask, 0x08, i32_bytes(numbers.3)) + r5;
    let r3 = if_flag(mask, 0x04, i32_bytes(numbers.2)) + r4;
    let r2 = if_flag(mask, 0x02, i32_bytes(numbers.1)) + r3;
    let r1 = if_flag(mask, 0x01, i32_bytes(numbers.0)) + r2;
    lemma_past_if_flag(mask, 0x01, i32_le(r1), numbers.0, i32_bytes(numbers.0), r2);
    lemma_past_if_flag(mask, 0x02, i32_le(r2), numbers.1, i32_bytes(numbers.1), r3);
    lemma_past_if_flag(mask, 0x04, i32_le(r3), numbers.2, i32_bytes(numbers.2), r4);
    lemma_past_if_flag(mask, 0x08, i32_le(r4), numbers.3, i32_bytes(numbers.3), r5);
    lemma_past_if_flag(mask, 0x10, string(r5), info, string_bytes(info), r6);
    lemma_past_if_flag(mask, 0x20, u32_le(r6), status, u32_bytes(status), rest);
}

/// How deep a diagnostic info may nest does not matter, as long as it is as
/// deep as there are bytes.
pub proof fn lemma_depth_does_not_matter(bytes: Seq<u8>, a: nat, b: nat)
    requires
        a >= bytes.len(),
        b >= bytes.len(),
    ensures
        diagnostic_info_within(bytes, a) == diagnostic_info_within(bytes, b),
    decreases bytes.len(),
{
    if bytes.len() > 0 {
        let mask = bytes[0];
        let rest = bytes.skip(1);
        lemma_diagnostic_fields_shrink(mask, rest);
        if let Parsed::Read(_, inner) = diagnostic_fields(mask, rest) {
            lemma_depth_does_not_matter(inner, (a - 1) as nat, (b - 1) as nat);
        }
    }
}

/// A diagnostic info is passed whatever fields its mask says it has, and so is
/// the one nested in it, and however many are nested in that.
pub proof fn law_any_diagnostic_info_is_passed(
    mask: u8,
    numbers: (i32, i32, i32, i32),
    info: Option<Seq<char>>,
    status: u32,
    rest: Seq<u8>,
)
    requires
        info matches Some(info) ==> text_fits(info),
    ensures
        diagnostic_info(
            seq![mask] + (if_flag(mask, 0x01, i32_bytes(numbers.0)) + (if_flag(
                mask,
                0x02,
                i32_bytes(numbers.1),
            ) + (if_flag(mask, 0x04, i32_bytes(numbers.2)) + (if_flag(
                mask,
                0x08,
                i32_bytes(numbers.3),
            ) + (if_flag(mask, 0x10, string_bytes(info)) + (if_flag(mask, 0x20, u32_bytes(status))
                + rest)))))),
        ) == if mask & 0x40 != 0 {
            diagnostic_info(rest)
        } else {
            Parsed::Read((), rest)
        },
{
    broadcast use law_byte_reads_back;

    lemma_diagnostic_fields_pass(mask, numbers, info, status, rest);
    let fields = if_flag(mask, 0x01, i32_bytes(numbers.0)) + (if_flag(
        mask,
        0x02,
        i32_bytes(numbers.1),
    ) + (if_flag(mask, 0x04, i32_bytes(numbers.2)) + (if_flag(mask, 0x08, i32_bytes(numbers.3)) + (
    if_flag(mask, 0x10, string_bytes(info)) + (if_flag(mask, 0x20, u32_bytes(status)) + rest)))));
    let bytes = seq![mask] + fields;
    lemma_depth_does_not_matter(rest, (bytes.len() - 1) as nat, rest.len());
}

/// Diagnostic infos in an array are passed one by one, as many as its count
/// says.
pub proof fn law_array_of_diagnostics_is_passed(
    number: nat,
    one: Seq<u8>,
    behind: Seq<u8>,
    rest: Seq<u8>,
)
    requires
        diagnostic_info(one) == Parsed::Read((), behind),
    ensures
        diagnostics(rest, 0) == Parsed::Read((), rest),
        diagnostics(one, number + 1) == diagnostics(behind, number),
        number <= rest.len() && number <= i32::MAX ==> diagnostic_array(
            i32_bytes(number as i32) + rest,
        ) == diagnostics(rest, number),
        diagnostic_array(i32_bytes((-1int) as i32) + rest) == Parsed::Read((), rest),
{
    broadcast use law_i32_reads_back;

}

/// A value is written as a mask, its bytes as variant type fifteen where it
/// has any, its status where that is not good, and its stamp where it has
/// one; the mask says which of the three follow.
pub proof fn law_value_is_written_behind_its_mask(value: DataValueView)
    requires
        value.fits(),
    ensures
        value_bytes(value) == seq![
            ((if value.bytes is Some {
                1int
            } else {
                0
            }) + (if value.status != 0 {
                2int
            } else {
                0
            }) + (if value.source_timestamp is Some {
                4int
            } else {
                0
            })) as u8,
        ] + ((match value.bytes {
            Some(bytes) => seq![15u8] + (u32_bytes(bytes.len() as u32) + bytes),
            None => Seq::empty(),
        }) + ((if value.status != 0 {
            u32_bytes(value.status)
        } else {
            Seq::empty()
        }) + (match value.source_timestamp {
            Some(stamp) => i64_bytes(stamp),
            None => Seq::empty(),
        }))),
{
    assert(0u8 | 0 | 0 == 0 && 1u8 | 0 | 0 == 1 && 0u8 | 2 | 0 == 2 && 1u8 | 2 | 0 == 3 && 0u8 | 0 | 4
        == 4 && 1u8 | 0 | 4 == 5 && 0u8 | 2 | 4 == 6 && 1u8 | 2 | 4 == 7) by (bit_vector);
}

/// A value is read whichever of its fields its mask says follow: the bytes of
/// a byte string or a string, a status, good where there is none, and a source
/// timestamp are kept, and a server timestamp and the picoseconds of either
/// are not. Left out are bytes too many for their length field.
#[verifier::spinoff_prover]
#[verifier::rlimit(40)]
pub proof fn law_any_data_value_is_read(
    mask: u8,
    kind: u8,
    bytes: Option<Seq<u8>>,
    status: u32,
    stamp: i64,
    server_stamp: i64,
    picoseconds: (u16, u16),
    rest: Seq<u8>,
)
    requires
        kind == 15 || kind == 12,
        bytes matches Some(bytes) ==> bytes.len() <= i32::MAX,
    ensures
        data_value(
            seq![mask] + (if_flag(mask, 0x01, seq![kind] + byte_string_bytes(bytes)) + (if_flag(
                mask,
                0x02,
                u32_bytes(status),
            ) + (if_flag(mask, 0x04, i64_bytes(stamp)) + (if_flag(mask, 0x08, i64_bytes(server_stamp))
                + (if_flag(mask, 0x10, u16_bytes(picoseconds.0)) + (if_flag(
                mask,
                0x20,
                u16_bytes(picoseconds.1),
            ) + rest)))))),
        ) == Parsed::Read(
            DataValueView {
                bytes: if mask & 0x01 != 0 {
                    bytes
                } else {
                    None
                },
                status: if mask & 0x02 != 0 {
                    status
                } else {
                    0
                },
                source_timestamp: if mask & 0x04 != 0 {
                    Some(stamp)
                } else {
                    None
                },
            },
            rest,
        ),
{
    broadcast use {
        lemma_join,
        lemma_nothing_join,
        law_byte_reads_back,
        law_u16_reads_back,
        law_u32_reads_back,
        law_i64_reads_back,
        law_byte_string_reads_back,
    };

    let r6 = if_flag(mask, 0x20, u16_bytes(picoseconds.1)) + rest;
    let r5 = if_flag(mask, 0x10, u16_bytes(picoseconds.0)) + r6;
    let r4 = if_flag(mask, 0x08, i64_bytes(server_stamp)) + r5;
    let r3 = if_flag(mask, 0x04, i64_bytes(stamp)) + r4;
    let r2 = if_flag(mask, 0x02, u32_bytes(status)) + r3;
    let r1 = if_flag(mask, 0x01, seq![kind] + byte_string_bytes(bytes)) + r2;
    lemma_past_if_flag(mask, 0x08, i64_le(r4), server_stamp, i64_bytes(server_stamp), r5);
    lemma_past_if_flag(mask, 0x10, u16_le(r5), picoseconds.0, u16_bytes(picoseconds.0), r6);
    lemma_past_if_flag(mask, 0x20, u16_le(r6), picoseconds.1, u16_bytes(picoseconds.1), rest);
    assert(past_server_fields(mask, r4) == Parsed::Read((), rest));
    assert(variant_if(flag(mask, 0x01), r1) == Parsed::Read(
        if mask & 0x01 != 0 {
            bytes
        } else {
            None
        },
        r2,
    ));
    assert(status_if(flag(mask, 0x02), r2) == Parsed::Read(
        if mask & 0x02 != 0 {
            status
        } else {
            0
        },
        r3,
    ));
    assert(stamp_if(flag(mask, 0x04), r3) == Parsed::Read(
        if mask & 0x04 != 0 {
            Some(stamp)
        } else {
            None
        },
        r4,
    ));
}

/// A value of any variant type but a byte string and a string is no Stream:
/// it is a failure that names the type, and no other value is taken for one.
pub proof fn law_other_variant_types_are_no_stream(mask: u8, kind: u8, rest: Seq<u8>)
    ensures
        is_not_bytes(seq![mask, kind] + rest) <==> mask & 0x01 != 0 && kind != 15 && kind != 12,
        !is_not_bytes(seq![mask]),
        !is_not_bytes(Seq::empty()),
        mask & 0x01 != 0 && kind != 15 && kind != 12 ==> (data_value(
            seq![mask, kind] + rest,
        ) matches Parsed::Failed(failure, _) && !failure.retryable && failure.message
            == "a value of variant type "@ + decimal(kind as nat)
            + ", and a Stream is a byte string"@),
{
    broadcast use law_byte_reads_back;

    assert(seq![mask, kind] + rest =~= seq![mask] + (seq![kind] + rest));
}

/// Time is counted in hundreds of nanoseconds from 1601, which is
/// 116,444,736,000,000,000 of them before 1970, and stands still at the last
/// there is, and at 1970 where it is before that.
pub proof fn law_time_is_counted_in_hundreds_of_nanoseconds(ticks: u128, part: u128, nanos: u128)
    requires
        part < 100,
        nanos == 100 * ticks + part,
    ensures
        ticks + 116_444_736_000_000_000 <= i64::MAX ==> date_time(nanos) == ticks
            + 116_444_736_000_000_000,
        ticks + 116_444_736_000_000_000 > i64::MAX ==> date_time(nanos) == i64::MAX,
        stamp_at(None) == 116_444_736_000_000_000,
{
    assert(nanos / 100 == ticks);
}

} // verus!
