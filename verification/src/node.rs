//! The identifier of one node in one namespace: numeric or a string,
//! written in the shortest of the binary encoding's forms and read in any
//! of them, and parsed from and printed in the `ns=2;s=Orders` text every
//! OPC UA tool writes.

use vstd::prelude::*;

use crate::codec::{
    byte, law_byte_reads_back, law_least_significant_byte_is_first, law_u16_reads_back,
    law_u32_reads_back, lemma_join, lemma_le_bytes_len, u16_bytes, u32_bytes, ByteWriter, Parsed,
};
use crate::error::{permanent, Failure, Result, TransportError};
use crate::text::{
    begins_with, characters, debug_text, decimal, decimal_text, find, first_place, is_digit,
    law_decimal_reads_back, law_first_place_is_the_first, lemma_decimal, lemma_first_place,
    parse_number, parsed_number, quoted, same_text, starts_with,
};
use crate::wire::{node_id, string_bytes, text_fits, UaBinaryWrite};

verus! {

/// The identifier of one node in one namespace.
#[allow(inconsistent_fields)]
#[derive(Debug, PartialEq, Eq, PartialOrd, Ord)]
pub enum NodeId {
    Numeric { namespace: u16, id: u32 },
    String { namespace: u16, id: String },
}

/// What a [`NodeId`] names.
#[allow(inconsistent_fields)]
pub enum NodeIdView {
    Numeric { namespace: u16, id: u32 },
    String { namespace: u16, id: Seq<char> },
}

impl View for NodeId {
    type V = NodeIdView;

    open spec fn view(&self) -> NodeIdView {
        match self {
            NodeId::Numeric { namespace, id } => NodeIdView::Numeric {
                namespace: *namespace,
                id: *id,
            },
            NodeId::String { namespace, id } => NodeIdView::String {
                namespace: *namespace,
                id: id@,
            },
        }
    }
}

impl NodeIdView {
    /// That the encoding can say how long the name is.
    pub open spec fn fits(self) -> bool {
        match self {
            NodeIdView::Numeric { .. } => true,
            NodeIdView::String { id, .. } => text_fits(id),
        }
    }
}

/// A node id in the shortest form that carries it.
pub open spec fn node_bytes(node: NodeIdView) -> Seq<u8> {
    match node {
        NodeIdView::Numeric { namespace, id } => if namespace == 0 && id < 256 {
            seq![0x00u8] + seq![id as u8]
        } else if namespace < 256 && id < 65_536 {
            seq![0x01u8] + (seq![namespace as u8] + u16_bytes(id as u16))
        } else {
            seq![0x02u8] + (u16_bytes(namespace) + u32_bytes(id))
        },
        NodeIdView::String { namespace, id } => seq![0x03u8] + (u16_bytes(namespace)
            + string_bytes(Some(id))),
    }
}

/// A node id as OPC UA writes it.
pub open spec fn node_text(node: NodeIdView) -> Seq<char> {
    match node {
        NodeIdView::Numeric { namespace, id } => if namespace == 0 {
            "i="@ + decimal(id as nat)
        } else {
            "ns="@ + decimal(namespace as nat) + ";i="@ + decimal(id as nat)
        },
        NodeIdView::String { namespace, id } => "ns="@ + decimal(namespace as nat) + ";s="@ + id,
    }
}

/// What a text without its namespace names.
pub open spec fn parsed_id(namespace: u16, text: Seq<char>) -> Option<NodeIdView> {
    if begins_with(text, "i="@) {
        match parsed_number(text.skip(2), u32::MAX as nat) {
            Some(id) => Some(NodeIdView::Numeric { namespace, id: id as u32 }),
            None => None,
        }
    } else if begins_with(text, "s="@) {
        Some(NodeIdView::String { namespace, id: text.skip(2) })
    } else {
        None
    }
}

/// What a text names: a namespace up to the first semicolon, zero where
/// the text gives none, then a number or a name.
pub open spec fn parsed_node(text: Seq<char>) -> Option<NodeIdView> {
    if begins_with(text, "ns="@) {
        let end = first_place(text, ';', 3);
        if end < text.len() {
            match parsed_number(text.subrange(3, end), u16::MAX as nat) {
                Some(namespace) => parsed_id(namespace as u16, text.skip(end + 1)),
                None => None,
            }
        } else {
            None
        }
    } else {
        parsed_id(0, text)
    }
}

/// That `text` names no node.
pub open spec fn not_a_node(text: Seq<char>) -> Failure {
    permanent(debug_text(text) + " is not ns=<n>;s=<name> or ns=<n>;i=<n>"@)
}

impl Clone for NodeId {
    fn clone(&self) -> (copy: Self)
        ensures
            copy@ == self@,
    {
        match self {
            NodeId::Numeric { namespace, id } => NodeId::Numeric {
                namespace: *namespace,
                id: *id,
            },
            NodeId::String { namespace, id } => NodeId::String {
                namespace: *namespace,
                id: id.clone(),
            },
        }
    }
}

impl NodeId {
    #[must_use]
    pub fn numeric(namespace: u16, id: u32) -> (node: Self)
        ensures
            node@ == (NodeIdView::Numeric { namespace, id }),
    {
        NodeId::Numeric { namespace, id }
    }

    #[must_use]
    pub fn string(namespace: u16, id: &str) -> (node: Self)
        ensures
            node@ == (NodeIdView::String { namespace, id: id@ }),
    {
        NodeId::String { namespace, id: id.to_string() }
    }

    /// Whether both name the same node.
    #[must_use]
    pub fn same(&self, other: &NodeId) -> (same: bool)
        ensures
            same == (self@ == other@),
    {
        match (self, other) {
            (
                NodeId::Numeric { namespace, id },
                NodeId::Numeric { namespace: other_namespace, id: other_id },
            ) => *namespace == *other_namespace && *id == *other_id,
            (
                NodeId::String { namespace, id },
                NodeId::String { namespace: other_namespace, id: other_id },
            ) => *namespace == *other_namespace && same_text(id.as_str(), other_id.as_str()),
            _ => false,
        }
    }

    /// `ns=2;s=Orders`, `ns=1;i=5` or `i=2253`, as OPC UA writes them.
    ///
    /// # Errors
    /// Where the text is not one of those.
    pub fn parse(text: &str) -> (result: Result<Self>)
        ensures
            match parsed_node(text@) {
                Some(node) => result matches Ok(parsed) && parsed@ == node,
                None => result matches Err(error) && error@ == not_a_node(text@),
            },
    {
        proof {
            reveal_strlit("ns=");
        }
        let characters = characters(text);
        assert(text@.skip(0) =~= text@);
        if !starts_with(&characters, 0, "ns=") {
            return Self::parse_id(text, &characters, 0, 0);
        }
        let end = find(&characters, ';', 3);
        if end == characters.len() {
            return Err(Self::unreadable(text));
        }
        match parse_number(&characters, 3, end, 0xffff) {
            Some(namespace) => Self::parse_id(text, &characters, end + 1, namespace as u16),
            None => Err(Self::unreadable(text)),
        }
    }

    /// What `text` from `from` on names in `namespace`.
    fn parse_id(text: &str, characters: &Vec<char>, from: usize, namespace: u16) -> (result:
        Result<Self>)
        requires
            characters@ == text@,
            from <= text@.len(),
        ensures
            match parsed_id(namespace, text@.skip(from as int)) {
                Some(node) => result matches Ok(parsed) && parsed@ == node,
                None => result matches Err(error) && error@ == not_a_node(text@),
            },
    {
        proof {
            reveal_strlit("i=");
            reveal_strlit("s=");
        }
        let ghost rest = text@.skip(from as int);
        let length: usize = characters.len();
        if starts_with(characters, from, "i=") {
            assert(rest.skip(2) =~= text@.subrange(from + 2, length as int));
            match parse_number(characters, from + 2, length, 0xffff_ffff) {
                Some(id) => Ok(NodeId::numeric(namespace, id)),
                None => Err(Self::unreadable(text)),
            }
        } else if starts_with(characters, from, "s=") {
            assert(rest.skip(2) =~= text@.subrange(from + 2, length as int));
            Ok(NodeId::string(namespace, text.substring_char(from + 2, length)))
        } else {
            Err(Self::unreadable(text))
        }
    }

    /// That `text` names no node.
    fn unreadable(text: &str) -> (error: TransportError)
        ensures
            error@ == not_a_node(text@),
    {
        let mut message = quoted(text);
        message.append(" is not ns=<n>;s=<name> or ns=<n>;i=<n>");
        TransportError::permanent(message)
    }

    /// This node id as OPC UA writes it: `i=2253`, `ns=1;i=5` or
    /// `ns=2;s=Orders`.
    #[must_use]
    pub fn to_string(&self) -> (text: String)
        ensures
            text@ == node_text(self@),
    {
        match self {
            NodeId::Numeric { namespace, id } => {
                if *namespace == 0 {
                    let mut text = "i=".to_string();
                    text.append(decimal_text(*id as u64).as_str());
                    text
                } else {
                    let mut text = "ns=".to_string();
                    text.append(decimal_text(*namespace as u64).as_str());
                    text.append(";i=");
                    text.append(decimal_text(*id as u64).as_str());
                    text
                }
            },
            NodeId::String { namespace, id } => {
                let mut text = "ns=".to_string();
                text.append(decimal_text(*namespace as u64).as_str());
                text.append(";s=");
                text.append(id.as_str());
                text
            },
        }
    }

    /// Append this node id in the shortest form that carries it.
    pub fn put(&self, out: &mut Vec<u8>)
        ensures
            final(out)@ == old(out)@ + node_bytes(self@),
    {
        broadcast use lemma_join;

        match self {
            NodeId::Numeric { namespace, id } => {
                if *namespace == 0 && *id < 256 {
                    out.byte(0x00).byte(*id as u8);
                } else if *namespace < 256 && *id < 65_536 {
                    out.byte(0x01).byte(*namespace as u8).u16_le(*id as u16);
                } else {
                    out.byte(0x02).u16_le(*namespace).u32_le(*id);
                }
            },
            NodeId::String { namespace, id } => {
                out.byte(0x03).u16_le(*namespace).string(Some(id.as_str()));
            },
        }
    }
}

/// What is printed is parsed back, whatever the node.
pub proof fn law_node_text_parses_back(node: NodeIdView)
    ensures
        parsed_node(node_text(node)) == Some(node),
{
    reveal_strlit("ns=");
    reveal_strlit("i=");
    reveal_strlit("s=");
    reveal_strlit(";i=");
    reveal_strlit(";s=");
    let text = node_text(node);
    match node {
        NodeIdView::Numeric { namespace, id } => {
            law_decimal_reads_back(id as nat, u32::MAX as nat);
            if namespace == 0 {
                assert(text[0] == 'i' && "ns="@[0] == 'n');
                assert(!begins_with(text, "ns="@)) by {
                    assert(text.take(3)[0] == 'i');
                }
                assert(text.take(2) =~= "i="@);
                assert(text.skip(2) =~= decimal(id as nat));
            } else {
                lemma_namespace(namespace, ";i="@ + decimal(id as nat), text);
                let rest = text.skip(4 + decimal(namespace as nat).len() as int);
                assert(rest =~= "i="@ + decimal(id as nat));
                assert(rest.take(2) =~= "i="@);
                assert(rest.skip(2) =~= decimal(id as nat));
            }
        },
        NodeIdView::String { namespace, id } => {
            lemma_namespace(namespace, ";s="@ + id, text);
            let rest = text.skip(4 + decimal(namespace as nat).len() as int);
            assert(rest =~= "s="@ + id);
            assert(rest.take(2) =~= "s="@);
            assert(!begins_with(rest, "i="@)) by {
                assert(rest.take(2)[0] == 's' && "i="@[0] == 'i');
            }
            assert(rest.skip(2) =~= id);
        },
    }
}

/// The namespace of a printed node id is found and read.
proof fn lemma_namespace(namespace: u16, rest: Seq<char>, text: Seq<char>)
    requires
        rest.len() > 0,
        rest[0] == ';',
        text =~= "ns="@ + decimal(namespace as nat) + rest,
    ensures
        begins_with(text, "ns="@),
        first_place(text, ';', 3) == 3 + decimal(namespace as nat).len(),
        parsed_number(
            text.subrange(3, 3 + decimal(namespace as nat).len() as int),
            u16::MAX as nat,
        ) == Some(namespace as nat),
{
    reveal_strlit("ns=");
    let digits = decimal(namespace as nat);
    lemma_decimal(namespace as nat);
    law_decimal_reads_back(namespace as nat, u16::MAX as nat);
    assert(text.take(3) =~= "ns="@);
    assert(text.subrange(3, 3 + digits.len() as int) =~= digits);
    assert forall|i: int| 3 <= i < 3 + digits.len() implies #[trigger] text[i] != ';' by {
        assert(is_digit(digits[i - 3]));
    }
    lemma_first_place(text, ';', 3, 3 + digits.len() as int);
}

/// What is written is read back, and nothing behind it is touched. Left
/// out is a name too long for its length field.
pub broadcast proof fn law_node_id_reads_back(node: NodeIdView, rest: Seq<u8>)
    requires
        node.fits(),
    ensures
        #[trigger] node_id(node_bytes(node) + rest) == Parsed::Read(node, rest),
{
    broadcast use {
        lemma_join,
        law_byte_reads_back,
        law_u16_reads_back,
        law_u32_reads_back,
        crate::wire::law_string_reads_back,
    };

    assert(0x00u8 & 0x3f == 0x00 && 0x01u8 & 0x3f == 0x01 && 0x02u8 & 0x3f == 0x02 && 0x03u8 & 0x3f
        == 0x03) by (bit_vector);
}

/// No bytes that read as a numeric node id are fewer than the form it is
/// written in takes.
pub proof fn law_numeric_form_is_shortest(node: NodeIdView, bytes: Seq<u8>, rest: Seq<u8>)
    requires
        node is Numeric,
        node_id(bytes) == Parsed::Read(node, rest),
    ensures
        node_bytes(node).len() + rest.len() <= bytes.len(),
{
    broadcast use lemma_le_bytes_len;

}

/// A numeric node id is two bytes where its namespace is zero and its number
/// one byte, four where the namespace is one byte and the number two, and
/// seven else; a name stands behind its namespace.
pub proof fn law_node_takes_one_of_four_forms(namespace: u16, id: u32, name: Seq<char>)
    ensures
        node_bytes(NodeIdView::Numeric { namespace, id }) == if namespace == 0 && id <= 255 {
            seq![0u8, id as u8]
        } else if namespace <= 255 && id <= 65_535 {
            seq![1u8, namespace as u8, (id % 256) as u8, (id / 256) as u8]
        } else {
            seq![2u8, (namespace % 256) as u8, (namespace / 256) as u8] + u32_bytes(id)
        },
        node_bytes(NodeIdView::String { namespace, id: name }) == seq![
            3u8,
            (namespace % 256) as u8,
            (namespace / 256) as u8,
        ] + string_bytes(Some(name)),
{
    law_least_significant_byte_is_first(namespace, 0, 0);
    law_least_significant_byte_is_first((id % 65_536) as u16, 0, 0);
    assert(node_bytes(NodeIdView::Numeric { namespace, id }) =~= if namespace == 0 && id <= 255 {
        seq![0u8, id as u8]
    } else if namespace <= 255 && id <= 65_535 {
        seq![1u8, namespace as u8, (id % 256) as u8, (id / 256) as u8]
    } else {
        seq![2u8, (namespace % 256) as u8, (namespace / 256) as u8] + u32_bytes(id)
    });
    assert(node_bytes(NodeIdView::String { namespace, id: name }) =~= seq![
        3u8,
        (namespace % 256) as u8,
        (namespace / 256) as u8,
    ] + string_bytes(Some(name)));
}

/// A node id is read in any of its forms, whatever the two high bits of its
/// first byte are: a number in the three numeric ones, a name in the fourth;
/// a GUID and opaque bytes are read as the null node, and there is no other
/// form. Left out are names and bytes too long for their length field.
pub proof fn law_any_form_is_read(
    first: u8,
    narrow: (u8, u8),
    wide: (u16, u32),
    name: Option<Seq<char>>,
    guid: Seq<u8>,
    opaque: Option<Seq<u8>>,
    rest: Seq<u8>,
)
    requires
        name matches Some(name) ==> text_fits(name),
        guid.len() == 16,
        opaque matches Some(opaque) ==> opaque.len() <= i32::MAX,
    ensures
        first & 0x3f == 0 ==> node_id(seq![first] + (seq![narrow.0] + rest)) == Parsed::Read(
            NodeIdView::Numeric { namespace: 0, id: narrow.0 as u32 },
            rest,
        ),
        first & 0x3f == 1 ==> node_id(
            seq![first] + (seq![narrow.1] + (u16_bytes(wide.0) + rest)),
        ) == Parsed::Read(
            NodeIdView::Numeric { namespace: narrow.1 as u16, id: wide.0 as u32 },
            rest,
        ),
        first & 0x3f == 2 ==> node_id(
            seq![first] + (u16_bytes(wide.0) + (u32_bytes(wide.1) + rest)),
        ) == Parsed::Read(NodeIdView::Numeric { namespace: wide.0, id: wide.1 }, rest),
        first & 0x3f == 3 ==> node_id(
            seq![first] + (u16_bytes(wide.0) + (string_bytes(name) + rest)),
        ) == Parsed::Read(
            NodeIdView::String {
                namespace: wide.0,
                id: match name {
                    Some(name) => name,
                    None => Seq::empty(),
                },
            },
            rest,
        ),
        first & 0x3f == 4 ==> node_id(
            seq![first] + (u16_bytes(wide.0) + (guid + rest)),
        ) == Parsed::Read(NodeIdView::Numeric { namespace: 0, id: 0 }, rest),
        first & 0x3f == 5 ==> node_id(
            seq![first] + (u16_bytes(wide.0) + (crate::wire::byte_string_bytes(opaque) + rest)),
        ) == Parsed::Read(NodeIdView::Numeric { namespace: 0, id: 0 }, rest),
        first & 0x3f > 5 ==> node_id(seq![first] + rest).refused(
            "a node id of form 0x"@ + crate::text::hex((first & 0x3f) as nat, 2),
        ),
        node_id(Seq::empty()) is Failed,
{
    broadcast use {
        law_byte_reads_back,
        law_u16_reads_back,
        law_u32_reads_back,
        crate::wire::law_string_reads_back,
        crate::wire::law_byte_string_reads_back,
        crate::codec::lemma_take_front,
    };

}

/// A node id is printed as its namespace, unless that is zero and it has a
/// number, and its number or name.
pub proof fn law_node_is_printed_with_its_namespace(namespace: u16, id: u32, name: Seq<char>)
    ensures
        namespace > 0 ==> node_text(NodeIdView::Numeric { namespace, id }) == "ns="@ + decimal(
            namespace as nat,
        ) + ";i="@ + decimal(id as nat),
        node_text(NodeIdView::Numeric { namespace: 0, id }) == "i="@ + decimal(id as nat),
        node_text(NodeIdView::String { namespace, id: name }) == "ns="@ + decimal(
            namespace as nat,
        ) + ";s="@ + name,
{
}

/// What a text behind a namespace names.
proof fn lemma_named(namespace: u16, text: Seq<char>)
    ensures
        parsed_id(namespace, "i="@ + text) == match parsed_number(text, u32::MAX as nat) {
            Some(id) => Some(NodeIdView::Numeric { namespace, id: id as u32 }),
            None => None,
        },
        parsed_id(namespace, "s="@ + text) == Some(NodeIdView::String { namespace, id: text }),
{
    reveal_strlit("i=");
    reveal_strlit("s=");
    let number = "i="@ + text;
    let name = "s="@ + text;
    assert(number.take(2) =~= "i="@);
    assert(number.skip(2) =~= text);
    assert(name.take(2) =~= "s="@);
    assert(name.skip(2) =~= text);
    assert(name.take(2)[0] == 's' && "i="@[0] == 'i');
}

/// A node id may be written with any namespace, zero too, and however its
/// numbers are: it names a node exactly where the namespace is a number of two
/// bytes, and behind it stands a number of four or any name. Left out are
/// namespaces with a semicolon in them, which ends one.
pub proof fn law_node_is_parsed_with_any_namespace(namespace: Seq<char>, text: Seq<char>)
    requires
        !namespace.contains(';'),
    ensures
        parsed_node("ns="@ + namespace + ";i="@ + text) == match (
            parsed_number(namespace, 65_535),
            parsed_number(text, 0xffff_ffff),
        ) {
            (Some(n), Some(id)) => Some(
                NodeIdView::Numeric { namespace: n as u16, id: id as u32 },
            ),
            _ => None,
        },
        parsed_node("ns="@ + namespace + ";s="@ + text) == match parsed_number(namespace, 65_535) {
            Some(n) => Some(NodeIdView::String { namespace: n as u16, id: text }),
            None => None,
        },
{
    reveal_strlit("ns=");
    reveal_strlit(";i=");
    reveal_strlit(";s=");
    reveal_strlit("i=");
    reveal_strlit("s=");
    let number = "ns="@ + namespace + ";i="@ + text;
    let name = "ns="@ + namespace + ";s="@ + text;
    let end = 3 + namespace.len() as int;
    assert forall|i: int| 3 <= i < end implies #[trigger] number[i] != ';' by {
        assert(number[i] == namespace[i - 3]);
        assert(namespace.contains(namespace[i - 3]));
    }
    assert forall|i: int| 3 <= i < end implies #[trigger] name[i] != ';' by {
        assert(name[i] == namespace[i - 3]);
        assert(namespace.contains(namespace[i - 3]));
    }
    lemma_first_place(number, ';', 3, end);
    lemma_first_place(name, ';', 3, end);
    assert(number.take(3) =~= "ns="@);
    assert(name.take(3) =~= "ns="@);
    assert(number.subrange(3, end) =~= namespace);
    assert(name.subrange(3, end) =~= namespace);
    assert(number.skip(end + 1) =~= "i="@ + text);
    assert(name.skip(end + 1) =~= "s="@ + text);
    if let Some(n) = parsed_number(namespace, 65_535) {
        lemma_named(n as u16, text);
    }
}

/// Any namespace and any number written out in decimal name the node with
/// both, zero included.
pub proof fn law_written_out_node_is_parsed(namespace: u16, id: u32, name: Seq<char>)
    ensures
        parsed_node("ns="@ + decimal(namespace as nat) + ";i="@ + decimal(id as nat)) == Some(
            NodeIdView::Numeric { namespace, id },
        ),
        parsed_node("ns="@ + decimal(namespace as nat) + ";s="@ + name) == Some(
            NodeIdView::String { namespace, id: name },
        ),
{
    let digits = decimal(namespace as nat);
    lemma_decimal(namespace as nat);
    assert(!digits.contains(';')) by {
        if digits.contains(';') {
            let i = choose|i: int| 0 <= i < digits.len() && digits[i] == ';';
            assert(is_digit(digits[i]));
        }
    }
    law_decimal_reads_back(namespace as nat, 65_535);
    law_decimal_reads_back(id as nat, 0xffff_ffff);
    law_node_is_parsed_with_any_namespace(digits, decimal(id as nat));
    law_node_is_parsed_with_any_namespace(digits, name);
}

/// A node id without a namespace is one of namespace zero.
pub proof fn law_node_without_a_namespace_is_in_zero(text: Seq<char>)
    ensures
        parsed_node("i="@ + text) == match parsed_number(text, 0xffff_ffff) {
            Some(id) => Some(NodeIdView::Numeric { namespace: 0, id: id as u32 }),
            None => None,
        },
        parsed_node("s="@ + text) == Some(NodeIdView::String { namespace: 0, id: text }),
{
    reveal_strlit("ns=");
    reveal_strlit("i=");
    reveal_strlit("s=");
    lemma_named(0, text);
    let number = "i="@ + text;
    let name = "s="@ + text;
    if begins_with(number, "ns="@) {
        assert(number.take(3)[0] == number[0]);
    }
    if begins_with(name, "ns="@) {
        assert(name.take(3)[0] == name[0]);
    }
}

/// A text that does not open with a namespace, a number or a name names no
/// node, and neither does one with a namespace that nothing ends, or behind
/// which stands neither a number nor a name.
pub proof fn law_other_text_names_no_node(text: Seq<char>, namespace: Seq<char>)
    requires
        !begins_with(text, "i="@),
        !begins_with(text, "s="@),
        !namespace.contains(';'),
    ensures
        !begins_with(text, "ns="@) ==> parsed_node(text) is None,
        parsed_node("ns="@ + namespace) is None,
        parsed_node("ns="@ + namespace + ";"@ + text) is None,
{
    reveal_strlit("ns=");
    reveal_strlit(";");
    let open = "ns="@ + namespace;
    law_first_place_is_the_first(open, ';', 3);
    let place = first_place(open, ';', 3);
    if place < open.len() {
        assert(open[place] == namespace[place - 3]);
        assert(namespace.contains(namespace[place - 3]));
    }
    let ended = "ns="@ + namespace + ";"@ + text;
    let end = 3 + namespace.len() as int;
    assert forall|i: int| 3 <= i < end implies #[trigger] ended[i] != ';' by {
        assert(ended[i] == namespace[i - 3]);
        assert(namespace.contains(namespace[i - 3]));
    }
    lemma_first_place(ended, ';', 3, end);
    assert(open.take(3) =~= "ns="@);
    assert(ended.take(3) =~= "ns="@);
    assert(ended.skip(end + 1) =~= text);
}

/// A text that names no node is refused with the forms that do, quoted as it
/// was given, and trying again will not mend it.
pub proof fn law_refusal_quotes_the_text(text: Seq<char>)
    ensures
        not_a_node(text).message == debug_text(text) + " is not ns=<n>;s=<name> or ns=<n>;i=<n>"@,
        !not_a_node(text).retryable,
{
}

} // verus!
