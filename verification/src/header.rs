//! The fixed-size control header that precedes every payload.
//!
//! Byte 0 holds the kind of the transfer, byte 1 the length of the payload.
//! In the header of a file the remaining bytes hold the file's name in UTF-8,
//! padded with zero bytes; in the header of a message they are unused.

use vstd::prelude::*;
use vstd::string::*;
use vstd::utf8::*;
use crate::error::TransferError;
use crate::text::text_of_bytes;

verus! {

/// Number of bytes in a header block.
pub const HEADER_SIZE: usize = 1024;

/// Number of bytes of a header block that hold the file name.
pub const NAME_CAPACITY: usize = 1022;

/// Largest payload that the one-byte length field can announce.
pub const MAX_PAYLOAD: usize = 255;

/// Tag of a header that announces a text message.
pub const KIND_MESSAGE: u8 = 1;

/// Tag of a header that announces a file.
pub const KIND_FILE: u8 = 2;

/// The name given to a file whose header does not hold a readable name.
pub const FALLBACK_NAME: &'static str = "sus_file";

/// What a header announces.
#[derive(Clone, Copy, Debug, PartialEq, Eq, Structural)]
pub enum TransferKind {
    Message,
    File,
}

impl TransferKind {
    /// The tag byte that stands for this kind on the wire.
    pub open spec fn tag(self) -> u8 {
        match self {
            TransferKind::Message => KIND_MESSAGE,
            TransferKind::File => KIND_FILE,
        }
    }

    /// The kind that a tag byte stands for, if it stands for one.
    pub open spec fn of_tag(tag: u8) -> Option<TransferKind> {
        if tag == KIND_MESSAGE {
            Some(TransferKind::Message)
        } else if tag == KIND_FILE {
            Some(TransferKind::File)
        } else {
            None
        }
    }

    /// Returns the tag byte of this kind.
    pub fn to_byte(self) -> (tag: u8)
        ensures
            tag == self.tag(),
    {
        match self {
            TransferKind::Message => KIND_MESSAGE,
            TransferKind::File => KIND_FILE,
        }
    }

    /// Reads a tag byte: `Some` for the two known tags, `None` for any other.
    pub fn from_byte(tag: u8) -> (kind: Option<TransferKind>)
        ensures
            kind == TransferKind::of_tag(tag),
    {
        if tag == KIND_MESSAGE {
            Some(TransferKind::Message)
        } else if tag == KIND_FILE {
            Some(TransferKind::File)
        } else {
            None
        }
    }
}

/// A decoded header.
#[derive(Clone, Debug, PartialEq, Eq)]
pub struct Header {
    /// Whether a message or a file follows.
    pub kind: TransferKind,
    /// Number of bytes in the payload that follows.
    pub length: u8,
    /// Name of the file that follows; empty in the header of a message.
    pub name: String,
}

/// The mathematical value of a [`Header`].
pub struct HeaderView {
    pub kind: TransferKind,
    pub length: u8,
    pub name: Seq<char>,
}

impl View for Header {
    type V = HeaderView;

    open spec fn view(&self) -> HeaderView {
        HeaderView { kind: self.kind, length: self.length, name: self.name@ }
    }
}

/// `n` zero bytes.
pub open spec fn zeros(n: nat) -> Seq<u8> {
    Seq::new(n, |i: int| 0u8)
}

/// The bytes of `bytes` that are not zero, in their order.
pub open spec fn without_zeros(bytes: Seq<u8>) -> Seq<u8> {
    bytes.filter(|b: u8| b != 0u8)
}

/// The name field of a file's header: the UTF-8 bytes of `name`, cut off at
/// the field's capacity and padded with zero bytes up to it.
pub open spec fn name_field(name: Seq<char>) -> Seq<u8> {
    let bytes = encode_utf8(name);
    if bytes.len() <= NAME_CAPACITY {
        bytes + zeros((NAME_CAPACITY - bytes.len()) as nat)
    } else {
        bytes.take(NAME_CAPACITY as int)
    }
}

/// The header block for a transfer of the given kind, payload length and
/// file name. The name is written only into the header of a file.
pub open spec fn encode_spec(kind: TransferKind, length: u8, name: Seq<char>) -> Seq<u8> {
    seq![kind.tag(), length] + match kind {
        TransferKind::Message => zeros(NAME_CAPACITY as nat),
        TransferKind::File => name_field(name),
    }
}

/// Byte `i` of a block; a block that ends before `i` reads as zero there.
pub open spec fn byte_at(block: Seq<u8>, i: int) -> u8 {
    if 0 <= i < block.len() {
        block[i]
    } else {
        0u8
    }
}

/// The part of a block that belongs to the name field: what lies between
/// byte 2 and the end of the header.
pub open spec fn name_part(block: Seq<u8>) -> Seq<u8> {
    if block.len() <= 2 {
        Seq::empty()
    } else if block.len() <= HEADER_SIZE {
        block.skip(2)
    } else {
        block.subrange(2, HEADER_SIZE as int)
    }
}

/// The file name that a name field holds: its bytes without the zero bytes,
/// read as UTF-8, or [`FALLBACK_NAME`] where they are not well-formed.
pub open spec fn decode_name(field: Seq<u8>) -> Seq<char> {
    let bytes = without_zeros(field);
    if valid_utf8(bytes) {
        decode_utf8(bytes)
    } else {
        FALLBACK_NAME@
    }
}

/// What a block decodes to. A block whose first byte is no known tag is
/// invalid, and so is an empty block.
pub open spec fn decode_spec(block: Seq<u8>) -> Result<HeaderView, TransferError> {
    match TransferKind::of_tag(byte_at(block, 0)) {
        None => Err(TransferError::InvalidHeader),
        Some(TransferKind::Message) => Ok(
            HeaderView {
                kind: TransferKind::Message,
                length: byte_at(block, 1),
                name: Seq::empty(),
            },
        ),
        Some(TransferKind::File) => Ok(
            HeaderView {
                kind: TransferKind::File,
                length: byte_at(block, 1),
                name: decode_name(name_part(block)),
            },
        ),
    }
}

/// Builds the header block of a transfer: exactly [`HEADER_SIZE`] bytes.
///
/// A name whose UTF-8 form is longer than [`NAME_CAPACITY`] bytes is cut off
/// there. The length is not checked against any payload: that is the
/// caller's part.
pub fn encode(kind: TransferKind, length: u8, name: &str) -> (block: Vec<u8>)
    ensures
        block@ == encode_spec(kind, length, name@),
        block@.len() == HEADER_SIZE,
{
    let mut block: Vec<u8> = Vec::new();
    block.push(kind.to_byte());
    block.push(length);
    let ghost head = seq![kind.tag(), length];
    assert(block@ =~= head);
    match kind {
        TransferKind::Message => {},
        TransferKind::File => {
            let bytes = name.as_bytes();
            let mut i: usize = 0;
            while i < bytes.len() && i < NAME_CAPACITY
                invariant
                    i <= bytes.len(),
                    i <= NAME_CAPACITY,
                    bytes@ == encode_utf8(name@),
                    block@ == head + bytes@.take(i as int),
                decreases bytes.len() - i,
            {
                block.push(bytes[i]);
                assert(bytes@.take(i + 1) =~= bytes@.take(i as int).push(bytes@[i as int]));
                i += 1;
            }
            assert(bytes@.len() <= NAME_CAPACITY ==> bytes@.take(i as int) =~= bytes@);
        },
    }
    let ghost body = block@.skip(2);
    assert(block@ =~= head + body);
    while block.len() < HEADER_SIZE
        invariant
            2 + body.len() <= block@.len() <= HEADER_SIZE,
            block@ == head + body + zeros((block@.len() - 2 - body.len()) as nat),
        decreases HEADER_SIZE - block.len(),
    {
        block.push(0u8);
        assert(block@ =~= head + body + zeros((block@.len() - 2 - body.len()) as nat));
    }
    assert(block@ =~= encode_spec(kind, length, name@));
    block
}

/// Reads the name field of a block.
fn read_name(block: &[u8]) -> (name: String)
    ensures
        name@ == decode_name(name_part(block@)),
{
    let end: usize = if block.len() < HEADER_SIZE {
        block.len()
    } else {
        HEADER_SIZE
    };
    let mut bytes: Vec<u8> = Vec::new();
    let mut i: usize = 2;
    if end <= 2 {
        proof {
            reveal(Seq::filter);
            assert(name_part(block@) =~= Seq::<u8>::empty());
        }
    } else {
        let ghost field = block@.subrange(2, end as int);
        assert(field =~= name_part(block@));
        proof {
            reveal(Seq::filter);
            assert(field.take(0) =~= Seq::<u8>::empty());
        }
        while i < end
            invariant
                2 <= i <= end <= block@.len(),
                field == block@.subrange(2, end as int),
                bytes@ == without_zeros(field.take(i - 2)),
            decreases end - i,
        {
            let b: u8 = block[i];
            proof {
                reveal(Seq::filter);
                let next = field.take(i - 1);
                assert(next.drop_last() =~= field.take(i - 2));
                assert(next.last() == b);
            }
            if b != 0 {
                bytes.push(b);
            }
            i += 1;
        }
        assert(field.take(end - 2) =~= field);
    }
    match text_of_bytes(bytes) {
        Some(text) => text,
        None => String::from_str(FALLBACK_NAME),
    }
}

/// Decodes a header block.
///
/// A block shorter than [`HEADER_SIZE`] is read as if zero bytes followed
/// it, and what lies beyond [`HEADER_SIZE`] is not read. The name is read
/// only from the header of a file: its zero bytes are dropped and the rest
/// is taken as UTF-8, a name that is not well-formed being replaced by
/// [`FALLBACK_NAME`]. The block is invalid exactly when its first byte is
/// neither [`KIND_MESSAGE`] nor [`KIND_FILE`].
pub fn decode(block: &[u8]) -> (header: Result<Header, TransferError>)
    ensures
        match header {
            Ok(h) => decode_spec(block@) == Ok::<HeaderView, TransferError>(h@),
            Err(e) => decode_spec(block@) == Err::<HeaderView, TransferError>(e),
        },
        header is Err <==> TransferKind::of_tag(byte_at(block@, 0)) is None,
{
    let tag: u8 = if block.len() > 0 {
        block[0]
    } else {
        0
    };
    let length: u8 = if block.len() > 1 {
        block[1]
    } else {
        0
    };
    match TransferKind::from_byte(tag) {
        None => Err(TransferError::InvalidHeader),
        Some(TransferKind::Message) => Ok(
            Header { kind: TransferKind::Message, length, name: String::new() },
        ),
        Some(TransferKind::File) => {
            let name = read_name(block);
            Ok(Header { kind: TransferKind::File, length, name })
        },
    }
}

/// Whether a kind and a name can be told from their header: the name fits
/// into the name field, holds no NUL character, and is empty for a message.
pub open spec fn encodable(kind: TransferKind, name: Seq<char>) -> bool {
    &&& encode_utf8(name).len() <= NAME_CAPACITY
    &&& !name.contains('\0')
    &&& kind is Message ==> name.len() == 0
}

/// The UTF-8 form of a character other than NUL holds no zero byte.
proof fn lemma_scalar_bytes_nonzero(c: u32)
    by (bit_vector)
    requires
        c != 0,
        c <= 0x10FFFF,
    ensures
        (c & 0x7F) as u8 != 0 || c > 0x7F,
        0xC0u8 | ((c >> 6) & 0x1F) as u8 != 0,
        0xE0u8 | ((c >> 12) & 0x0F) as u8 != 0,
        0xF0u8 | ((c >> 18) & 0x7) as u8 != 0,
        0x80u8 | (c & 0x3F) as u8 != 0,
        0x80u8 | ((c >> 6) & 0x3F) as u8 != 0,
        0x80u8 | ((c >> 12) & 0x3F) as u8 != 0,
{
}

/// The UTF-8 form of a text without NUL characters holds no zero byte.
pub proof fn lemma_encoded_name_has_no_zero(name: Seq<char>)
    requires
        !name.contains('\0'),
    ensures
        forall|i: int| 0 <= i < encode_utf8(name).len() ==> encode_utf8(name)[i] != 0u8,
    decreases name.len(),
{
    if name.len() > 0 {
        let c = name[0] as u32;
        assert(name.contains(name[0]));
        char_is_scalar(name[0]);
        char_u32_cast(name[0], c);
        char_u32_cast('\0', 0u32);
        assert(c != 0);
        lemma_scalar_bytes_nonzero(c);
        let rest = name.drop_first();
        assert forall|j: int| 0 <= j < rest.len() implies rest[j] != '\0' by {
            assert(name.contains(name[j + 1]));
        }
        assert(!rest.contains('\0'));
        lemma_encoded_name_has_no_zero(rest);
        let first = encode_scalar(c);
        assert(forall|i: int| 0 <= i < first.len() ==> first[i] != 0u8);
        assert(encode_utf8(name) == first + encode_utf8(rest));
    }
}

/// Dropping the zero bytes of a sequence that holds none changes nothing.
proof fn lemma_without_zeros_keeps(bytes: Seq<u8>)
    requires
        forall|i: int| 0 <= i < bytes.len() ==> bytes[i] != 0u8,
    ensures
        without_zeros(bytes) == bytes,
    decreases bytes.len(),
{
    reveal(Seq::filter);
    if bytes.len() > 0 {
        lemma_without_zeros_keeps(bytes.drop_last());
        assert(bytes.drop_last().push(bytes.last()) =~= bytes);
    }
}

/// Dropping the zero bytes of padding leaves nothing.
proof fn lemma_without_zeros_of_zeros(n: nat)
    ensures
        without_zeros(zeros(n)) == Seq::<u8>::empty(),
    decreases n,
{
    reveal(Seq::filter);
    if n > 0 {
        lemma_without_zeros_of_zeros((n - 1) as nat);
        assert(zeros(n).drop_last() =~= zeros((n - 1) as nat));
    }
}

/// The layout of a file's header whose name fits: 1024 bytes, of which the
/// first is the tag of a file, the second the length, the next ones the
/// name in UTF-8, and all that follow zero.
pub proof fn lemma_file_header_layout(length: u8, name: Seq<char>)
    requires
        encode_utf8(name).len() <= NAME_CAPACITY,
    ensures
        ({
            let block = encode_spec(TransferKind::File, length, name);
            let bytes = encode_utf8(name);
            &&& block.len() == HEADER_SIZE
            &&& block[0] == KIND_FILE
            &&& block[1] == length
            &&& block.subrange(2, 2 + bytes.len() as int) == bytes
            &&& forall|i: int| 2 + bytes.len() <= i < HEADER_SIZE ==> block[i] == 0u8
        }),
{
    let block = encode_spec(TransferKind::File, length, name);
    let bytes = encode_utf8(name);
    assert(block.subrange(2, 2 + bytes.len() as int) =~= bytes);
}

/// The layout of a message's header: 1024 bytes, of which the first is the
/// tag of a message, the second the length, and all that follow zero.
pub proof fn lemma_message_header_layout(length: u8, name: Seq<char>)
    ensures
        ({
            let block = encode_spec(TransferKind::Message, length, name);
            &&& block.len() == HEADER_SIZE
            &&& block[0] == KIND_MESSAGE
            &&& block[1] == length
            &&& forall|i: int| 2 <= i < HEADER_SIZE ==> block[i] == 0u8
        }),
{
}

/// Round trip: for every kind, length and name that can be told from their
/// header, decoding the encoded header gives back exactly that kind, that
/// length and that name, the padding removed.
pub proof fn lemma_decode_encode(kind: TransferKind, length: u8, name: Seq<char>)
    requires
        encodable(kind, name),
    ensures
        decode_spec(encode_spec(kind, length, name)) == Ok::<HeaderView, TransferError>(
            HeaderView { kind, length, name },
        ),
{
    let block = encode_spec(kind, length, name);
    assert(block[0] == kind.tag());
    assert(block[1] == length);
    match kind {
        TransferKind::Message => {
            assert(name =~= Seq::<char>::empty());
        },
        TransferKind::File => {
            let bytes = encode_utf8(name);
            let padding = zeros((NAME_CAPACITY - bytes.len()) as nat);
            assert(name_part(block) =~= bytes + padding);
            Seq::filter_distributes_over_add(bytes, padding, |b: u8| b != 0u8);
            lemma_encoded_name_has_no_zero(name);
            lemma_without_zeros_keeps(bytes);
            lemma_without_zeros_of_zeros((NAME_CAPACITY - bytes.len()) as nat);
            assert(without_zeros(name_part(block)) =~= bytes);
            encode_utf8_valid_utf8(name);
            encode_utf8_decode_utf8(name);
        },
    }
}

} // verus!
