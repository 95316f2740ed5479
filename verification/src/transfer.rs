//! What holds of a sender and a receiver together.
//!
//! The laws here follow a transfer from the call that begins it to the
//! action with which the receiver hands its payload out, the datagrams
//! going over unchanged.

use vstd::prelude::*;
use vstd::utf8::*;
use crate::header::{
    decode_spec, encodable, lemma_decode_encode, lemma_file_header_layout, HeaderView,
    TransferKind, HEADER_SIZE, KIND_FILE, MAX_PAYLOAD,
};
use crate::receiver::{fitted, handle_spec, ReceiverActionView, ReceiverStateView};
use crate::sender::{
    final_segment, is_separator, lemma_final_segment_is_a_name, start_spec, SenderActionView,
};

verus! {

/// The header that a transfer begins with, as the receiver reads it.
pub open spec fn announced(kind: TransferKind, name: Seq<char>, payload: Seq<u8>) -> HeaderView {
    HeaderView { kind, length: payload.len() as u8, name }
}

/// A payload of the announced length is handled whole.
proof fn lemma_fitted_whole(payload: Seq<u8>)
    ensures
        fitted(payload, payload.len()) == payload,
{
    assert(fitted(payload, payload.len()) =~= payload);
}

/// A message of at most 255 bytes reaches the user as it was written: the
/// header that the sender builds for it is accepted, and its payload is
/// shown as the very text that was sent, attributed to where it came from.
pub proof fn lemma_message_arrives(message: Seq<char>, source: Seq<char>)
    requires
        encode_utf8(message).len() <= MAX_PAYLOAD,
    ensures
        ({
            let payload = encode_utf8(message);
            let begun = start_spec(TransferKind::Message, Seq::empty(), payload);
            &&& begun matches Ok(first)
            &&& first.1 matches SenderActionView::SendHeader { block }
            &&& decode_spec(block) == Ok::<HeaderView, crate::error::TransferError>(
                announced(TransferKind::Message, Seq::empty(), payload),
            )
            &&& handle_spec(
                announced(TransferKind::Message, Seq::empty(), payload),
                payload,
                source,
            ) == (
                ReceiverStateView::Handle,
                ReceiverActionView::ShowMessage { text: message, source },
            )
        }),
{
    let payload = encode_utf8(message);
    lemma_decode_encode(TransferKind::Message, payload.len() as u8, Seq::empty());
    lemma_fitted_whole(payload);
    encode_utf8_valid_utf8(message);
    encode_utf8_decode_utf8(message);
}

/// The header with which the transfer of a file begins, for every path
/// whose final segment fits into the name field: 1024 bytes, of which the
/// first is the tag of a file, the second the number of bytes of the
/// contents, the next ones the final segment of the path in UTF-8, and all
/// that follow zero. The name in it holds neither slash nor backslash.
pub proof fn lemma_file_is_announced(path: Seq<char>, contents: Seq<u8>)
    requires
        contents.len() <= MAX_PAYLOAD,
        encode_utf8(final_segment(path)).len() <= crate::header::NAME_CAPACITY,
    ensures
        ({
            let name = final_segment(path);
            let bytes = encode_utf8(name);
            let begun = start_spec(TransferKind::File, name, contents);
            &&& begun matches Ok(first)
            &&& first.1 matches SenderActionView::SendHeader { block }
            &&& block.len() == HEADER_SIZE
            &&& block[0] == KIND_FILE
            &&& block[1] == contents.len()
            &&& block.subrange(2, 2 + bytes.len() as int) == bytes
            &&& forall|i: int| 2 + bytes.len() <= i < HEADER_SIZE ==> block[i] == 0u8
            &&& forall|i: int| 0 <= i < name.len() ==> !is_separator(#[trigger] name[i])
        }),
{
    lemma_file_header_layout(contents.len() as u8, final_segment(path));
    lemma_final_segment_is_a_name(path);
}

/// A file of at most 255 bytes reaches the receiver as it was read: the
/// header that the sender builds for it is accepted, and its payload is
/// handed out to be stored under the final segment of the path it was read
/// from, byte for byte.
pub proof fn lemma_file_arrives(path: Seq<char>, contents: Seq<u8>, source: Seq<char>)
    requires
        contents.len() <= MAX_PAYLOAD,
        encodable(TransferKind::File, final_segment(path)),
    ensures
        ({
            let name = final_segment(path);
            let begun = start_spec(TransferKind::File, name, contents);
            &&& begun matches Ok(first)
            &&& first.1 matches SenderActionView::SendHeader { block }
            &&& decode_spec(block) == Ok::<HeaderView, crate::error::TransferError>(
                announced(TransferKind::File, name, contents),
            )
            &&& handle_spec(announced(TransferKind::File, name, contents), contents, source) == (
                ReceiverStateView::Handle,
                ReceiverActionView::StoreFile { name, bytes: contents },
            )
        }),
{
    let name = final_segment(path);
    lemma_decode_encode(TransferKind::File, contents.len() as u8, name);
    lemma_fitted_whole(contents);
}

} // verus!
