//! Trusted interface to the shared byte buffer (`bytes::Bytes`) and to the
//! outbound wire message (`tungstenite::Message`).
//!
//! A `Bytes` value is an immutable, reference-counted byte buffer whose
//! sub-ranges can be taken in O(1) without copying. Verus sees the type as
//! opaque; `bytes_view` names its contents, and each wrapper below states
//! what the one call in its body does to those contents.

use vstd::prelude::*;

use bytes::Bytes;
use tokio_tungstenite::tungstenite::Message;

verus! {

#[verifier::external_type_specification]
#[verifier::external_body]
pub struct ExBytes(Bytes);

#[verifier::external_type_specification]
#[verifier::external_body]
pub struct ExMessage(Message);

/// The byte contents of a shared buffer.
pub uninterp spec fn bytes_view(b: Bytes) -> Seq<u8>;

/// The payload bytes a binary wire message carries.
pub uninterp spec fn message_view(m: Message) -> Seq<u8>;

/// Whether a wire message is binary-framed.
pub uninterp spec fn message_is_binary(m: Message) -> bool;

/// Relies on `Bytes::new`: it returns an empty buffer.
#[verifier::external_body]
pub fn empty_bytes() -> (r: Bytes)
    ensures
        bytes_view(r) == Seq::<u8>::empty(),
{
    Bytes::new()
}

/// Relies on `Bytes::as_ref` (the `Deref` target): it exposes the whole
/// buffer as a plain byte slice.
#[verifier::external_body]
pub fn bytes_as_slice(b: &Bytes) -> (r: &[u8])
    ensures
        r@ == bytes_view(*b),
{
    b.as_ref()
}

/// Relies on `Bytes::slice`: it returns the sub-range `start..end` of the
/// buffer, sharing the same storage; it panics unless
/// `start <= end <= len`.
#[verifier::external_body]
pub fn slice_bytes(b: &Bytes, start: usize, end: usize) -> (r: Bytes)
    requires
        start <= end <= bytes_view(*b).len(),
    ensures
        bytes_view(r) == bytes_view(*b).subrange(start as int, end as int),
{
    b.slice(start..end)
}

/// Relies on `Bytes::clone`: a clone shares the same contents.
#[verifier::external_body]
pub fn clone_bytes(b: &Bytes) -> (r: Bytes)
    ensures
        bytes_view(r) == bytes_view(*b),
{
    b.clone()
}

/// Relies on tungstenite's `Message::Binary`: the variant holds the given
/// bytes, unchanged, as the payload of a binary-framed message.
#[verifier::external_body]
pub fn binary_message(b: Bytes) -> (r: Message)
    ensures
        message_view(r) == bytes_view(b),
        message_is_binary(r),
{
    Message::Binary(b)
}

} // verus!
