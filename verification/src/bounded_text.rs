//! The fixed-capacity text buffers of `heapless` that the firmware formats
//! into: what each holds is named by its UTF-8 bytes, and each operation the
//! library uses is stated over those bytes as `heapless::String` implements it
//! (a write that would pass the capacity changes nothing and fails).

use vstd::prelude::*;
use vstd::string::StringSliceAdditionalSpecFns;

verus! {

#[verifier::external_type_specification]
#[verifier::external_body]
pub struct ExHeaplessString<const N: usize>(heapless::String<N>);

/// The bytes held by a 4096-byte `heapless::String`.
pub uninterp spec fn text4096_bytes(s: heapless::String<4096>) -> Seq<u8>;

/// The bytes held by a 256-byte `heapless::String`.
pub uninterp spec fn text256_bytes(s: heapless::String<256>) -> Seq<u8>;

/// The bytes held by a 128-byte `heapless::String`.
pub uninterp spec fn text128_bytes(s: heapless::String<128>) -> Seq<u8>;

/// The bytes held by a 64-byte `heapless::String`.
pub uninterp spec fn text64_bytes(s: heapless::String<64>) -> Seq<u8>;

/// The bytes held by a 4-byte `heapless::String`.
pub uninterp spec fn text4_bytes(s: heapless::String<4>) -> Seq<u8>;

/// `heapless::String::<4096>::new`: an empty string.
#[verifier::external_body]
pub(crate) fn text4096_new() -> (s: heapless::String<4096>)
    ensures
        text4096_bytes(s) == Seq::<u8>::empty(),
{
    heapless::String::new()
}

/// `heapless::String::<4096>::push_str`: appends all of `t` when it fits in
/// the capacity, else fails and changes nothing.
#[verifier::external_body]
pub(crate) fn text4096_push_str(s: &mut heapless::String<4096>, t: &str) -> (ok: bool)
    ensures
        ok == (text4096_bytes(*old(s)).len() + t.spec_bytes().len() <= 4096),
        text4096_bytes(*final(s)) == if ok {
            text4096_bytes(*old(s)) + t.spec_bytes()
        } else {
            text4096_bytes(*old(s))
        },
{
    s.push_str(t).is_ok()
}

/// `heapless::String::<256>::new`: an empty string.
#[verifier::external_body]
pub(crate) fn text256_new() -> (s: heapless::String<256>)
    ensures
        text256_bytes(s) == Seq::<u8>::empty(),
{
    heapless::String::new()
}

/// `heapless::String::<256>::push_str`: appends all of `t` when it fits in the
/// capacity, else fails and changes nothing.
#[verifier::external_body]
pub(crate) fn text256_push_str(s: &mut heapless::String<256>, t: &str) -> (ok: bool)
    ensures
        ok == (text256_bytes(*old(s)).len() + t.spec_bytes().len() <= 256),
        text256_bytes(*final(s)) == if ok {
            text256_bytes(*old(s)) + t.spec_bytes()
        } else {
            text256_bytes(*old(s))
        },
{
    s.push_str(t).is_ok()
}

/// `heapless::String::<256>::as_str`: the held bytes as a string slice.
#[verifier::external_body]
pub(crate) fn text256_as_str(s: &heapless::String<256>) -> (t: &str)
    ensures
        t.spec_bytes() == text256_bytes(*s),
{
    s.as_str()
}

/// `heapless::String::<128>::new`: an empty string.
#[verifier::external_body]
pub(crate) fn text128_new() -> (s: heapless::String<128>)
    ensures
        text128_bytes(s) == Seq::<u8>::empty(),
{
    heapless::String::new()
}

/// `heapless::String::<128>::push_str`: appends all of `t` when it fits in the
/// capacity, else fails and changes nothing.
#[verifier::external_body]
pub(crate) fn text128_push_str(s: &mut heapless::String<128>, t: &str) -> (ok: bool)
    ensures
        ok == (text128_bytes(*old(s)).len() + t.spec_bytes().len() <= 128),
        text128_bytes(*final(s)) == if ok {
            text128_bytes(*old(s)) + t.spec_bytes()
        } else {
            text128_bytes(*old(s))
        },
{
    s.push_str(t).is_ok()
}

/// `heapless::String::<64>::new`: an empty string.
#[verifier::external_body]
pub(crate) fn text64_new() -> (s: heapless::String<64>)
    ensures
        text64_bytes(s) == Seq::<u8>::empty(),
{
    heapless::String::new()
}

/// `heapless::String::<64>::push_str`: appends all of `t` when it fits in the
/// capacity, else fails and changes nothing.
#[verifier::external_body]
pub(crate) fn text64_push_str(s: &mut heapless::String<64>, t: &str) -> (ok: bool)
    ensures
        ok == (text64_bytes(*old(s)).len() + t.spec_bytes().len() <= 64),
        text64_bytes(*final(s)) == if ok {
            text64_bytes(*old(s)) + t.spec_bytes()
        } else {
            text64_bytes(*old(s))
        },
{
    s.push_str(t).is_ok()
}

/// `heapless::String::<64>::as_str`: the held bytes as a string slice.
#[verifier::external_body]
pub(crate) fn text64_as_str(s: &heapless::String<64>) -> (t: &str)
    ensures
        t.spec_bytes() == text64_bytes(*s),
{
    s.as_str()
}

/// `heapless::String::<4>::new`: an empty string.
#[verifier::external_body]
pub(crate) fn text4_new() -> (s: heapless::String<4>)
    ensures
        text4_bytes(s) == Seq::<u8>::empty(),
{
    heapless::String::new()
}

/// `heapless::String::<4>::push_str`: appends all of `t` when it fits in the
/// capacity, else fails and changes nothing.
#[verifier::external_body]
pub(crate) fn text4_push_str(s: &mut heapless::String<4>, t: &str) -> (ok: bool)
    ensures
        ok == (text4_bytes(*old(s)).len() + t.spec_bytes().len() <= 4),
        text4_bytes(*final(s)) == if ok {
            text4_bytes(*old(s)) + t.spec_bytes()
        } else {
            text4_bytes(*old(s))
        },
{
    s.push_str(t).is_ok()
}

/// `heapless::String::clone`: a copy of the string. The contract states
/// nothing of the copy's bytes (no name for them spans every capacity); it is
/// here so that types holding such a string can derive `Clone`.
pub assume_specification<const N: usize>[ <heapless::String<N> as Clone>::clone ](
    s: &heapless::String<N>,
) -> heapless::String<N>;

} // verus!
