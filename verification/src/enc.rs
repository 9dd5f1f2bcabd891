//! The encoding layer: the bridge between character strings and the
//! per-language codepages of the wire format.
//!
//! The two conversions are performed by the `encoding_rs` crate.  Their
//! results are pure functions of the codepage and the input, named here by
//! the uninterpreted functions [`encode_of`] and [`decode_of`]; the rest
//! of the crate reasons about encoded strings through those names alone.

use vstd::prelude::*;
use crate::common::Codepage;

verus! {

/// The bytes that the codepage's encoder produces for a character
/// sequence, unmappable characters replaced by numeric character
/// references.  `cp` is the conventional codepage number of
/// [`Codepage::spec_id`].
pub uninterp spec fn encode_of(cp: int, s: Seq<char>) -> Seq<u8>;

/// The characters that the codepage's decoder produces for a byte
/// sequence, malformed sequences replaced by the replacement character.
pub uninterp spec fn decode_of(cp: int, b: Seq<u8>) -> Seq<char>;

/// The Unicode lowercase form of a character sequence.
pub uninterp spec fn lower_of(s: Seq<char>) -> Seq<char>;

/// Relies on `encoding_rs::Encoding::encode`: complete, non-streaming
/// encoding whose output depends on the chosen encoding and the input
/// characters alone; an empty input gives an empty output.  The encoder
/// handles at most a few bytes per character; the bound on the character
/// count keeps it below the size at which `encode` could panic while
/// computing its buffer size.
#[verifier::external_body]
pub(crate) fn encode_bytes(cp: Codepage, s: &str) -> (r: Vec<u8>)
    requires
        s@.len() < 0x400_0000,
    ensures
        r@ == encode_of(cp.spec_id(), s@),
        s@.len() == 0 ==> r@.len() == 0,
{
    let enc = match cp {
        Codepage::Windows1252 => encoding_rs::WINDOWS_1252,
        Codepage::Windows1250 => encoding_rs::WINDOWS_1250,
        Codepage::EucKr => encoding_rs::EUC_KR,
        Codepage::Big5 => encoding_rs::BIG5,
        Codepage::Gbk => encoding_rs::GBK,
        Codepage::ShiftJis => encoding_rs::SHIFT_JIS,
    };
    let (out, _, _) = enc.encode(s);
    out.into_owned()
}

/// Relies on `encoding_rs::Encoding::decode`: complete, non-streaming
/// decoding whose output depends on the chosen encoding and the input
/// bytes alone; an empty input gives an empty output.  The length bound
/// keeps the input below the size at which `decode` could panic while
/// computing its buffer size.
#[verifier::external_body]
pub(crate) fn decode_bytes(cp: Codepage, b: &[u8]) -> (r: String)
    requires
        b@.len() < 0x1000_0000,
    ensures
        r@ == decode_of(cp.spec_id(), b@),
        b@.len() == 0 ==> r@.len() == 0,
{
    let enc = match cp {
        Codepage::Windows1252 => encoding_rs::WINDOWS_1252,
        Codepage::Windows1250 => encoding_rs::WINDOWS_1250,
        Codepage::EucKr => encoding_rs::EUC_KR,
        Codepage::Big5 => encoding_rs::BIG5,
        Codepage::Gbk => encoding_rs::GBK,
        Codepage::ShiftJis => encoding_rs::SHIFT_JIS,
    };
    let (out, _, _) = enc.decode(b);
    out.into_owned()
}

/// Relies on `str::to_lowercase`: the result depends on the input
/// characters alone; an empty input gives an empty output.
#[verifier::external_body]
pub(crate) fn lowercase(s: &str) -> (r: String)
    ensures
        r@ == lower_of(s@),
        s@.len() == 0 ==> r@.len() == 0,
{
    s.to_lowercase()
}

} // verus!
