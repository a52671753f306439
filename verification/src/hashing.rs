//! What is fed to the hasher of the standard library.

use std::collections::hash_map::DefaultHasher;
use std::hash::Hasher;
use vstd::prelude::*;
use vstd::std_specs::hash::DefaultHasherAdditionalSpecFns;
use vstd::utf8;

verus! {

/// What hashing texts one after the other feeds to the hasher: the bytes of
/// each, and a byte that occurs in no text.
pub open spec fn hashed(texts: Seq<Seq<char>>) -> Seq<Seq<u8>>
    decreases texts.len(),
{
    if texts.len() == 0 {
        Seq::empty()
    } else {
        hashed(texts.drop_last()).push(utf8::encode_utf8(texts.last())).push(seq![0xffu8])
    }
}

/// Feeds a text to the hasher.
pub(crate) fn hash_text(hasher: &mut DefaultHasher, s: &str)
    ensures
        final(hasher)@ == old(hasher)@.push(utf8::encode_utf8(s@)).push(seq![0xffu8]),
{
    hasher.write(s.as_bytes());
    let end: [u8; 1] = [0xff];
    hasher.write(&end);
    assert(end@ =~= seq![0xffu8]);
}

/// The `count` low bytes of a number, the lowest first.
pub open spec fn low_bytes(n: nat, count: nat) -> Seq<u8>
    decreases count,
{
    if count == 0 {
        Seq::empty()
    } else {
        seq![(n % 256) as u8] + low_bytes(n / 256, (count - 1) as nat)
    }
}

/// The bytes of a 64-bit number, the lowest first.
pub open spec fn number_bytes(n: u64) -> Seq<u8> {
    low_bytes(n as nat, 8)
}

/// Feeds a 64-bit number to the hasher.
pub(crate) fn hash_number(hasher: &mut DefaultHasher, n: u64)
    ensures
        final(hasher)@ == old(hasher)@.push(number_bytes(n)),
{
    let mut bytes: Vec<u8> = Vec::new();
    let mut rest: u64 = n;
    let mut i: usize = 0;
    assert(bytes@ + low_bytes(n as nat, 8) =~= low_bytes(n as nat, 8));
    while i < 8
        invariant
            i <= 8,
            bytes@ + low_bytes(rest as nat, (8 - i) as nat) == number_bytes(n),
        decreases 8 - i,
    {
        let ghost before = bytes@;
        let ghost was = rest as nat;
        bytes.push((rest % 256) as u8);
        rest = rest / 256;
        i = i + 1;
        proof {
            let tail = low_bytes(was / 256, (8 - i) as nat);
            assert(low_bytes(was, (8 - i + 1) as nat) == seq![(was % 256) as u8] + tail);
            assert(bytes@ + tail =~= before + (seq![(was % 256) as u8] + tail));
        }
    }
    assert(bytes@ =~= number_bytes(n));
    hasher.write(bytes.as_slice());
}

} // verus!
