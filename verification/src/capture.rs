use std::collections::hash_map::DefaultHasher;
use std::hash::{Hash, Hasher};
use vstd::prelude::*;
use vstd::std_specs::hash::DefaultHasherAdditionalSpecFns;

verus! {

/// Whether every whole pixel of `rgba` has an alpha of zero.
pub open spec fn all_transparent(rgba: Seq<u8>) -> bool {
    forall|i: int| 0 <= i < rgba.len() && i % 4 == 3 ==> #[trigger] rgba[i] == 0
}

/// `rgba` with every pixel opaque.
pub open spec fn opaque(rgba: Seq<u8>) -> Seq<u8> {
    Seq::new(
        rgba.len(),
        |i: int|
            if i % 4 == 3 {
                255
            } else {
                rgba[i]
            },
    )
}

/// The pixels to keep of a captured image: an image that would not show at all
/// is taken to be opaque.
pub open spec fn visible(rgba: Seq<u8>) -> Seq<u8> {
    if all_transparent(rgba) {
        opaque(rgba)
    } else {
        rgba
    }
}

fn is_all_transparent(rgba: &[u8]) -> (r: bool)
    ensures
        r == all_transparent(rgba@),
{
    let n: usize = rgba.len();
    let pixels: usize = n / 4;
    for k in 0..pixels
        invariant
            n == rgba@.len(),
            pixels == n / 4,
            forall|i: int| 0 <= i < 4 * k && i % 4 == 3 ==> #[trigger] rgba@[i] == 0,
    {
        if rgba[4 * k + 3] != 0 {
            assert(rgba@[4 * k + 3] != 0);
            return false;
        }
    }
    true
}

/// Sets every alpha byte to 255 where all of them are zero.
pub fn fix_zero_alpha(rgba: &mut [u8])
    ensures
        final(rgba)@ == visible(old(rgba)@),
{
    if is_all_transparent(rgba) {
        let n: usize = rgba.len();
        let pixels: usize = n / 4;
        for k in 0..pixels
            invariant
                n == rgba@.len() == old(rgba)@.len(),
                pixels == n / 4,
                forall|i: int|
                    0 <= i < rgba@.len() ==> #[trigger] rgba@[i] == (if i < 4 * k && i % 4 == 3 {
                        255
                    } else {
                        old(rgba)@[i]
                    }),
        {
            rgba[4 * k + 3] = 255;
        }
        assert(rgba@ =~= opaque(old(rgba)@));
    }
}

/// What the hash of a slice of bytes is computed from where a machine word has
/// `word_bits` bits.
pub uninterp spec fn slice_hash_input(bytes: Seq<u8>, word_bits: nat) -> Seq<Seq<u8>>;

/// `<[u8] as Hash>::hash` with a `DefaultHasher`: feeds the hasher a sequence of
/// writes that the bytes and the machine determine. The length of the slice goes
/// in as a machine word, in the byte order of the machine that the library is
/// built for, so a hash means something on that kind of machine alone.
#[verifier::external_body]
fn hash_into(bytes: &[u8], state: &mut DefaultHasher)
    ensures
        final(state)@ == old(state)@ + slice_hash_input(bytes@, usize::BITS as nat),
{
    bytes.hash(state);
}

/// The hash by which a clip with the content `bytes` is found again.
pub open spec fn content_hash(bytes: Seq<u8>) -> u64 {
    DefaultHasher::spec_finish(slice_hash_input(bytes, usize::BITS as nat))
}

/// The hash of `bytes`.
pub fn hash_slice(bytes: &[u8]) -> (r: u64)
    ensures
        r == content_hash(bytes@),
{
    let mut state: DefaultHasher = DefaultHasher::new();
    hash_into(bytes, &mut state);
    assert(state@ =~= slice_hash_input(bytes@, usize::BITS as nat));
    state.finish()
}

} // verus!
