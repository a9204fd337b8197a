//! Expansion of packed 4-bit pixels through a 16-colour palette.
use vstd::prelude::*;

verus! {

/// An RGBA colour as the four bytes it occupies in a buffer.
pub open spec fn colour_bytes(e: [u8; 4]) -> Seq<u8> {
    seq![e@[0], e@[1], e@[2], e@[3]]
}

/// The palette index held in the high four bits: the first pixel of a byte.
pub open spec fn high_nibble(b: u8) -> int {
    b as int / 16
}

/// The palette index held in the low four bits: the second pixel of a byte.
pub open spec fn low_nibble(b: u8) -> int {
    b as int % 16
}

/// The RGBA bytes of a packed buffer: two pixels per byte, high nibble first.
pub open spec fn unpacked(pal: Seq<[u8; 4]>, bin: Seq<u8>) -> Seq<u8>
    decreases bin.len(),
{
    if bin.len() == 0 {
        seq![]
    } else {
        let b = bin.last();
        unpacked(pal, bin.drop_last()) + colour_bytes(pal[high_nibble(b)]) + colour_bytes(
            pal[low_nibble(b)],
        )
    }
}

/// Each packed byte becomes eight RGBA bytes.
pub proof fn lemma_unpacked_len(pal: Seq<[u8; 4]>, bin: Seq<u8>)
    ensures
        unpacked(pal, bin).len() == 8 * bin.len(),
    decreases bin.len(),
{
    if bin.len() > 0 {
        lemma_unpacked_len(pal, bin.drop_last());
    }
}

/// A single byte unpacks to its high-nibble colour followed by its
/// low-nibble colour.
pub proof fn lemma_unpacked_byte(pal: Seq<[u8; 4]>, b: u8)
    ensures
        unpacked(pal, seq![b]) == colour_bytes(pal[high_nibble(b)]) + colour_bytes(
            pal[low_nibble(b)],
        ),
{
    assert(seq![b].drop_last() =~= Seq::<u8>::empty());
    assert(unpacked(pal, Seq::<u8>::empty()) == Seq::<u8>::empty());
    assert(Seq::<u8>::empty() + colour_bytes(pal[high_nibble(b)]) =~= colour_bytes(
        pal[high_nibble(b)],
    ));
}

/// Packed byte `i` becomes bytes `8i` to `8i + 7`: its high-nibble colour,
/// then its low-nibble colour.
pub proof fn lemma_unpacked_at(pal: Seq<[u8; 4]>, bin: Seq<u8>, i: int)
    requires
        0 <= i < bin.len(),
    ensures
        unpacked(pal, bin).subrange(8 * i, 8 * i + 8) == colour_bytes(pal[high_nibble(bin[i])])
            + colour_bytes(pal[low_nibble(bin[i])]),
    decreases bin.len(),
{
    let prefix = bin.drop_last();
    lemma_unpacked_len(pal, prefix);
    let b = bin.last();
    let pair = colour_bytes(pal[high_nibble(b)]) + colour_bytes(pal[low_nibble(b)]);
    let whole = unpacked(pal, bin);
    assert(whole =~= unpacked(pal, prefix) + pair);
    if i == bin.len() - 1 {
        assert(whole.subrange(8 * i, 8 * i + 8) =~= pair);
    } else {
        lemma_unpacked_at(pal, prefix, i);
        assert(prefix[i] == bin[i]);
        assert(whole.subrange(8 * i, 8 * i + 8) =~= unpacked(pal, prefix).subrange(8 * i, 8 * i + 8));
    }
}

/// Expands `bin` through `palette` into RGBA bytes.
pub fn unpack_pixels(palette: &[[u8; 4]; 16], bin: &[u8]) -> (out: Vec<u8>)
    requires
        bin@.len() * 8 <= usize::MAX,
    ensures
        out@ == unpacked(palette@, bin@),
        out@.len() == 8 * bin@.len(),
{
    let mut out: Vec<u8> = Vec::with_capacity(bin.len() * 8);
    let mut i: usize = 0;
    while i < bin.len()
        invariant
            i <= bin@.len(),
            out@ == unpacked(palette@, bin@.subrange(0, i as int)),
        decreases bin@.len() - i,
    {
        let byte: u8 = bin[i];
        let first: u8 = (byte >> 4u8) & 0x0F;
        let second: u8 = byte & 0x0F;
        assert(first == byte / 16 && second == byte % 16) by (bit_vector)
            requires
                first == (byte >> 4u8) & 0x0F,
                second == byte & 0x0F,
        ;
        let a: [u8; 4] = palette[first as usize];
        let b: [u8; 4] = palette[second as usize];
        out.push(a[0]);
        out.push(a[1]);
        out.push(a[2]);
        out.push(a[3]);
        out.push(b[0]);
        out.push(b[1]);
        out.push(b[2]);
        out.push(b[3]);
        proof {
            let next = bin@.subrange(0, i + 1);
            assert(next.drop_last() =~= bin@.subrange(0, i as int));
            assert(next.last() == byte);
            assert(out@ =~= unpacked(palette@, next));
        }
        i = i + 1;
    }
    assert(bin@.subrange(0, bin@.len() as int) =~= bin@);
    proof {
        lemma_unpacked_len(palette@, bin@);
    }
    out
}

} // verus!
