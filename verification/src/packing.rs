//! Packing a dithered picture for the 7-colour e-paper display: each pixel becomes the
//! index of its colour in the palette, and two pixels share a byte, the first in the high
//! four bits.
use vstd::prelude::*;

verus! {

/// A colour as red, green and blue.
pub type Rgb = (u8, u8, u8);

/// The first index at or after `i` where `palette` holds `c`, if any.
pub open spec fn index_from(palette: Seq<Rgb>, c: Rgb, i: int) -> Option<int>
    decreases palette.len() - i,
{
    if i < 0 || i >= palette.len() {
        None
    } else if palette[i] == c {
        Some(i)
    } else {
        index_from(palette, c, i + 1)
    }
}

/// The position of the first entry of `palette` equal to `c`, if any.
pub open spec fn palette_index(palette: Seq<Rgb>, c: Rgb) -> Option<int> {
    index_from(palette, c, 0)
}

/// The byte for two palette indices: the first shifted into the high four bits (as a byte,
/// so bits above the eighth are lost) or-ed with the second.
pub open spec fn pack_pair(first: usize, second: usize) -> u8 {
    ((first as u8) << 4u8) | (second as u8)
}

/// Every pixel of a complete pair (a trailing odd pixel does not count) is in the palette.
pub open spec fn pairs_in_palette(pixels: Seq<Rgb>, palette: Seq<Rgb>) -> bool {
    forall|i: int|
        0 <= i < 2 * (pixels.len() / 2) ==> #[trigger] palette_index(palette, pixels[i]) is Some
}

/// The packed picture: one byte per complete pair of pixels.
pub open spec fn packed(pixels: Seq<Rgb>, palette: Seq<Rgb>) -> Seq<u8> {
    Seq::new(
        pixels.len() / 2,
        |k: int|
            pack_pair(
                palette_index(palette, pixels[2 * k]).unwrap() as usize,
                palette_index(palette, pixels[2 * k + 1]).unwrap() as usize,
            ),
    )
}

/// The search from `i` finds the first entry equal to `c` at or after `i`.
pub proof fn lemma_index_from(palette: Seq<Rgb>, c: Rgb, i: int)
    requires
        0 <= i,
    ensures
        match index_from(palette, c, i) {
            Some(j) => i <= j < palette.len() && palette[j] == c && forall|k: int|
                i <= k < j ==> palette[k] != c,
            None => forall|k: int| i <= k < palette.len() ==> palette[k] != c,
        },
    decreases palette.len() - i,
{
    if i < palette.len() && palette[i] != c {
        lemma_index_from(palette, c, i + 1);
    }
}

/// Finds the position of `c` in `palette`.
pub fn find_color(palette: &Vec<Rgb>, c: Rgb) -> (res: Option<usize>)
    ensures
        match res {
            Some(i) => palette_index(palette@, c) == Some(i as int),
            None => palette_index(palette@, c) is None,
        },
{
    let mut i: usize = 0;
    while i < palette.len()
        invariant
            i <= palette@.len(),
            index_from(palette@, c, 0) == index_from(palette@, c, i as int),
        decreases palette@.len() - i,
    {
        let e = palette[i];
        if e.0 == c.0 && e.1 == c.1 && e.2 == c.2 {
            assert(palette@[i as int] == c);
            return Some(i);
        }
        i = i + 1;
    }
    None
}

/// Packs the pixels of a dithered picture into bytes of two palette indices each, the
/// first pixel of a pair in the high four bits. A trailing odd pixel is dropped.
pub fn pack_pixels(pixels: &Vec<Rgb>, palette: &Vec<Rgb>) -> (out: Vec<u8>)
    requires
        pairs_in_palette(pixels@, palette@),
    ensures
        out@ == packed(pixels@, palette@),
{
    let n = pixels.len();
    let pairs = n / 2;
    let mut out: Vec<u8> = Vec::new();
    let mut k: usize = 0;
    while k < pairs
        invariant
            n == pixels@.len(),
            pairs == n / 2,
            k <= pairs,
            pairs_in_palette(pixels@, palette@),
            out@ == packed(pixels@, palette@).take(k as int),
        decreases pairs - k,
    {
        assert(palette_index(palette@, pixels@[2 * k as int]) is Some);
        assert(palette_index(palette@, pixels@[2 * k + 1]) is Some);
        let first = find_color(palette, pixels[2 * k]);
        let second = find_color(palette, pixels[2 * k + 1]);
        let i0 = match first {
            Some(i) => i,
            None => 0,
        };
        let i1 = match second {
            Some(i) => i,
            None => 0,
        };
        let byte: u8 = ((#[verifier::truncate] (i0 as u8)) << 4u8) | (#[verifier::truncate] (i1 as u8));
        out.push(byte);
        k = k + 1;
        assert(out@ =~= packed(pixels@, palette@).take(k as int));
    }
    assert(out@ =~= packed(pixels@, palette@));
    out
}

/// Packs the pixels when every pixel of a complete pair is in the palette, and returns
/// `None` otherwise (the server panics on such a picture).
pub fn try_pack_pixels(pixels: &Vec<Rgb>, palette: &Vec<Rgb>) -> (out: Option<Vec<u8>>)
    ensures
        match out {
            Some(bytes) => pairs_in_palette(pixels@, palette@) && bytes@ == packed(
                pixels@,
                palette@,
            ),
            None => !pairs_in_palette(pixels@, palette@),
        },
{
    let limit = 2 * (pixels.len() / 2);
    let mut i: usize = 0;
    while i < limit
        invariant
            limit == 2 * (pixels@.len() / 2),
            i <= limit,
            forall|j: int| 0 <= j < i ==> #[trigger] palette_index(palette@, pixels@[j]) is Some,
        decreases limit - i,
    {
        if find_color(palette, pixels[i]).is_none() {
            return None;
        }
        i = i + 1;
    }
    Some(pack_pixels(pixels, palette))
}

/// Unpacking undoes packing for palettes of at most sixteen colours: the high four bits of
/// each byte are the first pixel's palette index and the low four bits the second's.
pub proof fn law_unpack_gives_indices(pixels: Seq<Rgb>, palette: Seq<Rgb>, k: int)
    requires
        palette.len() <= 16,
        pairs_in_palette(pixels, palette),
        0 <= k < pixels.len() / 2,
    ensures
        packed(pixels, palette)[k] >> 4u8 == palette_index(palette, pixels[2 * k]).unwrap(),
        packed(pixels, palette)[k] & 15u8 == palette_index(palette, pixels[2 * k + 1]).unwrap(),
{
    assert(palette_index(palette, pixels[2 * k]) is Some);
    assert(palette_index(palette, pixels[2 * k + 1]) is Some);
    lemma_index_from(palette, pixels[2 * k], 0);
    lemma_index_from(palette, pixels[2 * k + 1], 0);
    let i0 = palette_index(palette, pixels[2 * k]).unwrap() as usize;
    let i1 = palette_index(palette, pixels[2 * k + 1]).unwrap() as usize;
    assert(i0 < 16 && i1 < 16);
    let b = pack_pair(i0, i1);
    assert(i0 < 16 && i1 < 16 ==> (((i0 as u8) << 4u8) | (i1 as u8)) >> 4u8 == i0 && (((i0
        as u8) << 4u8) | (i1 as u8)) & 15u8 == i1) by (bit_vector);
}

} // verus!
