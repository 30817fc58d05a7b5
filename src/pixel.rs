//! Packed RGBA8 pixel words: `(a << 24) | (b << 16) | (g << 8) | r`.

use vstd::prelude::*;

verus! {

/// The four channels of a pixel, in the order red, green, blue, alpha.
pub type Channels = (u8, u8, u8, u8);

/// The word that holds the four channels: red in the lowest byte, alpha in
/// the highest.
pub open spec fn rgba_word(r: u8, g: u8, b: u8, a: u8) -> int {
    r as int + g as int * 0x100 + b as int * 0x1_0000 + a as int * 0x100_0000
}

/// The channels that a word holds, lowest byte first.
pub open spec fn word_channels(p: u32) -> Channels {
    (
        (p % 0x100) as u8,
        ((p / 0x100) % 0x100) as u8,
        ((p / 0x1_0000) % 0x100) as u8,
        (p / 0x100_0000) as u8,
    )
}

/// Packs four channels into one pixel word.
pub fn pack_rgba(r: u8, g: u8, b: u8, a: u8) -> (p: u32)
    ensures
        p as int == rgba_word(r, g, b, a),
{
    let p: u32 = ((a as u32) << 24u32) | ((b as u32) << 16u32) | ((g as u32) << 8u32) | (r as u32);
    assert(p as int == rgba_word(r, g, b, a)) by (bit_vector)
        requires
            p == ((a as u32) << 24u32) | ((b as u32) << 16u32) | ((g as u32) << 8u32) | (r as u32),
    ;
    p
}

/// Splits a pixel word into its four channels.
pub fn unpack_rgba(p: u32) -> (c: Channels)
    ensures
        c == word_channels(p),
{
    let r: u8 = (p & 0xff) as u8;
    let g: u8 = ((p >> 8u32) & 0xff) as u8;
    let b: u8 = ((p >> 16u32) & 0xff) as u8;
    let a: u8 = (p >> 24u32) as u8;
    assert(r == (p % 0x100) as u8 && g == ((p / 0x100) % 0x100) as u8 && b == ((p / 0x1_0000)
        % 0x100) as u8 && a == (p / 0x100_0000) as u8) by (bit_vector)
        requires
            r == (p & 0xff) as u8,
            g == ((p >> 8u32) & 0xff) as u8,
            b == ((p >> 16u32) & 0xff) as u8,
            a == (p >> 24u32) as u8,
    ;
    (r, g, b, a)
}

/// Unpacking a packed word gives back the four channels it was made from.
pub proof fn lemma_unpack_of_pack(r: u8, g: u8, b: u8, a: u8)
    ensures
        0 <= rgba_word(r, g, b, a) <= u32::MAX,
        word_channels(rgba_word(r, g, b, a) as u32) == (r, g, b, a),
{
    let w = rgba_word(r, g, b, a);
    assert(0 <= w <= u32::MAX);
    let p = w as u32;
    assert(p % 0x100 == r);
    assert(p / 0x100 == g as int + b as int * 0x100 + a as int * 0x1_0000);
    assert((p / 0x100) % 0x100 == g);
    assert(p / 0x1_0000 == b as int + a as int * 0x100);
    assert((p / 0x1_0000) % 0x100 == b);
    assert(p / 0x100_0000 == a);
}

/// Packing the channels of a word gives back the word.
pub proof fn lemma_pack_of_unpack(p: u32)
    ensures
        ({
            let c = word_channels(p);
            rgba_word(c.0, c.1, c.2, c.3) == p
        }),
{
    let c = word_channels(p);
    assert(rgba_word(c.0, c.1, c.2, c.3) == p);
}

} // verus!
