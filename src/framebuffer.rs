//! A width × height image of packed RGBA8 words, stored row-major with row 0
//! of the storage holding the top scanline of the picture, so that scanline
//! `y` of camera space (counted from the bottom) lands at row `height - 1 - y`.

use vstd::prelude::*;
use crate::pixel::{word_channels, Channels};

verus! {

/// Where pixel `(x, y)` of camera space sits in the storage.
pub open spec fn flipped_index(width: int, height: int, x: int, y: int) -> int {
    x + (height - 1 - y) * width
}

/// Byte `k` of the little-endian bytes of a pixel word: red, green, blue, alpha.
pub open spec fn channel_byte(c: Channels, k: int) -> u8 {
    if k == 0 {
        c.0
    } else if k == 1 {
        c.1
    } else if k == 2 {
        c.2
    } else {
        c.3
    }
}

pub struct Framebuffer {
    width: usize,
    height: usize,
    pixels: Vec<u32>,
}

impl Framebuffer {
    pub closed spec fn spec_width(&self) -> nat {
        self.width as nat
    }

    pub closed spec fn spec_height(&self) -> nat {
        self.height as nat
    }

    /// The stored words, in storage order.
    pub closed spec fn words(&self) -> Seq<u32> {
        self.pixels@
    }

    /// The word of pixel `(x, y)`, with `y` counted from the bottom.
    pub open spec fn pixel_at(&self, x: int, y: int) -> u32 {
        self.words()[flipped_index(self.spec_width() as int, self.spec_height() as int, x, y)]
    }

    pub closed spec fn wf(&self) -> bool {
        &&& self.pixels@.len() == self.width * self.height
        &&& self.width * self.height <= usize::MAX
    }

    /// An image of the given size with every word zero.
    pub fn new(width: usize, height: usize) -> (fb: Framebuffer)
        requires
            width * height <= usize::MAX,
        ensures
            fb.wf(),
            fb.spec_width() == width,
            fb.spec_height() == height,
            fb.words() == Seq::new((width * height) as nat, |i: int| 0u32),
    {
        let n: usize = width * height;
        let mut pixels: Vec<u32> = Vec::with_capacity(n);
        let mut i: usize = 0;
        while i < n
            invariant
                i <= n,
                pixels@ == Seq::new(i as nat, |j: int| 0u32),
            decreases n - i,
        {
            pixels.push(0u32);
            i = i + 1;
            assert(pixels@ =~= Seq::new(i as nat, |j: int| 0u32));
        }
        Framebuffer { width, height, pixels }
    }

    pub fn width(&self) -> (w: usize)
        ensures
            w == self.spec_width(),
    {
        self.width
    }

    pub fn height(&self) -> (h: usize)
        ensures
            h == self.spec_height(),
    {
        self.height
    }

    /// Where pixel `(x, y)` sits in the storage.
    pub fn index_of(&self, x: usize, y: usize) -> (i: usize)
        requires
            self.wf(),
            x < self.spec_width(),
            y < self.spec_height(),
        ensures
            i as int == flipped_index(self.spec_width() as int, self.spec_height() as int, x as int, y as int),
            i < self.words().len(),
    {
        let row: usize = self.height - 1 - y;
        proof {
            lemma_flipped_index_in_range(self.width as int, self.height as int, x as int, y as int);
            assert(0 <= row * self.width <= x + row * self.width);
        }
        x + row * self.width
    }

    /// Stores the word of pixel `(x, y)`; every other pixel keeps its word.
    pub fn set(&mut self, x: usize, y: usize, p: u32)
        requires
            old(self).wf(),
            x < old(self).spec_width(),
            y < old(self).spec_height(),
        ensures
            final(self).wf(),
            final(self).spec_width() == old(self).spec_width(),
            final(self).spec_height() == old(self).spec_height(),
            final(self).words() == old(self).words().update(
                flipped_index(old(self).spec_width() as int, old(self).spec_height() as int, x as int, y as int),
                p,
            ),
            final(self).pixel_at(x as int, y as int) == p,
    {
        let i = self.index_of(x, y);
        self.pixels.set(i, p);
    }

    /// The word of pixel `(x, y)`.
    pub fn get(&self, x: usize, y: usize) -> (p: u32)
        requires
            self.wf(),
            x < self.spec_width(),
            y < self.spec_height(),
        ensures
            p == self.pixel_at(x as int, y as int),
    {
        let i = self.index_of(x, y);
        self.pixels[i]
    }

    /// The storage as bytes, four per word, each word little-endian (red
    /// first), which is the layout an RGBA8 image sink reads.
    pub fn to_rgba_bytes(&self) -> (bytes: Vec<u8>)
        requires
            self.wf(),
            4 * self.words().len() <= usize::MAX,
        ensures
            bytes@.len() == 4 * self.words().len(),
            forall|i: int, k: int|
                0 <= i < self.words().len() && 0 <= k < 4 ==> #[trigger] bytes@[4 * i + k]
                    == channel_byte(word_channels(self.words()[i]), k),
    {
        let n = self.pixels.len();
        let mut bytes: Vec<u8> = Vec::with_capacity(4 * n);
        let mut i: usize = 0;
        while i < n
            invariant
                i <= n,
                n == self.words().len(),
                4 * n <= usize::MAX,
                self.wf(),
                bytes@.len() == 4 * i,
                forall|j: int, k: int|
                    0 <= j < i && 0 <= k < 4 ==> #[trigger] bytes@[4 * j + k]
                        == channel_byte(word_channels(self.words()[j]), k),
            decreases n - i,
        {
            let c = crate::pixel::unpack_rgba(self.pixels[i]);
            bytes.push(c.0);
            bytes.push(c.1);
            bytes.push(c.2);
            bytes.push(c.3);
            assert forall|j: int, k: int|
                0 <= j < i + 1 && 0 <= k < 4 implies #[trigger] bytes@[4 * j + k]
                    == channel_byte(word_channels(self.words()[j]), k) by {
                if j == i {
                    assert(4 * j + k == 4 * i + k);
                }
            }
            i = i + 1;
        }
        bytes
    }
}

/// Every pixel of the picture has a place in the storage.
pub proof fn lemma_flipped_index_in_range(width: int, height: int, x: int, y: int)
    requires
        0 <= x < width,
        0 <= y < height,
    ensures
        0 <= flipped_index(width, height, x, y) < width * height,
{
    let row = height - 1 - y;
    assert(0 <= row < height);
    assert(0 <= row * width) by (nonlinear_arith)
        requires
            0 <= row,
            0 <= width,
    ;
    assert(row * width + width <= height * width) by (nonlinear_arith)
        requires
            row + 1 <= height,
            0 <= width,
    ;
}

/// Two different pixels never share a place in the storage.
pub proof fn lemma_flipped_index_injective(width: int, height: int, x1: int, y1: int, x2: int, y2: int)
    requires
        0 <= x1 < width,
        0 <= y1 < height,
        0 <= x2 < width,
        0 <= y2 < height,
        flipped_index(width, height, x1, y1) == flipped_index(width, height, x2, y2),
    ensures
        x1 == x2,
        y1 == y2,
{
    let r1 = height - 1 - y1;
    let r2 = height - 1 - y2;
    assert(r1 == r2) by (nonlinear_arith)
        requires
            x1 + r1 * width == x2 + r2 * width,
            0 <= x1 < width,
            0 <= x2 < width,
            0 <= r1,
            0 <= r2,
    ;
}

} // verus!
