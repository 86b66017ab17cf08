use vstd::prelude::*;

verus! {

/// Whether bit `bit` (0 = least significant) of `b` is set.
pub open spec fn bit_of(b: u8, bit: u8) -> bool {
    (b >> bit) & 1u8 == 1u8
}

/// Setting one bit of a byte sets that bit and keeps every other bit.
pub proof fn lemma_set_bit(b: u8, k: u8, j: u8)
    requires
        k < 8,
        j < 8,
    ensures
        bit_of(b | (1u8 << k), j) == (j == k || bit_of(b, j)),
{
    assert(((b | (1u8 << k)) >> j) & 1u8 == 1u8 <==> (j == k || (b >> j) & 1u8 == 1u8))
        by (bit_vector)
        requires
            k < 8,
            j < 8,
    ;
}

/// Clearing one bit of a byte clears that bit and keeps every other bit.
pub proof fn lemma_clear_bit(b: u8, k: u8, j: u8)
    requires
        k < 8,
        j < 8,
    ensures
        bit_of(b & !(1u8 << k), j) == (j != k && bit_of(b, j)),
{
    assert(((b & !(1u8 << k)) >> j) & 1u8 == 1u8 <==> (j != k && (b >> j) & 1u8 == 1u8))
        by (bit_vector)
        requires
            k < 8,
            j < 8,
    ;
}


/// Index of pixel `(x, y)` in row-major order.
pub open spec fn pixel_index(x: int, y: int) -> int {
    y * 200 + x
}

/// Bit of its byte that holds pixel number `p`: the leftmost pixel of a byte
/// is its most significant bit.
pub open spec fn pixel_bit(p: int) -> u8 {
    (7 - p % 8) as u8
}

/// Whether `(x, y)` lies on the 200 x 200 panel.
pub open spec fn in_bounds(x: int, y: int) -> bool {
    0 <= x < 200 && 0 <= y < 200
}

/// Whether pixel `(x, y)` is set in the frame `buf`.
pub open spec fn pixel_on(buf: Seq<u8>, x: int, y: int) -> bool {
    bit_of(buf[pixel_index(x, y) / 8], pixel_bit(pixel_index(x, y)))
}

/// The byte that holds pixel number `p` after that pixel is set to `on`.
pub open spec fn byte_with_bit(b: u8, k: u8, on: bool) -> u8 {
    if on {
        b | (1u8 << k)
    } else {
        b & !(1u8 << k)
    }
}

/// The frame `buf` with pixel `(x, y)` set to `on` and nothing else changed.
pub open spec fn with_pixel(buf: Seq<u8>, x: int, y: int, on: bool) -> Seq<u8> {
    let p = pixel_index(x, y);
    buf.update(p / 8, byte_with_bit(buf[p / 8], pixel_bit(p), on))
}

/// Writing one pixel of a frame changes that pixel and no other.
pub proof fn lemma_with_pixel(buf: Seq<u8>, x: int, y: int, on: bool, x2: int, y2: int)
    requires
        buf.len() == 5000,
        in_bounds(x, y),
        in_bounds(x2, y2),
    ensures
        with_pixel(buf, x, y, on).len() == 5000,
        pixel_on(with_pixel(buf, x, y, on), x2, y2) == if x2 == x && y2 == y {
            on
        } else {
            pixel_on(buf, x2, y2)
        },
{
    let p = pixel_index(x, y);
    let q = pixel_index(x2, y2);
    let b = buf[p / 8];
    if q / 8 == p / 8 {
        if on {
            lemma_set_bit(b, pixel_bit(p), pixel_bit(q));
        } else {
            lemma_clear_bit(b, pixel_bit(p), pixel_bit(q));
        }
        if pixel_bit(q) == pixel_bit(p) {
            assert(q == p);
            assert(x2 == x && y2 == y);
        }
    }
}

/// Sets pixel `(x, y)` of a one-bit frame to `on`.
pub fn set_buffer_pixel(buffer: &mut [u8; 5000], x: usize, y: usize, on: bool)
    requires
        x < 200,
        y < 200,
    ensures
        final(buffer)@ == with_pixel(old(buffer)@, x as int, y as int, on),
{
    let idx = (y * 200 + x) / 8;
    let bit = 7 - ((y * 200 + x) % 8);
    let mask: u8 = 1u8 << (bit as u8);
    if on {
        buffer[idx] = buffer[idx] | mask;
    } else {
        buffer[idx] = buffer[idx] & !mask;
    }
}


/// Every bit of `0xFF` is set and no bit of `0x00` is.
pub proof fn lemma_full_and_empty_bytes(k: u8)
    requires
        k < 8,
    ensures
        bit_of(0xFFu8, k),
        !bit_of(0u8, k),
{
    assert((0xFFu8 >> k) & 1u8 == 1u8) by (bit_vector)
        requires
            k < 8,
    ;
    assert((0u8 >> k) & 1u8 == 0u8) by (bit_vector);
}

/// Sets every byte of a frame to `value`.
pub fn fill_buffer(buffer: &mut [u8; 5000], value: u8)
    ensures
        final(buffer)@ == Seq::new(5000, |i: int| value),
{
    let mut i: usize = 0;
    while i < 5000
        invariant
            i <= 5000,
            buffer@.len() == 5000,
            forall|j: int| 0 <= j < i ==> buffer@[j] == value,
        decreases 5000 - i,
    {
        buffer[i] = value;
        i = i + 1;
    }
    assert(buffer@ =~= Seq::new(5000, |i: int| value));
}

/// Each byte of `a` ORed with the byte of `b` at the same place.
pub open spec fn or_frames(a: Seq<u8>, b: Seq<u8>) -> Seq<u8> {
    Seq::new(5000, |i: int| a[i] | b[i])
}

/// A pixel of two frames laid over each other is on when it is on in either.
pub proof fn lemma_or_frames_pixel(a: Seq<u8>, b: Seq<u8>, x: int, y: int)
    requires
        in_bounds(x, y),
    ensures
        or_frames(a, b).len() == 5000,
        pixel_on(or_frames(a, b), x, y) == (pixel_on(a, x, y) || pixel_on(b, x, y)),
{
    let p = pixel_index(x, y);
    let k = pixel_bit(p);
    let u = a[p / 8];
    let v = b[p / 8];
    assert(((u | v) >> k) & 1u8 == 1u8 <==> ((u >> k) & 1u8 == 1u8 || (v >> k) & 1u8 == 1u8))
        by (bit_vector)
        requires
            k < 8,
    ;
}

/// A one-bit colour: `On` is a set bit.
#[derive(Clone, Copy, PartialEq, Eq, Debug, Structural)]
pub enum BinaryColor {
    Off,
    On,
}

/// One pixel to draw: its coordinates, which may lie off the panel, and its colour.
#[derive(Clone, Copy, PartialEq, Eq, Debug, Structural)]
pub struct Pixel {
    pub x: i32,
    pub y: i32,
    pub color: BinaryColor,
}

/// The frame `buf` after drawing `px`; a pixel off the panel changes nothing.
pub open spec fn draw_one(buf: Seq<u8>, px: Pixel) -> Seq<u8> {
    if in_bounds(px.x as int, px.y as int) {
        with_pixel(buf, px.x as int, px.y as int, px.color == BinaryColor::On)
    } else {
        buf
    }
}

/// The frame `buf` after drawing `pixels` in order.
pub open spec fn draw_all(buf: Seq<u8>, pixels: Seq<Pixel>) -> Seq<u8>
    decreases pixels.len(),
{
    if pixels.len() == 0 {
        buf
    } else {
        draw_one(draw_all(buf, pixels.drop_last()), pixels.last())
    }
}

/// The colour of the last pixel in `pixels` that lands on `(x, y)`, if any does.
pub open spec fn last_hit(pixels: Seq<Pixel>, x: int, y: int) -> Option<BinaryColor>
    decreases pixels.len(),
{
    if pixels.len() == 0 {
        None
    } else if pixels.last().x == x && pixels.last().y == y {
        Some(pixels.last().color)
    } else {
        last_hit(pixels.drop_last(), x, y)
    }
}

/// Drawing a list of pixels: each pixel of the panel ends up with the colour
/// of the last pixel drawn on it, and keeps its colour where none was.
pub proof fn lemma_draw_all(buf: Seq<u8>, pixels: Seq<Pixel>, x: int, y: int)
    requires
        buf.len() == 5000,
        in_bounds(x, y),
    ensures
        draw_all(buf, pixels).len() == 5000,
        pixel_on(draw_all(buf, pixels), x, y) == match last_hit(pixels, x, y) {
            Some(c) => c == BinaryColor::On,
            None => pixel_on(buf, x, y),
        },
    decreases pixels.len(),
{
    if pixels.len() > 0 {
        let px = pixels.last();
        lemma_draw_all(buf, pixels.drop_last(), x, y);
        if in_bounds(px.x as int, px.y as int) {
            lemma_with_pixel(
                draw_all(buf, pixels.drop_last()),
                px.x as int,
                px.y as int,
                px.color == BinaryColor::On,
                x,
                y,
            );
        }
    }
}

/// The byte that a frame cleared to `color` is filled with.
pub open spec fn fill_byte(color: BinaryColor) -> u8 {
    if color == BinaryColor::On {
        0xFFu8
    } else {
        0x00u8
    }
}

/// A 200 x 200 one-bit frame for the e-paper panel, eight pixels per byte,
/// rows top to bottom, the leftmost pixel of a byte in its most significant bit.
pub struct EpdFramebuffer {
    pub buffer: [u8; 5000],
}

impl View for EpdFramebuffer {
    type V = Seq<u8>;

    open spec fn view(&self) -> Seq<u8> {
        self.buffer@
    }
}

impl EpdFramebuffer {
    /// Whether pixel `(x, y)` is set.
    pub open spec fn pixel(&self, x: int, y: int) -> bool {
        pixel_on(self@, x, y)
    }

    /// A frame with every pixel off.
    pub fn new() -> (fb: Self)
        ensures
            fb@ == Seq::new(5000, |i: int| 0u8),
            forall|x: int, y: int| in_bounds(x, y) ==> !#[trigger] fb.pixel(x, y),
    {
        let fb = Self { buffer: [0u8; 5000] };
        assert(fb@ =~= Seq::new(5000, |i: int| 0u8));
        assert forall|x: int, y: int| in_bounds(x, y) implies !#[trigger] fb.pixel(x, y) by {
            lemma_full_and_empty_bytes(pixel_bit(pixel_index(x, y)));
        }
        fb
    }

    /// The frame's bytes, as they are sent to the panel.
    pub fn buffer(&self) -> (b: &[u8])
        ensures
            b@ == self@,
    {
        &self.buffer
    }

    /// The panel's size: 200 pixels wide and 200 high.
    pub fn size(&self) -> (wh: (u32, u32))
        ensures
            wh == (200u32, 200u32),
    {
        (200, 200)
    }

    /// Sets one pixel; a pixel off the panel is ignored.
    pub fn draw_pixel(&mut self, px: Pixel)
        ensures
            final(self)@ == draw_one(old(self)@, px),
            forall|x: int, y: int|
                in_bounds(x, y) ==> #[trigger] final(self).pixel(x, y) == if x == px.x && y
                    == px.y {
                    px.color == BinaryColor::On
                } else {
                    old(self).pixel(x, y)
                },
    {
        if px.x >= 0 && px.x < 200 && px.y >= 0 && px.y < 200 {
            set_buffer_pixel(
                &mut self.buffer,
                px.x as usize,
                px.y as usize,
                px.color == BinaryColor::On,
            );
        }
        proof {
            assert forall|x: int, y: int| in_bounds(x, y) implies #[trigger] final(self).pixel(
                x,
                y,
            ) == if x == px.x && y == px.y {
                px.color == BinaryColor::On
            } else {
                old(self).pixel(x, y)
            } by {
                if in_bounds(px.x as int, px.y as int) {
                    lemma_with_pixel(
                        old(self)@,
                        px.x as int,
                        px.y as int,
                        px.color == BinaryColor::On,
                        x,
                        y,
                    );
                }
            }
        }
    }

    /// Draws `pixels` in order; pixels off the panel are ignored, and where
    /// several land on one pixel the last one decides its colour.
    pub fn draw_iter(&mut self, pixels: &[Pixel])
        ensures
            final(self)@ == draw_all(old(self)@, pixels@),
            forall|x: int, y: int|
                in_bounds(x, y) ==> #[trigger] final(self).pixel(x, y) == match last_hit(
                    pixels@,
                    x,
                    y,
                ) {
                    Some(c) => c == BinaryColor::On,
                    None => old(self).pixel(x, y),
                },
    {
        let n = pixels.len();
        let mut i: usize = 0;
        while i < n
            invariant
                n == pixels@.len(),
                i <= n,
                self@ == draw_all(old(self)@, pixels@.take(i as int)),
            decreases n - i,
        {
            let px = pixels[i];
            self.draw_pixel(px);
            assert(pixels@.take(i + 1).drop_last() =~= pixels@.take(i as int));
            i = i + 1;
        }
        assert(pixels@.take(n as int) =~= pixels@);
        proof {
            assert forall|x: int, y: int| in_bounds(x, y) implies #[trigger] final(self).pixel(
                x,
                y,
            ) == match last_hit(pixels@, x, y) {
                Some(c) => c == BinaryColor::On,
                None => old(self).pixel(x, y),
            } by {
                lemma_draw_all(old(self)@, pixels@, x, y);
            }
        }
    }

    /// Turns on every pixel that is on in `mask`, a frame of the same
    /// layout; the others keep their colour.
    pub fn overlay(&mut self, mask: &[u8; 5000])
        ensures
            final(self)@ == or_frames(old(self)@, mask@),
            forall|x: int, y: int|
                in_bounds(x, y) ==> #[trigger] final(self).pixel(x, y) == (old(self).pixel(x, y)
                    || pixel_on(mask@, x, y)),
    {
        let mut i: usize = 0;
        while i < 5000
            invariant
                i <= 5000,
                self@.len() == 5000,
                mask@.len() == 5000,
                forall|j: int| 0 <= j < i ==> self@[j] == old(self)@[j] | mask@[j],
                forall|j: int| i <= j < 5000 ==> self@[j] == old(self)@[j],
            decreases 5000 - i,
        {
            self.buffer[i] = self.buffer[i] | mask[i];
            i = i + 1;
        }
        assert(final(self)@ =~= or_frames(old(self)@, mask@));
        assert forall|x: int, y: int| in_bounds(x, y) implies #[trigger] final(self).pixel(x, y)
            == (old(self).pixel(x, y) || pixel_on(mask@, x, y)) by {
            lemma_or_frames_pixel(old(self)@, mask@, x, y);
        }
    }

    /// Sets every pixel to `color`.
    pub fn clear(&mut self, color: BinaryColor)
        ensures
            final(self)@ == Seq::new(5000, |i: int| fill_byte(color)),
            forall|x: int, y: int|
                in_bounds(x, y) ==> #[trigger] final(self).pixel(x, y) == (color
                    == BinaryColor::On),
    {
        let byte_value: u8 = if color == BinaryColor::On {
            0xFF
        } else {
            0x00
        };
        fill_buffer(&mut self.buffer, byte_value);
        assert(final(self)@ =~= Seq::new(5000, |i: int| fill_byte(color)));
        assert forall|x: int, y: int| in_bounds(x, y) implies #[trigger] final(self).pixel(x, y)
            == (color == BinaryColor::On) by {
            lemma_full_and_empty_bytes(pixel_bit(pixel_index(x, y)));
        }
    }
}

impl Default for EpdFramebuffer {
    fn default() -> (fb: Self)
        ensures
            fb@ == Seq::new(5000, |i: int| 0u8),
    {
        Self::new()
    }
}

} // verus!
