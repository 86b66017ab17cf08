use vstd::prelude::*;

use crate::graphics::framebuffer::{
    in_bounds, lemma_full_and_empty_bytes, lemma_with_pixel, pixel_bit, pixel_index, pixel_on,
    set_buffer_pixel, fill_buffer,
};

verus! {

/// Why a BMP file could not be loaded. `E` is the error of the storage that
/// the file is read from.
#[derive(Debug)]
pub enum BmpError<E> {
    Filesystem(E),
    InvalidFormat,
    UnsupportedFormat,
    UnexpectedEndOfFile,
}

/// Length of the BMP file header and info header that are read first.
pub const HEADER_LEN: usize = 54;

/// Bytes of one stored pixel row: 200 pixels of 3 bytes, padded to a multiple of 4.
pub const ROW_LEN: usize = 600;

/// The 16-bit little-endian number at byte `i` of `h`.
pub open spec fn le16(h: Seq<u8>, i: int) -> int {
    h[i] + 256 * h[i + 1]
}

/// The 32-bit unsigned little-endian number at byte `i` of `h`.
pub open spec fn le32(h: Seq<u8>, i: int) -> int {
    h[i] + 256 * h[i + 1] + 65536 * h[i + 2] + 16777216 * h[i + 3]
}

/// The two's-complement reading of a 32-bit unsigned number.
pub open spec fn signed32(u: int) -> int {
    if u >= 0x8000_0000 {
        u - 0x1_0000_0000
    } else {
        u
    }
}

/// Offset of the pixel data, from the file header.
pub open spec fn data_offset(h: Seq<u8>) -> int {
    le32(h, 10)
}

/// Width in pixels, from the info header.
pub open spec fn bmp_width(h: Seq<u8>) -> int {
    signed32(le32(h, 18))
}

/// Height in pixels, from the info header; positive when rows are stored bottom-up.
pub open spec fn bmp_height(h: Seq<u8>) -> int {
    signed32(le32(h, 22))
}

/// Whether the file starts with the signature "BM".
pub open spec fn has_signature(h: Seq<u8>) -> bool {
    h[0] == 0x42 && h[1] == 0x4D
}

/// Whether the image is 200 x 200, one plane, 24 bits per pixel and uncompressed.
pub open spec fn format_supported(h: Seq<u8>) -> bool {
    &&& bmp_width(h) == 200
    &&& (bmp_height(h) == 200 || bmp_height(h) == -200)
    &&& le16(h, 26) == 1
    &&& le16(h, 28) == 24
    &&& le32(h, 30) == 0
}

/// Whether a header is accepted.
pub open spec fn header_accepted(h: Seq<u8>) -> bool {
    has_signature(h) && format_supported(h) && data_offset(h) >= 54
}

/// Whether the rows of the file are stored bottom-up.
pub open spec fn bottom_up(h: Seq<u8>) -> bool {
    bmp_height(h) > 0
}

/// Which stored row holds display row `y` (and which display row stored row `y` goes to).
pub open spec fn source_row(h: Seq<u8>, y: int) -> int {
    if bottom_up(h) {
        199 - y
    } else {
        y
    }
}

/// Perceived brightness of a colour, 0 to 255.
pub open spec fn luminance(red: int, green: int, blue: int) -> int {
    (red * 299 + green * 587 + blue * 114) / 1000
}

/// Whether the pixel stored in blue, green, red order at byte `i` of `s` is light.
pub open spec fn light_at(s: Seq<u8>, i: int) -> bool {
    luminance(s[i + 2] as int, s[i + 1] as int, s[i] as int) >= 128
}

/// Whether display pixel `(x, y)` of the image in `file` is light, that is,
/// shown as a set bit.
pub open spec fn bmp_pixel(file: Seq<u8>, x: int, y: int) -> bool {
    light_at(file, data_offset(file) + source_row(file, y) * 600 + 3 * x)
}

/// Where a decoder stands in the file.
#[derive(Clone, Copy, PartialEq, Eq, Debug, Structural)]
pub enum BmpStage {
    /// The 54 header bytes come next.
    Header,
    /// This many bytes before the pixel data remain to be skipped.
    Skip(usize),
    /// Stored row number `n` comes next.
    Rows(usize),
    /// All 200 rows have been read.
    Done,
}

/// Loads an uncompressed 24-bit, 200 x 200 BMP into a one-bit frame, fed the
/// file's bytes in the pieces it asks for. Light pixels become set bits, and
/// rows stored bottom-up are turned the right way up.
pub struct BmpDecoder {
    stage: BmpStage,
    bottom_up: bool,
    consumed: Ghost<Seq<u8>>,
}

/// How many bytes a decoder in `stage` reads next.
pub open spec fn read_len_of(stage: BmpStage) -> int {
    match stage {
        BmpStage::Header => 54,
        BmpStage::Skip(rem) => if rem < 32 {
            rem as int
        } else {
            32
        },
        BmpStage::Rows(_) => 600,
        BmpStage::Done => 0,
    }
}

/// Display pixel `(x, y)` of `out` holds the image in `file` for the stored
/// rows below `rows` and is off elsewhere.
pub open spec fn rows_loaded(out: Seq<u8>, file: Seq<u8>, rows: int) -> bool {
    &&& out.len() == 5000
    &&& forall|x: int, y: int|
        in_bounds(x, y) ==> #[trigger] pixel_on(out, x, y) == (source_row(file, y) < rows
            && bmp_pixel(file, x, y))
}

/// The frame `out` after stored row `row` of the image is decoded into it.
pub open spec fn row_added(out: Seq<u8>, row: Seq<u8>, output_row: int, x: int, y: int) -> bool {
    if y == output_row {
        pixel_on(out, x, y) || light_at(row, 3 * x)
    } else {
        pixel_on(out, x, y)
    }
}

impl BmpDecoder {
    /// Where the decoder stands.
    pub closed spec fn stage(&self) -> BmpStage {
        self.stage
    }

    /// The bytes of the file fed so far.
    pub closed spec fn consumed(&self) -> Seq<u8> {
        self.consumed@
    }

    /// How the decoder's state and the frame being filled relate to the bytes fed so far.
    pub open spec fn inv(&self, out: Seq<u8>) -> bool {
        let c = self.consumed();
        match self.stage() {
            BmpStage::Header => c.len() == 0,
            BmpStage::Skip(rem) => {
                &&& self.rows_bottom_up() == bottom_up(c)
                &&& c.len() >= 54
                &&& header_accepted(c)
                &&& rem > 0
                &&& data_offset(c) == c.len() + rem
            },
            BmpStage::Rows(n) => {
                &&& self.rows_bottom_up() == bottom_up(c)
                &&& c.len() >= 54
                &&& header_accepted(c)
                &&& n < 200
                &&& c.len() == data_offset(c) + n * 600
                &&& rows_loaded(out, c, n as int)
            },
            BmpStage::Done => {
                &&& self.rows_bottom_up() == bottom_up(c)
                &&& c.len() >= 54
                &&& header_accepted(c)
                &&& c.len() == data_offset(c) + 200 * 600
                &&& rows_loaded(out, c, 200)
            },
        }
    }

    /// Whether the decoder takes the rows as stored bottom-up.
    pub closed spec fn rows_bottom_up(&self) -> bool {
        self.bottom_up
    }

    /// A decoder at the start of a file.
    pub fn new() -> (d: Self)
        ensures
            d.stage() == BmpStage::Header,
            d.consumed() == Seq::<u8>::empty(),
            forall|out: Seq<u8>| d.inv(out),
    {
        BmpDecoder { stage: BmpStage::Header, bottom_up: false, consumed: Ghost(Seq::empty()) }
    }
}

/// Where filling a buffer of `wanted` bytes from a file stands after a read.
#[derive(Clone, Copy, PartialEq, Eq, Debug, Structural)]
pub enum ReadProgress {
    /// This many bytes are filled; read again into the rest.
    More(usize),
    /// The buffer is full.
    Done,
    /// The read gave nothing although bytes are still wanted: the file has ended.
    EndOfFile,
}

/// Decides what follows a read that gave `got` bytes into a buffer of
/// `wanted` bytes of which `filled` were already filled.
pub fn read_progress(filled: usize, wanted: usize, got: usize) -> (p: ReadProgress)
    requires
        filled <= wanted,
        got <= wanted - filled,
    ensures
        p == if got == 0 && filled < wanted {
            ReadProgress::EndOfFile
        } else if filled + got == wanted {
            ReadProgress::Done
        } else {
            ReadProgress::More((filled + got) as usize)
        },
{
    if got == 0 && filled < wanted {
        ReadProgress::EndOfFile
    } else if filled + got == wanted {
        ReadProgress::Done
    } else {
        ReadProgress::More(filled + got)
    }
}

/// The stage a decoder moves to after reading `chunk` in `stage` without error.
pub open spec fn next_stage(stage: BmpStage, chunk: Seq<u8>) -> BmpStage {
    match stage {
        BmpStage::Header => if data_offset(chunk) == 54 {
            BmpStage::Rows(0)
        } else {
            BmpStage::Skip((data_offset(chunk) - 54) as usize)
        },
        BmpStage::Skip(rem) => if rem <= 32 {
            BmpStage::Rows(0)
        } else {
            BmpStage::Skip((rem - 32) as usize)
        },
        BmpStage::Rows(n) => if n + 1 == 200 {
            BmpStage::Done
        } else {
            BmpStage::Rows((n + 1) as usize)
        },
        BmpStage::Done => BmpStage::Done,
    }
}

fn le_u16_at(h: &[u8], i: usize) -> (v: u16)
    requires
        i + 2 <= h@.len(),
    ensures
        v == le16(h@, i as int),
{
    h[i] as u16 + (h[i + 1] as u16) * 256
}

fn le_u32_at(h: &[u8], i: usize) -> (v: u32)
    requires
        i + 4 <= h@.len(),
    ensures
        v == le32(h@, i as int),
{
    h[i] as u32 + (h[i + 1] as u32) * 256 + (h[i + 2] as u32) * 65536 + (h[i + 3] as u32)
        * 16777216
}

fn le_i32_at(h: &[u8], i: usize) -> (v: i32)
    requires
        i + 4 <= h@.len(),
    ensures
        v == signed32(le32(h@, i as int)),
{
    let u = le_u32_at(h, i);
    if u >= 0x8000_0000 {
        ((u - 0x8000_0000) as i32) - 0x7FFF_FFFF - 1
    } else {
        u as i32
    }
}

/// Checks the 54 header bytes of a BMP file and returns where its pixel data
/// starts and whether its rows are stored bottom-up.
pub fn parse_header<E>(header: &[u8]) -> (r: Result<(usize, bool), BmpError<E>>)
    requires
        header@.len() == 54,
    ensures
        r is Ok <==> header_accepted(header@),
        r matches Ok((offset, rows_up)) ==> offset == data_offset(header@) && rows_up == bottom_up(
            header@,
        ),
        !has_signature(header@) ==> r matches Err(BmpError::InvalidFormat),
        has_signature(header@) && !format_supported(header@) ==> r matches Err(
            BmpError::UnsupportedFormat,
        ),
        has_signature(header@) && format_supported(header@) && data_offset(header@) < 54 ==> r matches Err(
            BmpError::InvalidFormat,
        ),
{
    if header[0] != 0x42 || header[1] != 0x4D {
        return Err(BmpError::InvalidFormat);
    }
    let data_offset = le_u32_at(header, 10) as usize;
    let width = le_i32_at(header, 18);
    let height = le_i32_at(header, 22);
    let planes = le_u16_at(header, 26);
    let bits_per_pixel = le_u16_at(header, 28);
    let compression = le_u32_at(header, 30);
    if width != 200 || (height != 200 && height != -200) || planes != 1 {
        return Err(BmpError::UnsupportedFormat);
    }
    if bits_per_pixel != 24 || compression != 0 {
        return Err(BmpError::UnsupportedFormat);
    }
    if data_offset < 54 {
        return Err(BmpError::InvalidFormat);
    }
    Ok((data_offset, height > 0))
}

/// ORs the light pixels of one stored row into display row `output_row`.
fn decode_row(row: &[u8], output_row: usize, output: &mut [u8; 5000])
    requires
        row@.len() == 600,
        output_row < 200,
    ensures
        forall|x: int, y: int|
            in_bounds(x, y) ==> #[trigger] pixel_on(final(output)@, x, y) == row_added(
                old(output)@,
                row@,
                output_row as int,
                x,
                y,
            ),
{
    let ghost start = output@;
    let mut x: usize = 0;
    while x < 200
        invariant
            x <= 200,
            row@.len() == 600,
            output_row < 200,
            output@.len() == 5000,
            forall|x2: int, y2: int|
                in_bounds(x2, y2) ==> #[trigger] pixel_on(output@, x2, y2) == if y2
                    == output_row && x2 < x {
                    pixel_on(start, x2, y2) || light_at(row@, 3 * x2)
                } else {
                    pixel_on(start, x2, y2)
                },
        decreases 200 - x,
    {
        let pixel = x * 3;
        let blue = row[pixel] as u32;
        let green = row[pixel + 1] as u32;
        let red = row[pixel + 2] as u32;
        let luminance = (red * 299 + green * 587 + blue * 114) / 1000;
        let ghost before = output@;
        if luminance >= 128 {
            set_buffer_pixel(output, x, output_row, true);
            assert forall|x2: int, y2: int| in_bounds(x2, y2) implies #[trigger] pixel_on(
                output@,
                x2,
                y2,
            ) == if x2 == x && y2 == output_row {
                true
            } else {
                pixel_on(before, x2, y2)
            } by {
                lemma_with_pixel(before, x as int, output_row as int, true, x2, y2);
            }
        }
        assert(light_at(row@, 3 * x) == (luminance >= 128));
        x = x + 1;
    }
}

/// Bytes that agree below `c.len()` carry the same header.
proof fn lemma_same_header(c: Seq<u8>, d: Seq<u8>)
    requires
        c.len() >= 54,
        d.len() >= c.len(),
        forall|i: int| 0 <= i < c.len() ==> d[i] == c[i],
    ensures
        data_offset(d) == data_offset(c),
        has_signature(d) == has_signature(c),
        format_supported(d) == format_supported(c),
        bmp_height(d) == bmp_height(c),
        bottom_up(d) == bottom_up(c),
        header_accepted(d) == header_accepted(c),
        forall|y: int| source_row(d, y) == source_row(c, y),
{
    assert(forall|i: int| 0 <= i < 54 ==> d[i] == c[i]);
}

impl BmpDecoder {
    /// How many bytes the decoder reads next: 54 for the header, at most 32 at
    /// a time of what lies between header and pixel data, 600 for each row,
    /// and none once all rows are read.
    pub fn next_read_len(&self) -> (n: usize)
        ensures
            n == read_len_of(self.stage()),
    {
        match self.stage {
            BmpStage::Header => HEADER_LEN,
            BmpStage::Skip(rem) => if rem < 32 {
                rem
            } else {
                32
            },
            BmpStage::Rows(_) => ROW_LEN,
            BmpStage::Done => 0,
        }
    }

    /// Whether all rows have been read.
    pub fn is_done(&self) -> (b: bool)
        ensures
            b == (self.stage() is Done),
    {
        matches!(self.stage, BmpStage::Done)
    }

    /// Takes the next `next_read_len()` bytes of the file. The header is
    /// checked; bytes before the pixel data are skipped; once they are, the
    /// frame is cleared; each row's light pixels are then set in the frame.
    pub fn feed<E>(&mut self, chunk: &[u8], output: &mut [u8; 5000]) -> (r: Result<(), BmpError<E>>)
        requires
            old(self).inv(old(output)@),
            !(old(self).stage() is Done),
            chunk@.len() == read_len_of(old(self).stage()),
        ensures
            old(self).stage() is Header ==> {
                &&& (r is Ok <==> header_accepted(chunk@))
                &&& !has_signature(chunk@) ==> (r matches Err(BmpError::InvalidFormat))
                &&& has_signature(chunk@) && !format_supported(chunk@) ==> (r matches Err(
                    BmpError::UnsupportedFormat,
                ))
                &&& has_signature(chunk@) && format_supported(chunk@) && data_offset(chunk@) < 54
                    ==> (r matches Err(BmpError::InvalidFormat))
            },
            !(old(self).stage() is Header) ==> r is Ok,
            r is Err ==> *final(self) == *old(self) && final(output)@ == old(output)@,
            r is Ok ==> {
                &&& final(self).consumed() == old(self).consumed() + chunk@
                &&& final(self).stage() == next_stage(old(self).stage(), chunk@)
                &&& final(self).inv(final(output)@)
            },
            r is Ok && final(self).stage() == BmpStage::Rows(0) ==> final(output)@ == Seq::new(
                5000,
                |i: int| 0u8,
            ),
            r is Ok && !(final(self).stage() is Rows) && !(final(self).stage() is Done)
                ==> final(output)@ == old(output)@,
            old(self).stage() matches BmpStage::Rows(n) ==> forall|x: int, y: int|
                in_bounds(x, y) ==> #[trigger] pixel_on(final(output)@, x, y) == row_added(
                    old(output)@,
                    chunk@,
                    source_row(old(self).consumed(), n as int),
                    x,
                    y,
                ),
            final(self).stage() is Done ==> forall|x: int, y: int|
                in_bounds(x, y) ==> #[trigger] pixel_on(final(output)@, x, y) == bmp_pixel(
                    final(self).consumed(),
                    x,
                    y,
                ),
    {
        let ghost c = self.consumed@;
        let ghost d = c + chunk@;
        match self.stage {
            BmpStage::Header => {
                let (offset, rows_up) = match parse_header(chunk) {
                    Ok(v) => v,
                    Err(e) => {
                        return Err(e);
                    },
                };
                assert(c =~= Seq::<u8>::empty());
                assert(d =~= chunk@);
                self.bottom_up = rows_up;
                self.consumed = Ghost(d);
                if offset == HEADER_LEN {
                    self.start_rows(output);
                } else {
                    self.stage = BmpStage::Skip(offset - HEADER_LEN);
                }
                Ok(())
            },
            BmpStage::Skip(rem) => {
                proof {
                    lemma_same_header(c, d);
                }
                self.consumed = Ghost(d);
                if rem <= 32 {
                    self.start_rows(output);
                } else {
                    self.stage = BmpStage::Skip(rem - 32);
                }
                Ok(())
            },
            BmpStage::Rows(n) => {
                proof {
                    lemma_same_header(c, d);
                }
                let output_row = if self.bottom_up {
                    199 - n
                } else {
                    n
                };
                decode_row(chunk, output_row, output);
                self.consumed = Ghost(d);
                if n + 1 == 200 {
                    self.stage = BmpStage::Done;
                } else {
                    self.stage = BmpStage::Rows(n + 1);
                }
                proof {
                    let off = data_offset(c);
                    assert forall|x: int, y: int| in_bounds(x, y) implies #[trigger] pixel_on(
                        output@,
                        x,
                        y,
                    ) == (source_row(d, y) < n + 1 && bmp_pixel(d, x, y)) by {
                        if source_row(c, y) == n {
                            let i = off + n * 600 + 3 * x;
                            assert(d[i] == chunk@[3 * x]);
                            assert(d[i + 1] == chunk@[3 * x + 1]);
                            assert(d[i + 2] == chunk@[3 * x + 2]);
                        } else if source_row(c, y) < n {
                            let i = off + source_row(c, y) * 600 + 3 * x;
                            assert(d[i] == c[i]);
                            assert(d[i + 1] == c[i + 1]);
                            assert(d[i + 2] == c[i + 2]);
                        }
                    }
                }
                Ok(())
            },
            BmpStage::Done => Ok(()),
        }
    }

    /// Clears the frame and moves to the first row.
    fn start_rows(&mut self, output: &mut [u8; 5000])
        requires
            old(self).consumed().len() >= 54,
            header_accepted(old(self).consumed()),
            old(self).consumed().len() == data_offset(old(self).consumed()),
            old(self).rows_bottom_up() == bottom_up(old(self).consumed()),
        ensures
            final(self).stage() == BmpStage::Rows(0),
            final(self).consumed() == old(self).consumed(),
            final(self).rows_bottom_up() == old(self).rows_bottom_up(),
            final(output)@ == Seq::new(5000, |i: int| 0u8),
            final(self).inv(final(output)@),
    {
        fill_buffer(output, 0);
        self.stage = BmpStage::Rows(0);
        proof {
            assert forall|x: int, y: int| in_bounds(x, y) implies #[trigger] pixel_on(
                output@,
                x,
                y,
            ) == (source_row(self.consumed(), y) < 0 && bmp_pixel(self.consumed(), x, y)) by {
                lemma_full_and_empty_bytes(pixel_bit(pixel_index(x, y)));
            }
        }
    }
}


/// Rows stored bottom-up and rows stored top-down: two files that differ only
/// in the sign of the height show the same image upside down.
pub proof fn lemma_flipped_height(up: Seq<u8>, down: Seq<u8>, x: int, y: int)
    requires
        up.len() >= 54,
        down.len() == up.len(),
        forall|i: int| 0 <= i < up.len() && !(22 <= i < 26) ==> down[i] == up[i],
        bmp_height(up) == 200,
        bmp_height(down) == -200,
        data_offset(up) >= 54,
        up.len() >= data_offset(up) + 200 * 600,
        in_bounds(x, y),
    ensures
        bmp_pixel(up, x, y) == bmp_pixel(down, x, 199 - y),
{
    assert(forall|i: int| 10 <= i < 14 ==> down[i] == up[i]);
    let i = data_offset(up) + (199 - y) * 600 + 3 * x;
    assert(down[i] == up[i]);
    assert(down[i + 1] == up[i + 1]);
    assert(down[i + 2] == up[i + 2]);
}

/// BMP pixels are stored blue, green, red: display pixel `(x, y)` is light
/// exactly when the luminance `(299 R + 587 G + 114 B) / 1000` is at least 128,
/// where B, G and R are the three bytes of that pixel, in that order, in the
/// stored row that holds display row `y` (row `199 - y` when the height is
/// positive, row `y` when it is negative).
pub proof fn lemma_pixel_is_bgr_luminance(file: Seq<u8>, x: int, y: int)
    requires
        in_bounds(x, y),
    ensures
        ({
            let row = if bmp_height(file) > 0 {
                199 - y
            } else {
                y
            };
            let i = data_offset(file) + row * 600 + 3 * x;
            bmp_pixel(file, x, y) == (((file[i + 2] as int) * 299 + (file[i + 1] as int) * 587
                + (file[i] as int) * 114) / 1000 >= 128)
        }),
{
}

/// Display pixel `(x, y)` depends only on the bytes of the file up to the end
/// of the pixel data.
proof fn lemma_pixel_in_prefix(file: Seq<u8>, prefix: Seq<u8>, x: int, y: int)
    requires
        prefix.len() >= 54,
        file.len() >= prefix.len(),
        forall|i: int| 0 <= i < prefix.len() ==> file[i] == prefix[i],
        prefix.len() == data_offset(prefix) + 200 * 600,
        in_bounds(x, y),
    ensures
        bmp_pixel(file, x, y) == bmp_pixel(prefix, x, y),
{
    lemma_same_header(prefix, file);
    let i = data_offset(prefix) + source_row(prefix, y) * 600 + 3 * x;
    assert(file[i] == prefix[i]);
    assert(file[i + 1] == prefix[i + 1]);
    assert(file[i + 2] == prefix[i + 2]);
}

/// Loads a whole BMP file held in memory into a one-bit frame, reading it in
/// the pieces that a `BmpDecoder` asks for. Fails with `UnexpectedEndOfFile`
/// when the file ends before its pixel data does, and with the header's error
/// when the header is refused; on success, each display pixel is set exactly
/// when the image's pixel there is light.
pub fn decode_bmp<E>(file: &[u8], output: &mut [u8; 5000]) -> (r: Result<(), BmpError<E>>)
    ensures
        r is Ok <==> file@.len() >= 54 && header_accepted(file@) && file@.len() >= data_offset(
            file@,
        ) + 200 * 600,
        file@.len() < 54 ==> (r matches Err(BmpError::UnexpectedEndOfFile)),
        file@.len() >= 54 && !has_signature(file@) ==> (r matches Err(BmpError::InvalidFormat)),
        file@.len() >= 54 && has_signature(file@) && !format_supported(file@) ==> (r matches Err(
            BmpError::UnsupportedFormat,
        )),
        file@.len() >= 54 && has_signature(file@) && format_supported(file@) && data_offset(file@)
            < 54 ==> (r matches Err(BmpError::InvalidFormat)),
        file@.len() >= 54 && header_accepted(file@) && file@.len() < data_offset(file@) + 200 * 600
            ==> (r matches Err(BmpError::UnexpectedEndOfFile)),
        !(file@.len() >= 54 && header_accepted(file@)) ==> final(output)@ == old(output)@,
        file@.len() >= 54 && header_accepted(file@) && file@.len() < data_offset(file@)
            ==> final(output)@ == old(output)@,
        r is Ok ==> forall|x: int, y: int|
            in_bounds(x, y) ==> #[trigger] pixel_on(final(output)@, x, y) == bmp_pixel(
                file@,
                x,
                y,
            ),
        r is Ok ==> forall|x: int, y: int|
            in_bounds(x, y) ==> #[trigger] pixel_on(final(output)@, x, y) == (({
                let i = data_offset(file@) + (if bmp_height(file@) > 0 {
                    199 - y
                } else {
                    y
                }) * 600 + 3 * x;
                (file@[i + 2] as int) * 299 + (file@[i + 1] as int) * 587 + (file@[i] as int)
                    * 114
            }) / 1000 >= 128),
{
    let mut decoder = BmpDecoder::new();
    let mut pos: usize = 0;
    let n = file.len();
    while !decoder.is_done()
        invariant
            n == file@.len(),
            pos <= n,
            decoder.inv(output@),
            decoder.consumed() == file@.subrange(0, pos as int),
            !(decoder.stage() is Header) ==> header_accepted(file@) && n >= 54,
            (decoder.stage() is Header || decoder.stage() is Skip) ==> output@ == old(output)@,
        decreases n - pos,
    {
        let len = decoder.next_read_len();
        if n - pos < len {
            proof {
                if !(decoder.stage() is Header) {
                    lemma_same_header(decoder.consumed(), file@);
                }
            }
            return Err(BmpError::UnexpectedEndOfFile);
        }
        let chunk = vstd::slice::slice_subrange(file, pos, pos + len);
        proof {
            if decoder.stage() is Header {
                lemma_same_header(chunk@, file@);
            } else {
                lemma_same_header(decoder.consumed(), file@);
            }
        }
        match decoder.feed(chunk, output) {
            Ok(()) => {},
            Err(e) => {
                return Err(e);
            },
        }
        assert(file@.subrange(0, pos as int) + chunk@ =~= file@.subrange(0, (pos + len) as int));
        pos = pos + len;
        proof {
            lemma_same_header(decoder.consumed(), file@);
        }
    }
    proof {
        let c = decoder.consumed();
        lemma_same_header(c, file@);
        assert forall|x: int, y: int| in_bounds(x, y) implies #[trigger] pixel_on(
            output@,
            x,
            y,
        ) == bmp_pixel(file@, x, y) by {
            lemma_pixel_in_prefix(file@, c, x, y);
            lemma_pixel_is_bgr_luminance(file@, x, y);
        }
    }
    Ok(())
}

} // verus!
