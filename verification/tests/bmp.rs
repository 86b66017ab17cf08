use frame::storage::bmp::{parse_header, BmpStage};
use frame::storage::{decode_bmp, read_progress, BmpDecoder, BmpError, ReadProgress};

struct Header {
    offset: u32,
    width: i32,
    height: i32,
    planes: u16,
    bpp: u16,
    compression: u32,
}

fn good_header() -> Header {
    Header { offset: 54, width: 200, height: 200, planes: 1, bpp: 24, compression: 0 }
}

fn header_bytes(h: &Header) -> Vec<u8> {
    let mut b = vec![0u8; 54];
    b[0] = b'B';
    b[1] = b'M';
    b[10..14].copy_from_slice(&h.offset.to_le_bytes());
    b[14..18].copy_from_slice(&40u32.to_le_bytes());
    b[18..22].copy_from_slice(&h.width.to_le_bytes());
    b[22..26].copy_from_slice(&h.height.to_le_bytes());
    b[26..28].copy_from_slice(&h.planes.to_le_bytes());
    b[28..30].copy_from_slice(&h.bpp.to_le_bytes());
    b[30..34].copy_from_slice(&h.compression.to_le_bytes());
    b
}

/// A whole file whose stored pixel at (x, stored row) has colour `rgb(x, row)`.
fn file(h: &Header, rgb: impl Fn(usize, usize) -> (u8, u8, u8)) -> Vec<u8> {
    let mut b = header_bytes(h);
    b.resize(h.offset as usize, 0xAA);
    for row in 0..200 {
        for x in 0..200 {
            let (r, g, bl) = rgb(x, row);
            b.extend_from_slice(&[bl, g, r]);
        }
    }
    b
}

fn pixel(out: &[u8; 5000], x: usize, y: usize) -> bool {
    let i = y * 200 + x;
    out[i / 8] & (0x80 >> (i % 8)) != 0
}

#[test]
fn header_accepts_bottom_up_and_top_down() {
    let h = header_bytes(&good_header());
    assert!(matches!(parse_header::<()>(&h), Ok((54, true))));
    let h = header_bytes(&Header { height: -200, offset: 70, ..good_header() });
    assert!(matches!(parse_header::<()>(&h), Ok((70, false))));
}

#[test]
fn header_rejects_bad_signature() {
    let mut h = header_bytes(&good_header());
    h[1] = b'A';
    assert!(matches!(parse_header::<()>(&h), Err(BmpError::InvalidFormat)));
    // The signature is checked before anything else.
    let mut h = header_bytes(&Header { width: 100, ..good_header() });
    h[0] = 0;
    assert!(matches!(parse_header::<()>(&h), Err(BmpError::InvalidFormat)));
}

#[test]
fn header_rejects_unsupported_formats() {
    for h in [
        Header { width: 100, ..good_header() },
        Header { height: 199, ..good_header() },
        Header { height: i32::MIN, ..good_header() },
        Header { planes: 2, ..good_header() },
        Header { bpp: 32, ..good_header() },
        Header { compression: 1, ..good_header() },
        Header { bpp: 8, offset: 10, ..good_header() },
    ] {
        assert!(matches!(parse_header::<()>(&header_bytes(&h)), Err(BmpError::UnsupportedFormat)));
    }
}

#[test]
fn header_rejects_data_inside_header() {
    let h = header_bytes(&Header { offset: 53, ..good_header() });
    assert!(matches!(parse_header::<()>(&h), Err(BmpError::InvalidFormat)));
}

#[test]
fn white_image_sets_every_bit() {
    let f = file(&good_header(), |_, _| (255, 255, 255));
    let mut out = [0x5Au8; 5000];
    assert!(decode_bmp::<()>(&f, &mut out).is_ok());
    assert!(out.iter().all(|&b| b == 0xFF));
}

#[test]
fn black_image_clears_the_frame() {
    let f = file(&good_header(), |_, _| (0, 0, 0));
    let mut out = [0xFFu8; 5000];
    assert!(decode_bmp::<()>(&f, &mut out).is_ok());
    assert!(out.iter().all(|&b| b == 0));
}

#[test]
fn bottom_up_rows_are_turned_over() {
    let f = file(&good_header(), |x, row| if x == 3 && row == 0 { (255, 255, 255) } else { (0, 0, 0) });
    let mut out = [0u8; 5000];
    assert!(decode_bmp::<()>(&f, &mut out).is_ok());
    assert!(pixel(&out, 3, 199));
    assert_eq!(out[199 * 25], 0x10);
    assert_eq!(out.iter().filter(|&&b| b != 0).count(), 1);
}

#[test]
fn top_down_rows_keep_their_order() {
    let h = Header { height: -200, ..good_header() };
    let f = file(&h, |x, row| if x == 199 && row == 1 { (255, 255, 255) } else { (0, 0, 0) });
    let mut out = [0u8; 5000];
    assert!(decode_bmp::<()>(&f, &mut out).is_ok());
    assert!(pixel(&out, 199, 1));
    assert_eq!(out[2 * 25 - 1], 0x01);
}

#[test]
fn luminance_threshold_is_128() {
    let h = Header { height: -200, ..good_header() };
    let colours = [(128, 128, 128), (127, 127, 127), (255, 0, 0), (0, 255, 0), (0, 0, 255)];
    let f = file(&h, |x, row| if row == 0 && x < 5 { colours[x] } else { (0, 0, 0) });
    let mut out = [0u8; 5000];
    assert!(decode_bmp::<()>(&f, &mut out).is_ok());
    // (128*299 + 128*587 + 128*114) / 1000 = 128; grey 127 is dark; pure red
    // gives 76, pure green 149, pure blue 29.
    assert!(pixel(&out, 0, 0));
    assert!(!pixel(&out, 1, 0));
    assert!(!pixel(&out, 2, 0));
    assert!(pixel(&out, 3, 0));
    assert!(!pixel(&out, 4, 0));
}

#[test]
fn bytes_before_pixel_data_are_skipped() {
    let h = Header { offset: 54 + 70, height: -200, ..good_header() };
    let f = file(&h, |x, row| if x == 0 && row == 0 { (255, 255, 255) } else { (0, 0, 0) });
    let mut out = [0u8; 5000];
    assert!(decode_bmp::<()>(&f, &mut out).is_ok());
    assert_eq!(out[0], 0x80);
    assert_eq!(out.iter().filter(|&&b| b != 0).count(), 1);
}

#[test]
fn short_files_end_unexpectedly() {
    let mut out = [0u8; 5000];
    assert!(matches!(decode_bmp::<()>(&[b'B', b'M'], &mut out), Err(BmpError::UnexpectedEndOfFile)));
    let mut f = file(&good_header(), |_, _| (255, 255, 255));
    f.pop();
    assert!(matches!(decode_bmp::<()>(&f, &mut out), Err(BmpError::UnexpectedEndOfFile)));
    let h = Header { offset: 100, ..good_header() };
    let f = header_bytes(&h);
    assert!(matches!(decode_bmp::<()>(&f, &mut out), Err(BmpError::UnexpectedEndOfFile)));
}

#[test]
fn extra_bytes_after_pixel_data_are_ignored() {
    let mut f = file(&good_header(), |_, _| (255, 255, 255));
    f.extend_from_slice(&[0; 10]);
    let mut out = [0u8; 5000];
    assert!(decode_bmp::<()>(&f, &mut out).is_ok());
    assert!(out.iter().all(|&b| b == 0xFF));
}

#[test]
fn header_errors_reach_the_loader() {
    let mut out = [7u8; 5000];
    let f = file(&Header { bpp: 32, ..good_header() }, |_, _| (0, 0, 0));
    assert!(matches!(decode_bmp::<()>(&f, &mut out), Err(BmpError::UnsupportedFormat)));
    assert!(out.iter().all(|&b| b == 7));
}

#[test]
fn decoder_asks_for_header_skip_and_rows() {
    let h = Header { offset: 54 + 70, ..good_header() };
    let f = file(&h, |_, _| (255, 255, 255));
    let mut out = [0u8; 5000];
    let mut d = BmpDecoder::new();
    let mut pos = 0;
    let mut sizes = Vec::new();
    while !d.is_done() {
        let n = d.next_read_len();
        sizes.push(n);
        assert!(d.feed::<()>(&f[pos..pos + n], &mut out).is_ok());
        pos += n;
    }
    assert_eq!(&sizes[..5], &[54, 32, 32, 6, 600]);
    assert_eq!(sizes.len(), 4 + 200);
    assert_eq!(pos, f.len());
    assert_eq!(d.next_read_len(), 0);
    assert!(out.iter().all(|&b| b == 0xFF));
}

#[test]
fn decoder_clears_frame_when_rows_start() {
    let f = file(&good_header(), |_, _| (0, 0, 0));
    let mut out = [0xFFu8; 5000];
    let mut d = BmpDecoder::new();
    assert!(d.feed::<()>(&f[..54], &mut out).is_ok());
    assert!(out.iter().all(|&b| b == 0));
    assert_eq!(d.next_read_len(), 600);
    let _ = BmpStage::Done;
}

#[test]
fn flipping_the_height_sign_mirrors_the_image() {
    let pattern = |x: usize, row: usize| if (x * 7 + row * 3) % 11 < 4 { (255, 255, 255) } else { (0, 0, 0) };
    let up = file(&good_header(), pattern);
    let down = file(&Header { height: -200, ..good_header() }, pattern);
    let mut a = [0u8; 5000];
    let mut b = [0u8; 5000];
    assert!(decode_bmp::<()>(&up, &mut a).is_ok());
    assert!(decode_bmp::<()>(&down, &mut b).is_ok());
    for y in 0..200 {
        for x in 0..200 {
            assert_eq!(pixel(&a, x, y), pixel(&b, x, 199 - y));
        }
    }
}

#[test]
fn read_progress_decides_reads() {
    assert_eq!(read_progress(0, 600, 600), ReadProgress::Done);
    assert_eq!(read_progress(0, 600, 512), ReadProgress::More(512));
    assert_eq!(read_progress(512, 600, 88), ReadProgress::Done);
    assert_eq!(read_progress(512, 600, 0), ReadProgress::EndOfFile);
    assert_eq!(read_progress(0, 0, 0), ReadProgress::Done);
}

#[test]
fn file_ending_before_pixel_data_leaves_frame_alone() {
    let h = Header { offset: 200, ..good_header() };
    let mut f = header_bytes(&h);
    f.resize(150, 0);
    let mut out = [9u8; 5000];
    assert!(matches!(decode_bmp::<()>(&f, &mut out), Err(BmpError::UnexpectedEndOfFile)));
    assert!(out.iter().all(|&b| b == 9));
}
