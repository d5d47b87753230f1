use image::codecs::gif::GifEncoder;
use image::{Delay, Frame};
use tess::anim::AnimationState;
use tess::ansi::{Color, Style};
use tess::image_export::write_grid;
use tess::image_protocol::{base64_encode, encode_kitty, encode_sixel};
use tess::image_render::{decode_animation, AnimationDecode, decode_image, output_rows, parse_gif_loop_count, png_has_actl, render_image, sniff_image_format, AsciiStyle, RgbaImage};
use tess::render::Cell;

const MS: u128 = 1_000_000;

fn frames(n: usize, delay_ms: u128) -> Vec<(RgbaImage, u128)> {
    (0..n).map(|i| (RgbaImage::from_pixel(1, 1, [i as u8, 0, 0, 255]), delay_ms * MS)).collect()
}

fn solid(w: u32, h: u32, px: [u8; 4]) -> RgbaImage {
    RgbaImage::from_pixel(w, h, px)
}

fn ch(c: char, fg: Option<Color>) -> Cell {
    Cell::Char { ch: c, width: 1, style: Style { fg, bg: None, ..Default::default() }, hyperlink: None }
}

// ---- animation playback ----

#[test]
fn advances_at_delay_boundary() {
    let mut a = AnimationState::new(frames(3, 100), None);
    assert_eq!(a.frame_index(), 0);
    assert!(!a.advance(50 * MS));
    assert_eq!(a.frame_index(), 0);
    assert!(a.advance(60 * MS));
    assert_eq!(a.frame_index(), 1);
}

#[test]
fn large_dt_crosses_multiple_frames() {
    let mut a = AnimationState::new(frames(4, 100), None);
    assert!(a.advance(250 * MS));
    assert_eq!(a.frame_index(), 2);
}

#[test]
fn infinite_loop_never_finishes() {
    let mut a = AnimationState::new(frames(2, 100), None);
    a.advance(1000 * MS);
    assert!(!a.is_finished());
    assert!(a.is_playing());
}

#[test]
fn finite_loop_finishes_on_last_frame() {
    let mut a = AnimationState::new(frames(3, 100), Some(1));
    a.advance(300 * MS);
    assert!(a.is_finished());
    assert!(!a.is_playing());
    assert_eq!(a.frame_index(), 2);
    assert_eq!(a.next_deadline(), None);
    assert!(!a.advance(500 * MS));
}

#[test]
fn pause_blocks_advance_and_resume_restores() {
    let mut a = AnimationState::new(frames(3, 100), None);
    a.toggle_pause();
    assert!(!a.is_playing());
    assert!(!a.advance(500 * MS));
    assert_eq!(a.frame_index(), 0);
    a.toggle_pause();
    assert!(a.is_playing());
}

#[test]
fn step_wraps_and_pauses() {
    let mut a = AnimationState::new(frames(3, 100), None);
    a.step(-1);
    assert_eq!(a.frame_index(), 2);
    assert!(!a.is_playing());
    a.step(1);
    assert_eq!(a.frame_index(), 0);
}

#[test]
fn restart_resets() {
    let mut a = AnimationState::new(frames(3, 100), Some(1));
    a.advance(300 * MS);
    a.restart();
    assert_eq!(a.frame_index(), 0);
    assert!(a.is_playing());
    assert!(!a.is_finished());
}

#[test]
fn toggle_pause_revives_finished() {
    let mut a = AnimationState::new(frames(2, 100), Some(1));
    a.advance(200 * MS);
    assert!(a.is_finished());
    a.toggle_pause();
    assert!(a.is_playing() && !a.is_finished() && a.frame_index() == 0);
}

#[test]
fn zero_delay_floored_not_busy_loop() {
    let mut a = AnimationState::new(frames(2, 0), None);
    assert!(!a.advance(50 * MS));
    assert!(a.advance(60 * MS));
}

#[test]
fn next_deadline_counts_down_within_a_frame() {
    let mut a = AnimationState::new(frames(3, 100), None);
    assert_eq!(a.next_deadline(), Some(100 * MS));
    a.advance(30 * MS);
    assert_eq!(a.next_deadline(), Some(70 * MS));
    a.toggle_pause();
    assert_eq!(a.next_deadline(), None);
}

#[test]
fn single_frame_never_advances() {
    let mut a = AnimationState::new(frames(1, 100), None);
    assert!(!a.advance(10_000 * MS));
    assert_eq!(a.next_deadline(), None);
    assert_eq!(a.frame_count(), 1);
}

#[test]
fn step_forward_then_back_returns_to_the_same_frame() {
    let mut a = AnimationState::new(frames(4, 100), None);
    a.step(2);
    a.step(1);
    a.step(-1);
    assert_eq!(a.frame_index(), 2);
    a.step(-7);
    assert_eq!(a.frame_index(), 3);
}

#[test]
fn current_frame_is_the_frame_on_show() {
    let mut a = AnimationState::new(frames(3, 100), None);
    a.advance(100 * MS);
    assert_eq!(a.current_frame().get_pixel(0, 0), [1, 0, 0, 255]);
}

#[test]
fn finite_loop_of_two_plays_twice() {
    let mut a = AnimationState::new(frames(2, 100), Some(2));
    a.advance(200 * MS);
    assert!(!a.is_finished());
    assert_eq!(a.frame_index(), 0);
    a.advance(200 * MS);
    assert!(a.is_finished());
    assert_eq!(a.frame_index(), 1);
}

// ---- image to ASCII ----

#[test]
fn output_rows_corrects_aspect_for_ramp() {
    let rows = output_rows(100, 100, 50, AsciiStyle::Ramp);
    assert_eq!(rows, 25);
}

#[test]
fn output_rows_blocks_same_cell_rows_as_ramp() {
    let ramp = output_rows(100, 100, 50, AsciiStyle::Ramp);
    let blocks = output_rows(100, 100, 50, AsciiStyle::Blocks);
    assert_eq!(blocks, ramp);
}

#[test]
fn output_rows_of_a_wide_image_is_at_least_one() {
    assert_eq!(output_rows(1000, 1, 10, AsciiStyle::Ramp), 1);
    assert_eq!(output_rows(0, 0, 10, AsciiStyle::Ramp), 1);
}

#[test]
fn ramp_white_pixel_is_densest_glyph() {
    let img = solid(4, 4, [255, 255, 255, 255]);
    let grid = render_image(&img, 4, AsciiStyle::Ramp, true);
    match &grid[0][0] {
        Cell::Char { ch, style, .. } => {
            assert_eq!(*ch, '@');
            assert_eq!(style.fg, Some(Color::Rgb(255, 255, 255)));
        }
        other => panic!("expected Char, got {other:?}"),
    }
}

#[test]
fn ramp_black_pixel_is_space() {
    let img = solid(4, 4, [0, 0, 0, 255]);
    let grid = render_image(&img, 4, AsciiStyle::Ramp, true);
    match &grid[0][0] {
        Cell::Char { ch, .. } => assert_eq!(*ch, ' '),
        other => panic!("expected Char, got {other:?}"),
    }
}

#[test]
fn ramp_no_color_sets_default_fg() {
    let img = solid(4, 4, [255, 255, 255, 255]);
    let grid = render_image(&img, 4, AsciiStyle::Ramp, false);
    match &grid[0][0] {
        Cell::Char { ch, style, .. } => {
            assert_eq!(*ch, '@');
            assert_eq!(style.fg, None);
        }
        other => panic!("expected Char, got {other:?}"),
    }
}

#[test]
fn grid_width_matches_requested_cols() {
    let img = solid(40, 40, [128, 128, 128, 255]);
    let grid = render_image(&img, 20, AsciiStyle::Ramp, true);
    assert!(grid.iter().all(|row| row.len() == 20));
}

#[test]
fn average_block_weights_by_alpha_not_pixel_count() {
    let mut img = RgbaImage::new(2, 1);
    img.put_pixel(0, 0, [255, 255, 255, 255]);
    img.put_pixel(1, 0, [0, 0, 0, 0]);
    let grid = render_image(&img, 1, AsciiStyle::Ramp, true);
    match &grid[0][0] {
        Cell::Char { style, .. } => {
            assert_eq!(style.fg, Some(Color::Rgb(255, 255, 255)),
                "opaque white must dominate the transparent pixel");
        }
        other => panic!("expected Char, got {other:?}"),
    }
}

#[test]
fn blocks_sets_fg_top_and_bg_bottom() {
    let mut img = RgbaImage::new(2, 2);
    for x in 0..2 { img.put_pixel(x, 0, [255, 255, 255, 255]); }
    for x in 0..2 { img.put_pixel(x, 1, [0, 0, 0, 255]); }
    let grid = render_image(&img, 2, AsciiStyle::Blocks, true);
    match &grid[0][0] {
        Cell::Char { ch, style, .. } => {
            assert_eq!(*ch, '▀');
            assert_eq!(style.fg, Some(Color::Rgb(255, 255, 255)), "fg = top");
            assert_eq!(style.bg, Some(Color::Rgb(0, 0, 0)), "bg = bottom");
        }
        other => panic!("expected Char, got {other:?}"),
    }
}

#[test]
fn blocks_no_color_uses_block_shades() {
    let img = RgbaImage::from_pixel(2, 2, [255, 255, 255, 255]);
    let grid = render_image(&img, 2, AsciiStyle::Blocks, false);
    match &grid[0][0] {
        Cell::Char { ch, style, .. } => {
            assert_eq!(*ch, '█', "brightest → full block");
            assert_eq!(style.fg, None);
            assert_eq!(style.bg, None);
        }
        other => panic!("expected Char, got {other:?}"),
    }
}

#[test]
fn fully_transparent_block_is_blank() {
    let img = solid(2, 2, [200, 200, 200, 0]);
    let grid = render_image(&img, 2, AsciiStyle::Ramp, true);
    match &grid[0][0] {
        Cell::Char { ch, style, .. } => {
            assert_eq!(*ch, ' ');
            assert_eq!(style.fg, Some(Color::Rgb(0, 0, 0)));
        }
        other => panic!("expected Char, got {other:?}"),
    }
}

#[test]
fn gif_loop_count_parses_netscape_extension() {
    let mut g = Vec::new();
    g.extend_from_slice(b"GIF89a");
    g.extend_from_slice(&[0, 0, 0, 0, 0, 0, 0]);
    g.extend_from_slice(&[0x21, 0xFF, 0x0B]);
    g.extend_from_slice(b"NETSCAPE2.0");
    g.extend_from_slice(&[0x03, 0x01, 0x00, 0x00, 0x00]);
    assert_eq!(parse_gif_loop_count(&g), Some(0));

    let mut g3 = g.clone();
    let pos = g3.len() - 3;
    g3[pos] = 3;
    assert_eq!(parse_gif_loop_count(&g3), Some(3));

    assert_eq!(parse_gif_loop_count(b"GIF89a not animated"), None);
}

#[test]
fn gif_loop_count_reads_the_high_byte() {
    let mut g = Vec::new();
    g.extend_from_slice(&[0x21, 0xFF, 0x0B]);
    g.extend_from_slice(b"NETSCAPE2.0");
    g.extend_from_slice(&[0x03, 0x01, 0x02, 0x01]);
    assert_eq!(parse_gif_loop_count(&g), Some(258));
    g.truncate(g.len() - 1);
    assert_eq!(parse_gif_loop_count(&g), None);
}

#[test]
fn png_has_actl_detects_apng_chunk() {
    assert!(png_has_actl(b"\x89PNG....acTL....IDAT...."));
    assert!(!png_has_actl(b"\x89PNG....IHDR....IDAT....IEND"));
}

// ---- export and terminal protocols ----

#[test]
fn plain_writes_chars_only() {
    let grid = vec![vec![ch('@', Some(Color::Rgb(1, 2, 3))), ch('.', None)]];
    let mut buf = Vec::new();
    write_grid(&mut buf, &grid, false);
    assert_eq!(String::from_utf8(buf).unwrap(), "@.\n");
}

#[test]
fn color_emits_truecolor_sgr_and_reset() {
    let grid = vec![vec![ch('@', Some(Color::Rgb(10, 20, 30)))]];
    let mut buf = Vec::new();
    write_grid(&mut buf, &grid, true);
    assert_eq!(String::from_utf8(buf).unwrap(), "\x1b[38;2;10;20;30m@\x1b[0m\n");
}

#[test]
fn write_grid_appends_after_existing_bytes() {
    let grid = vec![vec![ch('a', None)], vec![ch('é', None)]];
    let mut buf = b">".to_vec();
    write_grid(&mut buf, &grid, false);
    assert_eq!(String::from_utf8(buf).unwrap(), ">a\né\n");
}

#[test]
fn base64_known_vectors() {
    assert_eq!(base64_encode(b""), "");
    assert_eq!(base64_encode(b"f"), "Zg==");
    assert_eq!(base64_encode(b"fo"), "Zm8=");
    assert_eq!(base64_encode(b"foo"), "Zm9v");
    assert_eq!(base64_encode(b"foob"), "Zm9vYg==");
    assert_eq!(base64_encode(b"hello, world"), "aGVsbG8sIHdvcmxk");
}

#[test]
fn kitty_has_header_keys_and_terminator() {
    let img = RgbaImage::from_pixel(2, 1, [1, 2, 3, 255]);
    let out = encode_kitty(&img);
    let s = String::from_utf8_lossy(&out);
    assert!(s.starts_with("\x1b_G"));
    assert!(s.contains("a=T,f=32,s=2,v=1,m=0"));
    assert!(s.ends_with("\x1b\\"));
    let expected_payload = base64_encode(img.as_raw());
    assert!(s.contains(&expected_payload));
}

#[test]
fn kitty_chunks_large_payload_with_more_flags() {
    let img = RgbaImage::from_pixel(1000, 1, [9, 9, 9, 9]);
    let out = encode_kitty(&img);
    let s = String::from_utf8_lossy(&out);
    assert!(s.matches("\x1b_G").count() >= 2, "should split into multiple APCs");
    assert!(s.contains("m=1"), "non-final chunks set m=1");
    assert!(s.contains("m=0"), "final chunk sets m=0");
}

#[test]
fn kitty_small_image_is_one_exact_command() {
    let img = RgbaImage::from_pixel(1, 1, [1, 2, 3, 4]);
    let out = encode_kitty(&img);
    assert_eq!(String::from_utf8(out).unwrap(), "\x1b_Ga=T,f=32,s=1,v=1,m=0;AQIDBA==\x1b\\");
}

// ---- recognizing and decoding ----

#[test]
fn sniff_detects_png_and_gif_and_rejects_text() {
    let png = [0x89, b'P', b'N', b'G', 0x0d, 0x0a, 0x1a, 0x0a];
    assert_eq!(sniff_image_format(&png), Some("png"));
    let gif = b"GIF89a............";
    assert_eq!(sniff_image_format(gif), Some("gif"));
    assert_eq!(sniff_image_format(b"hello, world\n"), None);
    assert_eq!(sniff_image_format(b""), None);
}

#[test]
fn sniff_names_jpeg_and_bmp() {
    assert_eq!(sniff_image_format(&[0xff, 0xd8, 0xff, 0xe0]), Some("jpeg"));
    assert_eq!(sniff_image_format(b"BM......"), Some("bmp"));
}

#[test]
fn decode_roundtrips_a_generated_png() {
    let src = image::RgbaImage::from_pixel(3, 2, image::Rgba([10, 20, 30, 255]));
    let mut buf = std::io::Cursor::new(Vec::new());
    image::DynamicImage::ImageRgba8(src.clone())
        .write_to(&mut buf, image::ImageFormat::Png)
        .unwrap();
    let decoded = decode_image(buf.get_ref()).unwrap();
    assert_eq!(decoded.dimensions(), (3, 2));
    assert_eq!(decoded.get_pixel(0, 0), [10, 20, 30, 255]);
}

#[test]
fn decode_rejects_text_with_a_message() {
    match decode_image(b"not an image at all") {
        Err(m) => assert!(!m.is_empty()),
        Ok(_) => panic!("text decoded as an image"),
    }
}

fn make_two_frame_gif() -> Vec<u8> {
    let mut out = Vec::new();
    {
        let mut enc = GifEncoder::new(&mut out);
        for c in [0u8, 200] {
            let img = image::RgbaImage::from_pixel(2, 2, image::Rgba([c, c, c, 255]));
            let frame = Frame::from_parts(img, 0, 0, Delay::from_numer_denom_ms(100, 1));
            enc.encode_frame(frame).unwrap();
        }
    }
    out
}

#[test]
fn decode_animation_reads_frames_or_static() {
    let png = {
        let src = image::RgbaImage::from_pixel(2, 2, image::Rgba([1, 2, 3, 255]));
        let mut buf = std::io::Cursor::new(Vec::new());
        image::DynamicImage::ImageRgba8(src)
            .write_to(&mut buf, image::ImageFormat::Png)
            .unwrap();
        buf.into_inner()
    };
    assert!(
        matches!(decode_animation(&png), AnimationDecode::Static),
        "static image is not an animation"
    );

    let gif = make_two_frame_gif();
    match decode_animation(&gif) {
        AnimationDecode::Animated(anim) => assert_eq!(anim.frames.len(), 2),
        _ => panic!("two-frame GIF should decode as Animated"),
    }
}

#[test]
fn decoded_gif_frames_play_with_their_delays() {
    let gif = make_two_frame_gif();
    let anim = match decode_animation(&gif) {
        AnimationDecode::Animated(a) => a,
        _ => panic!("expected an animation"),
    };
    assert_eq!(anim.frames[0].1, 100_000_000);
    assert_eq!(anim.frames[0].0.dimensions(), (2, 2));
    let mut state = AnimationState::new(anim.frames, anim.loop_count);
    assert!(state.advance(100 * MS));
    assert_eq!(state.frame_index(), 1);
}

#[test]
fn text_is_not_an_animation() {
    assert!(matches!(decode_animation(b"hello"), AnimationDecode::Static));
    assert!(matches!(decode_animation(b""), AnimationDecode::Static));
}

// ---- sixel ----

/// A 256-color palette where index `i` is gray `i`, but for the colors the
/// tests use.
fn sixel_palette() -> Vec<(u8, u8, u8)> {
    let mut p: Vec<(u8, u8, u8)> = (0..=255u8).map(|i| (i, i, i)).collect();
    p[196] = (255, 0, 0);
    p[21] = (0, 0, 255);
    p[231] = (255, 255, 255);
    p
}

#[test]
fn sixel_has_intro_palette_and_terminator() {
    let out = encode_sixel(2, 6, &[196; 12], &sixel_palette());
    let s = String::from_utf8_lossy(&out);
    assert!(s.starts_with("\x1bPq"), "DCS sixel intro");
    assert!(s.ends_with("\x1b\\"), "ST terminator");
    assert!(s.contains(";2;"), "RGB palette definition present");
}

#[test]
fn sixel_full_height_uses_all_six_bits() {
    let out = encode_sixel(1, 6, &[231; 6], &sixel_palette());
    let s = String::from_utf8_lossy(&out);
    assert!(s.contains('~'), "all six rows set: '~' (0x3F+63)");
}

#[test]
fn sixel_emits_band_separator_for_tall_images() {
    let out = encode_sixel(1, 12, &[17; 12], &sixel_palette());
    let s = String::from_utf8_lossy(&out);
    assert!(s.contains('-'), "two bands (12px = 2x6) separated by '-'");
}

#[test]
fn sixel_emits_rle_for_long_runs() {
    let out = encode_sixel(5, 6, &[231; 30], &sixel_palette());
    let s = String::from_utf8_lossy(&out);
    assert!(s.contains("!5"), "a 5-wide solid run should emit RLE !5, got: {s:?}");
}

#[test]
fn sixel_overlays_multiple_colors_in_a_band_with_dollar() {
    let mut q = Vec::new();
    for _ in 0..6 {
        q.push(196u8);
        q.push(21u8);
    }
    let out = encode_sixel(2, 6, &q, &sixel_palette());
    let s = String::from_utf8_lossy(&out);
    assert!(s.contains('$'), "two colors in one band must be overlaid with `$`, got: {s:?}");
    assert!(s.matches(";2;").count() >= 2, "two palette colors defined");
    assert_eq!(s, "\x1bPq#1;2;0;0;100#0;2;100;0;0#1?~$#0~?\x1b\\");
}

#[test]
fn sixel_empty_image_is_intro_and_terminator() {
    assert_eq!(encode_sixel(0, 3, &[], &sixel_palette()), b"\x1bPq\x1b\\");
}

#[test]
fn sixel_short_last_band_and_runs() {
    // 4 wide, 7 tall, one color: the first band has all six bits, the
    // second only its top row.
    let out = encode_sixel(4, 7, &[9; 28], &sixel_palette());
    assert_eq!(String::from_utf8(out).unwrap(), "\x1bPq#0;2;3;3;3#0!4~-#0!4@\x1b\\");
}
