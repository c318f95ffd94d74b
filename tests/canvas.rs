use osdbuf::color::{premultiply, rgba_to_hex, unpremultiply};
use osdbuf::{hex_to_rgba, map_blend_mode, FrameBuffer};
use tiny_skia::BlendMode;

fn pixel_bytes(fb: &mut FrameBuffer, x: usize, y: usize) -> [u8; 4] {
    let w = fb.width() as usize;
    let p = fb.pixels_mut();
    let o = (y * w + x) * 4;
    [p[o], p[o + 1], p[o + 2], p[o + 3]]
}

#[test]
fn new_canvas_defaults() {
    let mut buf = vec![0u8; 6 * 4 * 4];
    let fb = FrameBuffer::new(&mut buf, 6, 4);
    assert_eq!(fb.width(), 6);
    assert_eq!(fb.height(), 4);
    assert_eq!((fb.cx, fb.cy), (3, 2));
    assert!(fb.antialias);
    assert!(fb.clip_data().is_none());
}

#[test]
fn opaque_fill_reads_back_everywhere() {
    let mut buf = vec![7u8; 3 * 2 * 4];
    let mut fb = FrameBuffer::new(&mut buf, 3, 2);
    let color = 0x123456FF;
    let (r, g, b, a) = hex_to_rgba(color);
    fb.fill_solid(r, g, b, a);
    for y in 0..2 {
        for x in 0..3 {
            assert_eq!(fb.get_pixel_raw(x, y), color);
        }
    }
}

#[test]
fn transparent_fill_clears() {
    let mut buf = vec![200u8; 2 * 2 * 4];
    let mut fb = FrameBuffer::new(&mut buf, 2, 2);
    fb.fill_solid(10, 20, 30, 0);
    drop(fb);
    assert!(buf.iter().all(|&v| v == 0));
}

#[test]
fn end_to_end_fill_then_green_rect() {
    let mut buf = vec![0u8; 4 * 4 * 4];
    let mut fb = FrameBuffer::new(&mut buf, 4, 4);
    let (r, g, b, a) = hex_to_rgba(0xFF0000FF);
    fb.fill_solid(r, g, b, a);
    let (r, g, b, a) = hex_to_rgba(0x00FF00FF);
    let ctm = fb.ctm;
    let aa = fb.antialias;
    {
        let mut pm = tiny_skia::PixmapMut::from_bytes(fb.pixels_mut(), 4, 4).unwrap();
        let mut paint = tiny_skia::Paint::default();
        paint.set_color_rgba8(r, g, b, a);
        paint.blend_mode = map_blend_mode(0);
        paint.anti_alias = aa;
        let rect = tiny_skia::Rect::from_xywh(1.0, 1.0, 2.0, 2.0).unwrap();
        pm.fill_rect(rect, &paint, ctm, None);
    }
    assert_eq!(fb.get_pixel_raw(1, 1), 0x00FF00FF);
    assert_eq!(fb.get_pixel_raw(2, 2), 0x00FF00FF);
    assert_eq!(fb.get_pixel_raw(0, 0), 0xFF0000FF);
    assert_eq!(fb.get_pixel_raw(3, 3), 0xFF0000FF);
}

#[test]
fn set_pixel_premultiplies_with_rounding() {
    let mut buf = vec![0u8; 2 * 2 * 4];
    let mut fb = FrameBuffer::new(&mut buf, 2, 2);
    fb.set_pixel(1, 0, 255, 100, 0, 128);
    // 255*128/255 = 128, 100*128/255 = 50.2 -> 50
    assert_eq!(pixel_bytes(&mut fb, 1, 0), [128, 50, 0, 128]);
    fb.set_pixel(0, 1, 1, 2, 3, 51);
    // 1*51/255 = 0.2 -> 0, 2*51/255 = 0.4 -> 0, 3*51/255 = 0.6 -> 1
    assert_eq!(pixel_bytes(&mut fb, 0, 1), [0, 0, 1, 51]);
}

#[test]
fn set_pixel_outside_is_ignored() {
    let mut buf = vec![0u8; 2 * 2 * 4];
    let mut fb = FrameBuffer::new(&mut buf, 2, 2);
    fb.set_pixel(-1, 0, 255, 255, 255, 255);
    fb.set_pixel(2, 0, 255, 255, 255, 255);
    fb.set_pixel(0, 2, 255, 255, 255, 255);
    drop(fb);
    assert!(buf.iter().all(|&v| v == 0));
}

#[test]
fn get_pixel_outside_or_transparent_is_zero() {
    let mut buf = vec![0u8; 2 * 2 * 4];
    let mut fb = FrameBuffer::new(&mut buf, 2, 2);
    fb.set_pixel(0, 0, 9, 9, 9, 0);
    assert_eq!(fb.get_pixel_raw(0, 0), 0);
    assert_eq!(fb.get_pixel_raw(5, 0), 0);
    assert_eq!(fb.get_pixel_raw(0, -1), 0);
}

#[test]
fn get_pixel_unpremultiplies_and_saturates() {
    let mut buf = vec![0u8; 4];
    buf.copy_from_slice(&[50, 200, 255, 100]);
    let fb = FrameBuffer::new(&mut buf, 1, 1);
    // 50*255/100 = 127.5 -> 128; 200 and 255 exceed alpha -> 255
    assert_eq!(fb.get_pixel_raw(0, 0), 0x80FFFF64);
}

#[test]
fn opaque_and_transparent_round_trip_exactly() {
    let mut buf = vec![0u8; 4];
    let mut fb = FrameBuffer::new(&mut buf, 1, 1);
    for c in 0..=255u8 {
        fb.set_pixel(0, 0, c, 255 - c, c / 2, 255);
        assert_eq!(fb.get_pixel_raw(0, 0), rgba_to_hex(c, 255 - c, c / 2, 255));
        fb.set_pixel(0, 0, c, c, c, 0);
        assert_eq!(fb.get_pixel_raw(0, 0), 0);
    }
}

#[test]
fn intermediate_alpha_round_trip_within_one() {
    let mut buf = vec![0u8; 4];
    let mut fb = FrameBuffer::new(&mut buf, 1, 1);
    for a in 85..=254u8 {
        for c in 0..=255u8 {
            fb.set_pixel(0, 0, c, c, c, a);
            let (r, _, _, ra) = hex_to_rgba(fb.get_pixel_raw(0, 0));
            assert_eq!(ra, a);
            assert!((r as i32 - c as i32).abs() <= 1, "c={} a={} got {}", c, a, r);
        }
    }
}

#[test]
fn low_alpha_round_trip_can_miss_by_two() {
    let s = premultiply(41, 84);
    // 41 * 84 / 255 = 13.5 -> 14; 14 * 255 / 84 = 42.5 -> 43
    assert_eq!(s, 14);
    assert_eq!(unpremultiply(s, 84), 43);
}

#[test]
fn scroll_down_moves_first_row() {
    let mut buf = vec![0u8; 3 * 3 * 4];
    let mut fb = FrameBuffer::new(&mut buf, 3, 3);
    for x in 0..3 {
        fb.set_pixel(x, 0, 10 * (x as u8 + 1), 0, 0, 255);
    }
    fb.set_pixel(1, 1, 0, 99, 0, 255);
    fb.scroll(0, 1);
    for x in 0..3 {
        assert_eq!(fb.get_pixel_raw(x, 0), 0);
        assert_eq!(fb.get_pixel_raw(x, 1), rgba_to_hex(10 * (x as u8 + 1), 0, 0, 255));
    }
    assert_eq!(fb.get_pixel_raw(1, 2), rgba_to_hex(0, 99, 0, 255));
}

#[test]
fn scroll_left_and_up_fills_right_and_bottom() {
    let mut buf = vec![0u8; 3 * 2 * 4];
    let mut fb = FrameBuffer::new(&mut buf, 3, 2);
    fb.set_pixel(2, 1, 1, 2, 3, 255);
    fb.scroll(-1, -1);
    assert_eq!(fb.get_pixel_raw(1, 0), rgba_to_hex(1, 2, 3, 255));
    assert_eq!(fb.get_pixel_raw(2, 0), 0);
    assert_eq!(fb.get_pixel_raw(2, 1), 0);
}

#[test]
fn scroll_by_canvas_size_clears() {
    let mut buf = vec![0u8; 2 * 2 * 4];
    let mut fb = FrameBuffer::new(&mut buf, 2, 2);
    fb.fill_solid(1, 2, 3, 255);
    fb.scroll(2, 0);
    drop(fb);
    assert!(buf.iter().all(|&v| v == 0));
    let mut buf = vec![0u8; 2 * 2 * 4];
    let mut fb = FrameBuffer::new(&mut buf, 2, 2);
    fb.fill_solid(1, 2, 3, 255);
    fb.scroll(0, -5);
    drop(fb);
    assert!(buf.iter().all(|&v| v == 0));
}

#[test]
fn scroll_by_zero_changes_nothing() {
    let mut buf: Vec<u8> = (0..16u8).collect();
    let mut fb = FrameBuffer::new(&mut buf, 2, 2);
    fb.scroll(0, 0);
    drop(fb);
    assert_eq!(buf, (0..16u8).collect::<Vec<u8>>());
}

#[test]
fn push_then_pop_restores_clip_and_transform() {
    let mut buf = vec![0u8; 2 * 2 * 4];
    let mut fb = FrameBuffer::new(&mut buf, 2, 2);
    let clip = vec![255u8, 0, 128, 7];
    assert!(fb.set_clip_data(Some(clip.clone())));
    let t = tiny_skia::Transform::from_row(2.0, 0.0, 0.0, 3.0, 4.0, 5.0);
    fb.ctm = t;
    fb.gstate_push();
    fb.ctm = tiny_skia::Transform::identity();
    assert!(fb.set_clip_data(None));
    fb.gstate_pop();
    assert_eq!(fb.ctm, t);
    assert_eq!(fb.clip_data(), Some(clip));
}

#[test]
fn pop_on_empty_stack_changes_nothing() {
    let mut buf = vec![0u8; 4];
    let mut fb = FrameBuffer::new(&mut buf, 1, 1);
    assert!(fb.set_clip_data(Some(vec![9])));
    fb.gstate_pop();
    assert_eq!(fb.clip_data(), Some(vec![9]));
    assert_eq!(fb.ctm, tiny_skia::Transform::identity());
}

#[test]
fn clip_of_wrong_size_is_refused() {
    let mut buf = vec![0u8; 2 * 2 * 4];
    let mut fb = FrameBuffer::new(&mut buf, 2, 2);
    assert!(!fb.set_clip_data(Some(vec![1, 2, 3])));
    assert!(fb.clip_data().is_none());
}

#[test]
fn yuv_compensation_gives_transparent_partner_a_fifth() {
    let mut buf = vec![0u8; 2 * 4];
    let mut fb = FrameBuffer::new(&mut buf, 2, 1);
    fb.set_pixel(0, 0, 255, 0, 0, 255);
    fb.apply_yuv422_compensation(0, 0, 2, 1);
    assert_eq!(pixel_bytes(&mut fb, 1, 0), [255, 0, 0, 51]);
    assert_eq!(pixel_bytes(&mut fb, 0, 0), [255, 0, 0, 255]);
}

#[test]
fn yuv_alpha_matches_twenty_percent_truncated() {
    for a in 1..=255u8 {
        let mut buf = vec![0u8; 2 * 4];
        buf[4..8].copy_from_slice(&[1, 2, 3, a]);
        let mut fb = FrameBuffer::new(&mut buf, 2, 1);
        fb.apply_yuv422_compensation(0, 0, 2, 1);
        drop(fb);
        assert_eq!(&buf[0..3], &[1, 2, 3]);
        assert_eq!(buf[3], (a as f32 * 0.2) as u8);
    }
}

#[test]
fn yuv_leaves_full_and_empty_pairs() {
    let mut buf = vec![0u8; 4 * 4];
    buf[0..8].copy_from_slice(&[1, 1, 1, 9, 2, 2, 2, 8]);
    let before = buf.clone();
    let mut fb = FrameBuffer::new(&mut buf, 4, 1);
    fb.apply_yuv422_compensation(0, 0, 4, 1);
    drop(fb);
    assert_eq!(buf, before);
}

#[test]
fn yuv_region_aligns_to_even_columns() {
    // The region starting at x = 1 begins at the pair (0, 1); the one ending at
    // x = 3 (exclusive) stops before the pair (2, 3).
    let mut buf = vec![0u8; 4 * 4];
    buf[0..4].copy_from_slice(&[5, 6, 7, 200]);
    buf[8..12].copy_from_slice(&[5, 6, 7, 200]);
    let mut fb = FrameBuffer::new(&mut buf, 4, 1);
    fb.apply_yuv422_compensation(1, 0, 2, 1);
    drop(fb);
    assert_eq!(&buf[4..8], &[5, 6, 7, 40]);
    assert_eq!(&buf[12..16], &[0, 0, 0, 0]);
}

#[test]
fn yuv_outside_canvas_does_nothing() {
    let mut buf = vec![0u8; 2 * 4];
    buf[0..4].copy_from_slice(&[5, 6, 7, 200]);
    let before = buf.clone();
    let mut fb = FrameBuffer::new(&mut buf, 2, 1);
    fb.apply_yuv422_compensation(-10, 0, 5, 1);
    fb.apply_yuv422_compensation(0, 3, 2, 2);
    drop(fb);
    assert_eq!(buf, before);
}

#[test]
fn checkerboard_alternates_tiles() {
    let mut buf = vec![0u8; 4 * 2 * 4];
    let mut fb = FrameBuffer::new(&mut buf, 4, 2);
    fb.draw_checkerboard(2);
    assert_eq!(pixel_bytes(&mut fb, 0, 0), [0xCC, 0xCC, 0xCC, 0xFF]);
    assert_eq!(pixel_bytes(&mut fb, 1, 1), [0xCC, 0xCC, 0xCC, 0xFF]);
    assert_eq!(pixel_bytes(&mut fb, 2, 0), [0x99, 0x99, 0x99, 0xFF]);
    assert_eq!(pixel_bytes(&mut fb, 3, 1), [0x99, 0x99, 0x99, 0xFF]);
}

#[test]
fn checkerboard_of_no_size_paints_nothing() {
    let mut buf = vec![0u8; 2 * 2 * 4];
    let mut fb = FrameBuffer::new(&mut buf, 2, 2);
    fb.draw_checkerboard(0);
    fb.draw_checkerboard(-3);
    drop(fb);
    assert!(buf.iter().all(|&v| v == 0));
}

#[test]
fn hline_and_vline_paint_raw_pixels() {
    let mut buf = vec![0u8; 4 * 4 * 4];
    let mut fb = FrameBuffer::new(&mut buf, 4, 4);
    fb.draw_hline(0, 1, 4, 255, 255, 255, 255, BlendMode::SourceOver);
    fb.draw_vline(3, 0, 4, 0, 0, 255, 255, BlendMode::SourceOver);
    for x in 0..3 {
        assert_eq!(fb.get_pixel_raw(x, 1), 0xFFFFFFFF);
        assert_eq!(fb.get_pixel_raw(x, 0), 0);
        assert_eq!(fb.get_pixel_raw(x, 2), 0);
    }
    for y in 0..4 {
        assert_eq!(fb.get_pixel_raw(3, y), 0x0000FFFF);
    }
}

#[test]
fn rect_outline_leaves_interior() {
    let mut buf = vec![0u8; 4 * 4 * 4];
    let mut fb = FrameBuffer::new(&mut buf, 4, 4);
    fb.draw_rect(0, 0, 4, 4, 255, 0, 0, 255, BlendMode::SourceOver);
    assert_eq!(fb.get_pixel_raw(0, 0), 0xFF0000FF);
    assert_eq!(fb.get_pixel_raw(3, 0), 0xFF0000FF);
    assert_eq!(fb.get_pixel_raw(0, 3), 0xFF0000FF);
    assert_eq!(fb.get_pixel_raw(3, 3), 0xFF0000FF);
    assert_eq!(fb.get_pixel_raw(2, 3), 0xFF0000FF);
    assert_eq!(fb.get_pixel_raw(1, 1), 0);
    assert_eq!(fb.get_pixel_raw(2, 2), 0);
}

#[test]
fn empty_rect_outline_draws_nothing() {
    let mut buf = vec![0u8; 2 * 2 * 4];
    let mut fb = FrameBuffer::new(&mut buf, 2, 2);
    fb.draw_rect(0, 0, 0, 2, 255, 0, 0, 255, BlendMode::SourceOver);
    fb.draw_rect(0, 0, 2, -1, 255, 0, 0, 255, BlendMode::SourceOver);
    drop(fb);
    assert!(buf.iter().all(|&v| v == 0));
}

#[test]
fn fill_over_opaque_replaces_and_clear_keeps() {
    let mut buf = vec![0u8; 2 * 2 * 4];
    let mut fb = FrameBuffer::new(&mut buf, 2, 2);
    fb.fill_over(0, 128, 255, 255);
    assert_eq!(fb.get_pixel_raw(1, 1), 0x0080FFFF);
    fb.fill_over(255, 0, 0, 0);
    assert_eq!(fb.get_pixel_raw(1, 1), 0x0080FFFF);
}

#[test]
fn blit_copies_opaque_source() {
    let mut buf = vec![0u8; 3 * 3 * 4];
    let mut fb = FrameBuffer::new(&mut buf, 3, 3);
    let src = [10u8, 20, 30, 255, 40, 50, 60, 255];
    fb.blit(&src, 2, 1, 1, 2, false);
    assert_eq!(fb.get_pixel_raw(1, 2), 0x0A141EFF);
    assert_eq!(fb.get_pixel_raw(2, 2), 0x28323CFF);
    assert_eq!(fb.get_pixel_raw(0, 2), 0);
}

#[test]
fn blit_ignores_empty_or_short_source() {
    let mut buf = vec![0u8; 2 * 2 * 4];
    let mut fb = FrameBuffer::new(&mut buf, 2, 2);
    let src = [255u8; 8];
    fb.blit(&src, 0, 1, 0, 0, false);
    fb.blit(&src, 3, 1, 0, 0, false);
    fb.blit(&src, 2, -1, 0, 0, true);
    drop(fb);
    assert!(buf.iter().all(|&v| v == 0));
}

#[test]
fn translucent_fill_premultiplies_to_nearest() {
    let mut buf = vec![0u8; 2 * 4];
    let mut fb = FrameBuffer::new(&mut buf, 2, 1);
    fb.fill_solid(255, 100, 3, 128);
    assert_eq!(
        pixel_bytes(&mut fb, 1, 0),
        [premultiply(255, 128), premultiply(100, 128), premultiply(3, 128), 128]
    );
    for a in 1..=254u8 {
        for c in [0u8, 1, 77, 128, 200, 255] {
            fb.fill_solid(c, c, c, a);
            let s = premultiply(c, a);
            assert_eq!(pixel_bytes(&mut fb, 0, 0), [s, s, s, a]);
        }
    }
}

#[test]
fn blit_far_off_canvas_is_skipped() {
    let mut buf = vec![0u8; 4 * 4 * 4];
    let mut fb = FrameBuffer::new(&mut buf, 4, 4);
    let src = [255u8; 4];
    fb.blit(&src, 1, 1, i32::MAX, 0, false);
    fb.blit(&src, 1, 1, 0, i32::MAX, true);
    fb.blit(&src, 1, 1, i32::MAX - 1, i32::MAX - 1, false);
    drop(fb);
    assert!(buf.iter().all(|&v| v == 0));
}

#[test]
fn blit_leaves_pixels_outside_its_rectangle() {
    let mut buf = vec![0u8; 3 * 3 * 4];
    let mut fb = FrameBuffer::new(&mut buf, 3, 3);
    fb.fill_solid(9, 9, 9, 255);
    let src = [1u8, 2, 3, 255];
    fb.blit(&src, 1, 1, 1, 1, true);
    assert_eq!(fb.get_pixel_raw(1, 1), 0x010203FF);
    for (x, y) in [(0, 0), (1, 0), (2, 2), (0, 1), (2, 1)] {
        assert_eq!(fb.get_pixel_raw(x, y), 0x090909FF);
    }
}

#[test]
fn setters_change_state() {
    let mut buf = vec![0u8; 4];
    let mut fb = FrameBuffer::new(&mut buf, 1, 1);
    fb.set_antialias(false);
    assert!(!fb.antialias);
    let t = tiny_skia::Transform::from_translate(3.0, 4.0);
    fb.set_ctm(t);
    assert_eq!(fb.ctm, t);
}
