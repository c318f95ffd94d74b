use osdbuf::fonts::{default_font, font_count, font_ids, register_font, unload_font};
use osdbuf::wire::{decode_path, PathOp};
use osdbuf::Registry;
use std::sync::Arc;

#[test]
fn handles_start_at_one_and_increase() {
    let mut r: Registry<&str> = Registry::new();
    assert_eq!(r.insert("a"), 1);
    assert_eq!(r.insert("b"), 2);
    assert_eq!(r.insert("c"), 3);
    assert_eq!(r.len(), 3);
    assert_eq!(r.get(2), Some(&"b"));
    assert_eq!(r.get(0), None);
    assert_eq!(r.get(-1), None);
    assert_eq!(r.get(4), None);
}

#[test]
fn removed_handles_are_not_reused() {
    let mut r: Registry<u8> = Registry::new();
    r.insert(10);
    r.insert(20);
    assert!(r.remove(1));
    assert!(!r.remove(1));
    assert!(!r.contains(1));
    assert_eq!(r.get(1), None);
    assert_eq!(r.get(2), Some(&20));
    assert_eq!(r.insert(30), 3);
    assert_eq!(r.ids(10), vec![2, 3]);
}

#[test]
fn ids_are_sorted_and_truncated() {
    let mut r: Registry<u8> = Registry::new();
    for v in 0..5 {
        r.insert(v);
    }
    r.remove(2);
    assert_eq!(r.ids(2), vec![1, 3]);
    assert_eq!(r.ids(0), Vec::<i32>::new());
    assert_eq!(r.ids(100), vec![1, 3, 4, 5]);
}

#[test]
fn font_queries_on_a_table() {
    let mut r: Registry<u8> = Registry::new();
    assert_eq!(default_font(&r), -1);
    assert_eq!(font_count(&r), 0);
    r.insert(1);
    r.insert(2);
    assert_eq!(default_font(&r), 1);
    assert_eq!(font_count(&r), 2);
    assert_eq!(font_ids(&r, 1), vec![1]);
    assert_eq!(font_ids(&r, 0), Vec::<i32>::new());
    assert_eq!(font_ids(&r, -4), Vec::<i32>::new());
    assert_eq!(unload_font(&mut r, 1), 0);
    assert_eq!(unload_font(&mut r, 1), -1);
    assert_eq!(default_font(&r), -1);
    assert_eq!(font_ids(&r, 8), vec![2]);
}

#[test]
fn register_font_refuses_garbage() {
    let mut r: Registry<Arc<fontdue::Font>> = Registry::new();
    assert_eq!(register_font(&mut r, &[1, 2, 3, 4]), -1);
    assert_eq!(register_font(&mut r, &[]), -1);
    assert_eq!(r.len(), 0);
}

fn word(v: f32) -> [u8; 4] {
    v.to_le_bytes()
}

#[test]
fn decode_reads_each_command() {
    let mut d = vec![0u8];
    d.extend(word(1.0));
    d.extend(word(2.0));
    d.push(1);
    d.extend(word(3.0));
    d.extend(word(4.5));
    d.push(3);
    for v in [5.0, 6.0, 7.0, 8.0] {
        d.extend(word(v));
    }
    d.push(2);
    for v in [9.0, 10.0, 11.0, 12.0, 13.0, -14.0] {
        d.extend(word(v));
    }
    d.push(4);
    let ops = decode_path(&d);
    let b = |v: f32| v.to_bits();
    assert_eq!(
        ops,
        vec![
            PathOp::MoveTo(b(1.0), b(2.0)),
            PathOp::LineTo(b(3.0), b(4.5)),
            PathOp::QuadTo(b(5.0), b(6.0), b(7.0), b(8.0)),
            PathOp::CubicTo(b(9.0), b(10.0), b(11.0), b(12.0), b(13.0), b(-14.0)),
            PathOp::Close,
        ]
    );
}

#[test]
fn decode_truncated_lineto_keeps_previous_commands() {
    let mut d = vec![0u8];
    d.extend(word(1.0));
    d.extend(word(2.0));
    d.push(1);
    d.extend(word(3.0));
    let ops = decode_path(&d);
    assert_eq!(ops, vec![PathOp::MoveTo(1.0f32.to_bits(), 2.0f32.to_bits())]);
}

#[test]
fn decode_stops_at_unknown_opcode() {
    let mut d = vec![4u8, 9u8, 0u8];
    d.extend(word(1.0));
    d.extend(word(2.0));
    assert_eq!(decode_path(&d), vec![PathOp::Close]);
    assert_eq!(decode_path(&[]), Vec::<PathOp>::new());
}

#[test]
fn decode_words_are_little_endian() {
    let d = [0u8, 0x01, 0x02, 0x03, 0x04, 0xFF, 0, 0, 0x80];
    assert_eq!(decode_path(&d), vec![PathOp::MoveTo(0x04030201, 0x800000FF)]);
}
