use nuzo::collections::{slice_clamped, substring, unique_keys};
use nuzo::sandbox::check_io_path;
use nuzo::capture::CaptureStack;
use nuzo::color::{hex_color_components, parse_hex_color};
use nuzo::random::{
    fnv1a_hash, mix_seed, next_random_state, unit_bits, xorshift64, RNG_FALLBACK_SEED,
};

#[test]
fn color_six_digits() {
    assert_eq!(hex_color_components("#FF0000"), Some((255, 0, 0, None)));
    assert_eq!(hex_color_components("00ff7f"), Some((0, 255, 127, None)));
    assert_eq!(parse_hex_color("#FF0000"), Some(egui::Color32::from_rgb(255, 0, 0)));
}

#[test]
fn color_eight_digits() {
    assert_eq!(hex_color_components("#FF000080"), Some((255, 0, 0, Some(128))));
    assert_eq!(
        parse_hex_color("#FF000080"),
        Some(egui::Color32::from_rgba_unmultiplied(255, 0, 0, 128))
    );
}

#[test]
fn color_many_leading_hashes() {
    assert_eq!(hex_color_components("###0a0B0c"), Some((10, 11, 12, None)));
}

#[test]
fn color_rejects_bad_input() {
    assert_eq!(hex_color_components(""), None);
    assert_eq!(hex_color_components("#"), None);
    assert_eq!(hex_color_components("#FFF"), None);
    assert_eq!(hex_color_components("#FF00000"), None);
    assert_eq!(hex_color_components("#GG0000"), None);
    assert_eq!(hex_color_components("#颜色颜色颜色"), None);
    assert_eq!(hex_color_components("#颜色"), None);
    assert_eq!(parse_hex_color("#12345"), None);
}

#[test]
fn capture_stack_push_pop() {
    let mut stack: CaptureStack<u32> = CaptureStack::new();
    assert_eq!(stack.current(), None);
    stack.push(Some(1));
    stack.push(None);
    assert_eq!(stack.depth(), 2);
    assert_eq!(stack.current(), None);
    stack.pop();
    assert_eq!(stack.current(), Some(&1));
    stack.pop();
    assert_eq!(stack.depth(), 0);
    stack.pop();
    assert_eq!(stack.depth(), 0);
}

#[test]
fn capture_stack_configure() {
    let mut stack: CaptureStack<u32> = CaptureStack::new();
    stack.push(Some(1));
    stack.push(Some(2));
    stack.configure(Some(3));
    assert_eq!(stack.depth(), 1);
    assert_eq!(stack.current(), Some(&3));
    stack.configure(None);
    assert_eq!(stack.depth(), 0);
    assert_eq!(stack.current(), None);
}

#[test]
fn random_xorshift_known_values() {
    assert_eq!(xorshift64(1), 1082269761);
    assert_eq!(xorshift64(0), 0);
    let mut s: u64 = 88172645463325252;
    for _ in 0..3 {
        s = xorshift64(s);
    }
    assert_ne!(s, 0);
}

#[test]
fn random_next_state_seeds_once() {
    assert_eq!(next_random_state(0, 1), xorshift64(1));
    assert_eq!(next_random_state(5, 1), xorshift64(5));
}

#[test]
fn random_unit_bits() {
    assert_eq!(unit_bits(u64::MAX), (1u64 << 53) - 1);
    assert_eq!(unit_bits(2048), 1);
}

#[test]
fn random_fnv1a() {
    assert_eq!(fnv1a_hash(b""), 0xcbf29ce484222325);
    assert_eq!(fnv1a_hash(b"a"), 0xaf63dc4c8601ec8c);
    assert_eq!(fnv1a_hash(b"foobar"), 0x85944171f73967e8);
}

#[test]
fn random_seed_is_never_zero() {
    assert_eq!(mix_seed(0, 0), RNG_FALLBACK_SEED);
    assert_eq!(mix_seed(1, 0), 0x9E3779B97F4A7C15);
    assert_eq!(mix_seed(1, 5), 0x9E3779B97F4A7C1A);
}

#[test]
fn substring_clamps_its_range() {
    assert_eq!(substring("hello", 1, 3), "el");
    assert_eq!(substring("hello", 2, 100), "llo");
    assert_eq!(substring("hello", 5, 9), "");
    assert_eq!(substring("hello", 3, 1), "");
    assert_eq!(substring("你好世界", 1, 3), "好世");
}

#[test]
fn slice_clamps_its_range() {
    let items = [1, 2, 3, 4];
    assert_eq!(slice_clamped(&items, 1, 3), vec![2, 3]);
    assert_eq!(slice_clamped(&items, 0, 10), vec![1, 2, 3, 4]);
    assert_eq!(slice_clamped(&items, 4, 5), Vec::<i32>::new());
    assert_eq!(slice_clamped(&items, 2, 2), Vec::<i32>::new());
}

#[test]
fn unique_keeps_first_occurrences_in_order() {
    assert_eq!(unique_keys(&[3, 1, 3, 2, 1, 3]), vec![3, 1, 2]);
    assert_eq!(unique_keys(&[]), Vec::<u64>::new());
    assert_eq!(unique_keys(&[7, 7, 7]), vec![7]);
}

#[test]
fn sandbox_refuses_parent_directories() {
    for path in ["../../../etc/passwd", "data/../../secret.txt", "./../escape.txt", "a/b/../../../c", "..//..//etc/shadow", ".."] {
        let err = check_io_path(path, "read_file", false).unwrap_err();
        assert!(err.contains("path traversal") && err.contains(".."), "{}", err);
        assert!(err.starts_with(&format!("read_file(\"{}\") rejected", path)));
        assert!(check_io_path(path, "read_file", true).is_ok());
    }
    for path in ["config.txt", "data/file.txt", "/home/user/file.txt", "./local.txt", "a/b/c/d.txt", "a..b.txt"] {
        assert!(check_io_path(path, "read_file", false).is_ok(), "{}", path);
    }
}
