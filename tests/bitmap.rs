use redos::arena::{arena_alloc, Arena, ARENA_SIZE};
use redos::bitmap::{father, first_sibling, first_son, lowbit, next_sibling};
use redos::vga::{Color, ColorCode, ScreenChar};

#[test]
fn test_first_son() {
    assert_eq!(first_son(0b1001), 0b1001);
    assert_eq!(first_son(0b1010), 0b1001);
    assert_eq!(first_son(0b1000), 0b100);
}

#[test]
fn lowbit_values() {
    assert_eq!(lowbit(0), 0);
    assert_eq!(lowbit(0b1011), 1);
    assert_eq!(lowbit(0b1100), 0b100);
    assert_eq!(lowbit(1 << 40), 1 << 40);
}

#[test]
fn tree_navigation() {
    assert_eq!(father(0b0011), 0b0100);
    assert_eq!(father(0b0100), 0b1000);
    assert_eq!(next_sibling(0b0100), 0b0110);
    assert_eq!(first_sibling(0b0110), 0b0100);
    assert_eq!(first_sibling(0b1100), 0b1000);
}

#[test]
fn color_codes() {
    assert_eq!(ColorCode::new(Color::Yellow, Color::Black).0, 0x0e);
    assert_eq!(ColorCode::new(Color::White, Color::Blue).0, 0x1f);
    assert_eq!(ColorCode::new(Color::Black, Color::White).0, 0xf0);
    let blank = ScreenChar::blank();
    assert_eq!(blank.ascii_character, b' ');
    assert_eq!(blank.color_code.0, 0);
}

#[test]
fn arena_hands_out_in_order() {
    let mut a = Arena::new(ARENA_SIZE);
    assert_eq!(arena_alloc(&mut a, 16), Some(0));
    assert_eq!(arena_alloc(&mut a, 8), Some(16));
    assert_eq!(arena_alloc(&mut a, ARENA_SIZE), None);
    assert_eq!(a.used, 24);
    assert_eq!(arena_alloc(&mut a, ARENA_SIZE - 24), Some(24));
    assert_eq!(arena_alloc(&mut a, 1), None);
    assert_eq!(arena_alloc(&mut a, 0), Some(ARENA_SIZE));
}
