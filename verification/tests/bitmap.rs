use bootstack::bitmap::{Bitmap, BitmapByte};

#[test]
fn bits_are_counted_from_the_most_significant() {
    let mut bitmap = Bitmap::new_init_zero(2, vec![0xAA, 0xAA, 0x55]);
    assert!(bitmap.set(0, true));
    assert_eq!(bitmap.get_buffer()[0], 0x80);
    assert!(bitmap.set(7, true));
    assert_eq!(bitmap.get_buffer()[0], 0x81);
    assert!(bitmap.set(9, true));
    assert_eq!(bitmap.get_buffer()[1], 0x40);
    assert_eq!(bitmap.get_buffer()[2], 0x55);
}

#[test]
fn set_then_get_and_other_bits_stay() {
    let mut bitmap = Bitmap::new_init(4, vec![0; 4], 0x0F);
    for i in 0..32 {
        assert_eq!(bitmap.get(i), i % 8 >= 4);
    }
    assert!(bitmap.set(2, true));
    assert!(bitmap.set(5, false));
    for i in 0..32 {
        let expected = if i == 2 { true } else if i == 5 { false } else { i % 8 >= 4 };
        assert_eq!(bitmap.get(i), expected);
    }
}

#[test]
fn bits_beyond_the_size_do_not_exist() {
    let mut bitmap = Bitmap::new(1, vec![0xFF, 0xFF]);
    assert_eq!(bitmap.size(), 1);
    assert!(bitmap.get(7));
    assert!(!bitmap.get(8));
    assert!(!bitmap.set(8, false));
    assert_eq!(bitmap.get_buffer()[1], 0xFF);
    let empty = Bitmap::new_uninitialized();
    assert_eq!(empty.size(), 0);
    assert!(!empty.get(0));
}

#[test]
fn bitmap_byte_ignores_indexes_above_seven() {
    let mut byte = BitmapByte { byte: 0 };
    byte.set(8, true);
    assert_eq!(byte.byte, 0);
    assert!(!byte.get(8));
    byte.set(3, true);
    assert_eq!(byte.byte, 0x10);
    assert!(byte.get(3));
    byte.set_byte(0xFF);
    byte.set(0, false);
    assert_eq!(byte.byte, 0x7F);
}

#[test]
fn set_buffer_hands_back_the_old_buffer() {
    let mut bitmap = Bitmap::new(1, vec![0x80]);
    let old = bitmap.set_buffer(vec![0x01, 0x02]);
    assert_eq!(old, vec![0x80]);
    assert!(bitmap.get(7));
    assert!(!bitmap.get(0));
}
