use bootstack::bootloader::unicode::{char_utf8_to_utf16, str_utf8_to_utf16, EncodeCharStatus};

#[test]
fn ascii_path_is_copied_and_closed_with_zero() {
    let mut buffer = [0xFFFFu16; 32];
    let status = str_utf8_to_utf16("kernel/kernel.elf", &mut buffer);
    assert_eq!(status.input_read, 17);
    assert_eq!(status.output_written, 17);
    let expected: Vec<u16> = "kernel/kernel.elf".encode_utf16().collect();
    assert_eq!(&buffer[..17], &expected[..]);
    assert_eq!(buffer[17], 0);
    assert_eq!(buffer[18], 0xFFFF);
}

#[test]
fn characters_of_two_and_three_bytes_become_one_unit() {
    let mut buffer = [0u16; 8];
    let status = str_utf8_to_utf16("é€x", &mut buffer);
    assert_eq!(status.input_read, 6);
    assert_eq!(status.output_written, 3);
    assert_eq!(&buffer[..4], &[0x00E9, 0x20AC, 0x78, 0]);
}

#[test]
fn characters_of_four_bytes_are_replaced() {
    let mut buffer = [0u16; 8];
    let status = str_utf8_to_utf16("a😀b", &mut buffer);
    assert_eq!(status.input_read, 6);
    assert_eq!(status.output_written, 3);
    assert_eq!(&buffer[..4], &[0x61, 0x2588, 0x62, 0]);
}

#[test]
fn a_full_buffer_ends_the_conversion() {
    let mut buffer = [7u16; 4];
    let status = str_utf8_to_utf16("abcdef", &mut buffer);
    assert_eq!(status.input_read, 3);
    assert_eq!(status.output_written, 3);
    assert_eq!(buffer, [0x61, 0x62, 0x63, 0]);
    let mut one = [7u16; 1];
    let status = str_utf8_to_utf16("abc", &mut one);
    assert_eq!((status.input_read, status.output_written), (0, 0));
    assert_eq!(one, [0]);
}

#[test]
fn single_characters() {
    assert_eq!(
        char_utf8_to_utf16(&[0x41, 0x42]),
        EncodeCharStatus::EncodedChar { encoded_char: 0x41, input_read: 1 }
    );
    assert_eq!(
        char_utf8_to_utf16(&[0xC3, 0xA9]),
        EncodeCharStatus::EncodedChar { encoded_char: 0xE9, input_read: 2 }
    );
    assert_eq!(
        char_utf8_to_utf16(&[0xE2, 0x82, 0xAC]),
        EncodeCharStatus::EncodedChar { encoded_char: 0x20AC, input_read: 3 }
    );
    assert_eq!(
        char_utf8_to_utf16(&[0xF0, 0x9F, 0x98, 0x80]),
        EncodeCharStatus::SurrogatePair { input_read: 4 }
    );
    assert_eq!(
        char_utf8_to_utf16(&[0xC3]),
        EncodeCharStatus::InsufficientInputBytes { input_read: 1 }
    );
    assert_eq!(
        char_utf8_to_utf16(&[0xE2, 0x82]),
        EncodeCharStatus::InsufficientInputBytes { input_read: 2 }
    );
    assert_eq!(
        char_utf8_to_utf16(&[0xF0, 0x9F, 0x98]),
        EncodeCharStatus::InsufficientInputBytes { input_read: 3 }
    );
}
