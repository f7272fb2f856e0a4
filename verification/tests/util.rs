use zhist::tui::util::{base64_encode, char_boundary_left, char_boundary_right, osc52_copy};

#[test]
fn base64_rfc_vectors() {
    assert_eq!(base64_encode(b""), "");
    assert_eq!(base64_encode(b"f"), "Zg==");
    assert_eq!(base64_encode(b"fo"), "Zm8=");
    assert_eq!(base64_encode(b"foo"), "Zm9v");
    assert_eq!(base64_encode(b"foob"), "Zm9vYg==");
    assert_eq!(base64_encode(b"fooba"), "Zm9vYmE=");
    assert_eq!(base64_encode(b"foobar"), "Zm9vYmFy");
    assert_eq!(base64_encode(&[0xff, 0xfe, 0xfd, 0xfb]), "//79+w==");
}

#[test]
fn clipboard_sequence_wraps_base64() {
    assert_eq!(osc52_copy("foo"), "\x1b]52;c;Zm9v\x07");
    assert_eq!(osc52_copy(""), "\x1b]52;c;\x07");
}

#[test]
fn boundaries_around_multibyte_characters() {
    let s = "a…b";
    assert_eq!(char_boundary_left(s, 0), 0);
    assert_eq!(char_boundary_left(s, 1), 1);
    assert_eq!(char_boundary_left(s, 2), 1);
    assert_eq!(char_boundary_left(s, 3), 1);
    assert_eq!(char_boundary_left(s, 4), 4);
    assert_eq!(char_boundary_left(s, 99), 5);
    assert_eq!(char_boundary_right(s, 0), 0);
    assert_eq!(char_boundary_right(s, 2), 4);
    assert_eq!(char_boundary_right(s, 3), 4);
    assert_eq!(char_boundary_right(s, 99), 5);
    assert_eq!(char_boundary_left("", 3), 0);
    assert_eq!(char_boundary_right("", 3), 0);
}
