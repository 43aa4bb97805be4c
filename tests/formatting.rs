use epd_counter::render::{format_count, next_count};
use epd_counter::write_to::{show, FormatError, Piece, WriteTo};

#[test]
fn count_fits_in_ten_bytes() {
    let mut buf = [0u8; 10];
    let text = format_count(&mut buf, 5).unwrap();
    assert_eq!(text, "count: 5");
    assert_eq!(text.len(), 8);
}

#[test]
fn count_overflows_five_bytes() {
    let mut buf = [0u8; 5];
    assert_eq!(format_count(&mut buf, 5), Err(FormatError::Overflow));
}

#[test]
fn show_template_with_value() {
    let mut buf = [0u8; 10];
    let pieces = [Piece::Text("count: "), Piece::Uint(5)];
    assert_eq!(show(&mut buf, &pieces), Ok("count: 5"));
}

#[test]
fn show_exact_fit_and_one_short() {
    let pieces = [Piece::Text("ab"), Piece::Uint(1234), Piece::Text("z")];
    let mut exact = [0u8; 7];
    assert_eq!(show(&mut exact, &pieces), Ok("ab1234z"));
    let mut short = [0u8; 6];
    assert_eq!(show(&mut short, &pieces), Err(FormatError::Overflow));
}

#[test]
fn show_empty_template_into_empty_buffer() {
    let mut buf: [u8; 0] = [];
    assert_eq!(show(&mut buf, &[]), Ok(""));
}

#[test]
fn show_largest_counter_value() {
    let mut buf = [0u8; 64];
    assert_eq!(format_count(&mut buf, u32::MAX), Ok("count: 4294967295"));
    let mut tight = [0u8; 17];
    assert_eq!(format_count(&mut tight, u32::MAX), Ok("count: 4294967295"));
    let mut short = [0u8; 16];
    assert_eq!(format_count(&mut short, u32::MAX), Err(FormatError::Overflow));
}

#[test]
fn show_zero_and_multibyte_text() {
    let mut buf = [0u8; 16];
    let pieces = [Piece::Text("é="), Piece::Uint(0)];
    assert_eq!(show(&mut buf, &pieces), Ok("é=0"));
}

#[test]
fn show_twice_gives_same_text() {
    let pieces = [Piece::Text("count: "), Piece::Uint(42)];
    let mut a = [0u8; 20];
    let mut b = [0xAAu8; 32];
    let first = show(&mut a, &pieces).unwrap();
    let second = show(&mut b, &pieces).unwrap();
    assert_eq!(first, second);
    assert_eq!(first, "count: 42");
}

#[test]
fn write_to_refuses_after_overflow() {
    let mut buf = [0u8; 4];
    let mut w = WriteTo::new(&mut buf);
    assert_eq!(w.write_str("abc"), Ok(()));
    assert_eq!(w.write_str("de"), Err(FormatError::Overflow));
    assert_eq!(w.write_str("f"), Err(FormatError::Overflow));
    assert_eq!(w.as_str(), None);
}

#[test]
fn write_to_collects_writes() {
    let mut buf = [0u8; 8];
    let mut w = WriteTo::new(&mut buf);
    assert_eq!(w.write_str("n="), Ok(()));
    assert_eq!(w.write_uint(907), Ok(()));
    assert_eq!(w.as_str(), Some("n=907"));
    assert_eq!(&buf[..5], b"n=907");
}

#[test]
fn write_uint_overflow_is_reported() {
    let mut buf = [0u8; 3];
    let mut w = WriteTo::new(&mut buf);
    assert_eq!(w.write_uint(1000), Err(FormatError::Overflow));
    assert_eq!(w.as_str(), None);
}

#[test]
fn counter_wraps_to_zero() {
    assert_eq!(next_count(u32::MAX), 0);
    assert_eq!(next_count(0), 1);
    assert_eq!(next_count(41), 42);
}

#[test]
fn show_leaves_bytes_after_text() {
    let mut buf = [7u8; 6];
    let pieces = [Piece::Uint(5)];
    assert_eq!(show(&mut buf, &pieces), Ok("5"));
    assert_eq!(buf, [b'5', 7, 7, 7, 7, 7]);
}

#[test]
fn new_writer_leaves_buffer_alone() {
    let mut buf = [1u8, 2, 3];
    let w = WriteTo::new(&mut buf);
    assert_eq!(w.as_str(), Some(""));
    assert_eq!(buf, [1, 2, 3]);
}

#[test]
fn write_str_touches_only_its_text() {
    let mut buf = [0u8; 4];
    let mut w = WriteTo::new(&mut buf);
    assert_eq!(w.write_str("ab"), Ok(()));
    assert_eq!(w.write_str(""), Ok(()));
    assert_eq!(w.as_str(), Some("ab"));
    assert_eq!(buf, [b'a', b'b', 0, 0]);
}

#[test]
fn empty_write_into_full_buffer_succeeds() {
    let mut buf = [9u8; 2];
    let mut w = WriteTo::new(&mut buf);
    assert_eq!(w.write_str("xy"), Ok(()));
    assert_eq!(w.write_str(""), Ok(()));
    assert_eq!(w.as_str(), Some("xy"));
}
