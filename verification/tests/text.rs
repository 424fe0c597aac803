use rgit::config::{write_bool, write_i32};
use rgit::hex::hex_chars;
use rgit::number::{read_i32, read_i64};
use rgit::codec::{decimal_bytes, read_size};
use rgit::show::write_byte_list;
use rgit::text::{
    chars_of, contains, find_sub, piece_after, piece_last, same_text, starts_with, text_of,
    trimmed,
};

fn cs(s: &str) -> Vec<char> {
    s.chars().collect()
}

#[test]
fn hexadecimal_is_lowercase_with_two_digits_a_byte() {
    let text: String = hex_chars(&[0x00, 0x0f, 0xa5, 0xff]).into_iter().collect();
    assert_eq!(text, "000fa5ff");
    assert!(hex_chars(&[]).is_empty());
}

#[test]
fn numbers_are_read_as_the_standard_library_reads_them() {
    for text in ["0", "-0", "+7", "007", "2147483647", "-2147483648", "2147483648", "", "+", "-",
        "1x", " 1", "--1", "+-1", "99999999999999999999"]
    {
        assert_eq!(read_i32(text), text.parse::<i32>().ok());
        assert_eq!(read_i64(text), text.parse::<i64>().ok());
    }
    for text in ["9223372036854775807", "-9223372036854775808", "9223372036854775808",
        "-9223372036854775809"]
    {
        assert_eq!(read_i64(text), text.parse::<i64>().ok());
    }
    for text in ["0", "+5", "12", "0012", "", "+", "-1", "1 ", "18446744073709551616"] {
        assert_eq!(read_size(text.as_bytes()), text.parse::<usize>().ok());
    }
}

#[test]
fn numbers_are_written_in_decimal() {
    assert_eq!(decimal_bytes(0), b"0".to_vec());
    assert_eq!(decimal_bytes(1204), b"1204".to_vec());
    assert_eq!(write_i32(0), "0");
    assert_eq!(write_i32(-17), "-17");
    assert_eq!(write_i32(i32::MIN), "-2147483648");
    assert_eq!(write_i32(i32::MAX), "2147483647");
    assert_eq!(write_bool(true), "true");
    assert_eq!(write_bool(false), "false");
    assert_eq!(write_byte_list(&[]), "[]");
    assert_eq!(write_byte_list(&[7]), "[7]");
}

#[test]
fn trimming_follows_the_standard_library() {
    for text in ["", "  a b \n", "\t\r\nx", "x", " \u{a0}\u{3000}y\u{2028}", "\u{200b}z ", "   "] {
        assert_eq!(text_of(&trimmed(&cs(text))), text.trim());
    }
}

#[test]
fn searching_follows_the_standard_library() {
    let hay = "ab\n\ncd\n\n";
    assert_eq!(find_sub(&cs(hay), &cs("\n\n"), 0), 2);
    assert_eq!(find_sub(&cs(hay), &cs("\n\n"), 3), 6);
    assert_eq!(find_sub(&cs(hay), &cs("zz"), 0), hay.len());
    for (a, b) in [("/work/src", "/work"), ("/work", "/work/src"), ("abc", ""), ("", ""), ("", "a"),
        ("aab", "ab"), ("abab", "bb")]
    {
        assert_eq!(contains(&cs(a), &cs(b)), a.contains(b));
        assert_eq!(starts_with(&cs(a), &cs(b)), a.starts_with(b));
    }
    assert_eq!(piece_after(&cs("ref: refs/heads/x"), ':'), Some(cs(" refs/heads/x")));
    assert_eq!(piece_after(&cs("a:b:c"), ':'), Some(cs("b")));
    assert_eq!(piece_after(&cs("none"), ':'), None);
    assert_eq!(piece_last(&cs("/a/b/c"), '/'), cs("c"));
    assert_eq!(piece_last(&cs("abc"), '/'), cs("abc"));
    assert_eq!(piece_last(&cs("abc/"), '/'), cs(""));
}

#[test]
fn text_and_characters_convert_both_ways() {
    assert_eq!(chars_of("héllo"), cs("héllo"));
    assert_eq!(text_of(&cs("héllo ✓")), "héllo ✓");
    assert!(same_text("a", "a") && !same_text("a", "b"));
}
