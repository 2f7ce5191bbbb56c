use opensuite_docx::escape::{escape, unescape};
use opensuite_docx::numbers::{format_i64, format_u64, parse_i32, parse_i64, parse_u32};

#[test]
fn escapes_markup_characters_and_decodes_them_back() {
    let text = b"a<b & 'c' \"d\"\r>".to_vec();
    let escaped = escape(&text);
    assert_eq!(
        escaped,
        b"a&lt;b &amp; &apos;c&apos; &quot;d&quot;&#13;&gt;".to_vec()
    );
    assert_eq!(unescape(&escaped), Some(text));
    assert_eq!(unescape(b"&#x41;&#66;"), Some(b"AB".to_vec()));
    assert_eq!(unescape(b"&bogus;"), None);
    assert_eq!(unescape(b"plain"), Some(b"plain".to_vec()));
}

#[test]
fn formats_and_parses_decimal_numbers() {
    assert_eq!(format_u64(0), b"0".to_vec());
    assert_eq!(format_u64(18_446_744_073_709_551_615), b"18446744073709551615".to_vec());
    assert_eq!(format_i64(-1440), b"-1440".to_vec());
    assert_eq!(parse_i64(&format_i64(i64::MIN)), Some(i64::MIN));
    assert_eq!(parse_u32(b"4294967295"), Some(u32::MAX));
    assert_eq!(parse_u32(b"4294967296"), None);
    assert_eq!(parse_u32(b""), None);
    assert_eq!(parse_u32(b"+1"), Some(1));
    assert_eq!(parse_i32(b"-2147483648"), Some(i32::MIN));
    assert_eq!(parse_i32(b"2147483648"), None);
}
