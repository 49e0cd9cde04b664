use blackbox_exporter::codec::{decode_component, encode_component};
use percent_encoding::{utf8_percent_encode, NON_ALPHANUMERIC};

#[test]
fn test_encode_component_values() {
    assert_eq!(encode_component("plain123"), "plain123");
    // Every byte outside the letters and digits is escaped, dots and
    // underscores included.
    assert_eq!(encode_component("https://a.com"), "https%3A%2F%2Fa%2Ecom");
    assert_eq!(encode_component("http_2xx"), "http%5F2xx");
    assert_eq!(encode_component("a b"), "a%20b");
    assert_eq!(encode_component("k=v&x?y"), "k%3Dv%26x%3Fy");
    assert_eq!(encode_component(""), "");
    // Non-ASCII characters are escaped byte by byte.
    assert_eq!(encode_component("é"), "%C3%A9");
    assert_eq!(encode_component("日"), "%E6%97%A5");
}

#[test]
fn test_decode_component_values() {
    assert_eq!(decode_component("plain123"), Some("plain123".to_string()));
    assert_eq!(
        decode_component("https%3A%2F%2Fa.com"),
        Some("https://a.com".to_string())
    );
    assert_eq!(decode_component("%C3%A9"), Some("é".to_string()));
    // Lower-case hexadecimal digits decode too.
    assert_eq!(decode_component("%c3%a9"), Some("é".to_string()));
    // A percent sign not followed by two hexadecimal digits passes through.
    assert_eq!(decode_component("%zz"), Some("%zz".to_string()));
    assert_eq!(decode_component("100%"), Some("100%".to_string()));
    assert_eq!(decode_component("%4"), Some("%4".to_string()));
    // Decoded bytes that are not valid UTF-8 fail.
    assert_eq!(decode_component("%FF"), None);
    assert_eq!(decode_component("%C3"), None);
}

#[test]
fn test_round_trip_values() {
    let samples = [
        "",
        "plain",
        "https://app.example.com/path?query=value&other=test param",
        "https://例え.jp/パス",
        "100% of #1 + _-~.",
        "Ünïcodé mix 漢字 and emoji 🦀",
    ];
    for s in samples {
        assert_eq!(decode_component(&encode_component(s)).as_deref(), Some(s));
    }
}

#[test]
fn test_encoding_matches_outside_crate() {
    // The verified encoder agrees byte for byte with the percent-encoding
    // crate's alphanumeric-preserving encoder.
    let samples = [
        "",
        "plain123",
        "https://app.example.com/path?query=value&other=test param",
        "https://例え.jp/パス",
        "a+b c%d&e=f#g",
        "🦀",
    ];
    for s in samples {
        assert_eq!(
            encode_component(s),
            utf8_percent_encode(s, NON_ALPHANUMERIC).to_string()
        );
    }
}

#[test]
fn test_decoding_matches_outside_crate() {
    // The verified decoder agrees with the percent-encoding crate's decoder,
    // stray percent signs and all.
    let samples = [
        "plain",
        "https%3A%2F%2Fa.com",
        "%C3%A9%e6%97%a5",
        "%zz%4%",
        "a%20b+c",
    ];
    for s in samples {
        let outside = percent_encoding::percent_decode_str(s)
            .decode_utf8()
            .ok()
            .map(|c| c.to_string());
        assert_eq!(decode_component(s), outside);
    }
}
