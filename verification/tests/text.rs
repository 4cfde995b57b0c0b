use mem_cli::like::{escape_like_prefix, is_like, matches_prefix};
use mem_cli::order::{float_bits, float_key, is_text_le};
use mem_cli::query::{fts_query, history_query, split_words};
use mem_cli::text::{byte_length, decimal_i64, decimal_u64, is_blank, is_white_space, parse_size, same, trim};
use rusqlite::Connection;

#[test]
fn white_space_is_that_of_the_standard_library() {
    for code in 0..=0x10_ffff_u32 {
        if let Some(c) = char::from_u32(code) {
            assert_eq!(is_white_space(c), c.is_whitespace(), "{code:x}");
        }
    }
    for text in ["", " a b\t", "\u{3000}x\u{a0}", "\n\r", "none"] {
        assert_eq!(trim(text), text.trim());
        assert_eq!(trim(&trim(text)), text.trim());
        assert_eq!(is_blank(text), text.trim().is_empty());
        let expected: Vec<String> = text.split_whitespace().map(str::to_owned).collect();
        assert_eq!(split_words(text), expected);
    }
}

#[test]
fn numbers_read_and_write_in_decimal() {
    for number in [0, 7, 10, 1234567890, u64::MAX] {
        assert_eq!(decimal_u64(number), number.to_string());
    }
    for number in [0, -1, i64::MIN, i64::MAX] {
        assert_eq!(decimal_i64(number), number.to_string());
    }
    for text in ["0", "007", "+5", "18446744073709551615", "18446744073709551616", "", "+", "-1", "1a", " 1"] {
        assert_eq!(parse_size(text), text.parse::<usize>().ok(), "{text}");
    }
}

#[test]
fn lengths_are_counted_in_bytes() {
    for text in ["", "a", "\u{7f}\u{80}", "\u{7ff}\u{800}", "\u{ffff}\u{10000}", "h\u{e9}llo \u{1f600}"] {
        assert_eq!(byte_length(text), text.len());
    }
    assert!(same("a", "a") && !same("a", "A"));
}

#[test]
fn queries_quote_every_term() {
    assert_eq!(fts_query("release ordering").expect("query"), "\"release\" OR \"ordering\"");
    assert_eq!(history_query("release ordering").expect("query"), "\"release\" AND \"ordering\"");
    assert_eq!(fts_query("say \"hi\" NEAR").expect("query"), "\"say\" OR \"\"\"hi\"\"\" OR \"NEAR\"");
    assert_eq!(fts_query(" \t").expect_err("empty").message(), "query cannot be empty");
    assert_eq!(history_query("").expect_err("empty").message(), "history query cannot be empty");
}

#[test]
fn patterns_match_as_in_the_database() {
    let connection = Connection::open_in_memory().expect("open");
    let texts = ["", "a", "A", "ab", "a%b", "a_b", "axb", "\\", "a\\b", "aXbYb", "\u{e9}", "\u{c9}"];
    let patterns = ["", "a", "A%", "%b", "a_b", "%", "_", "a\\%b", "a\\_b", "%\\\\%", "\\", "a%b%", "\u{e9}", "%%_"];
    for text in texts {
        for pattern in patterns {
            let plain: bool = connection
                .query_row("SELECT ?1 LIKE ?2", [text, pattern], |row| row.get(0))
                .expect("like");
            assert_eq!(is_like(pattern, text, None), plain, "{text} LIKE {pattern}");
            let escaped: bool = connection
                .query_row("SELECT ?1 LIKE ?2 ESCAPE '\\'", [text, pattern], |row| row.get(0))
                .expect("like");
            assert_eq!(
                is_like(pattern, text, Some('\\')),
                escaped,
                "{text} LIKE {pattern} ESCAPE"
            );
        }
    }
    assert_eq!(escape_like_prefix("a%b_c\\"), "a\\%b\\_c\\\\");
    assert!(matches_prefix("A%", "a%b") && !matches_prefix("A%", "axb"));
}

#[test]
fn float_keys_order_as_floats_do() {
    let values = [
        f64::NEG_INFINITY, -1.0e300, -2.5, -1.0, -f64::MIN_POSITIVE, -0.0, 0.0, f64::MIN_POSITIVE,
        0.55, 1.0, 7.25, f64::INFINITY, f64::NAN, -f64::NAN,
    ];
    for left in values {
        for right in values {
            assert_eq!(
                float_key(left.to_bits()).cmp(&float_key(right.to_bits())),
                left.total_cmp(&right),
                "{left} {right}"
            );
        }
        assert_eq!(float_bits(float_key(left.to_bits())), left.to_bits());
    }
}

#[test]
fn texts_are_ordered_by_their_bytes() {
    let texts = ["", "a", "ab", "b", "B", "\u{e9}", "\u{ffff}", "\u{10000}"];
    for left in texts {
        for right in texts {
            assert_eq!(is_text_le(left, right), left <= right, "{left} {right}");
        }
    }
}
