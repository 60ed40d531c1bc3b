use afterglow::plural;
use afterglow::text::{
    byte_prefix_of, lines_of, parse_i64, sorts_before, split_on, split_once_at, strip_prefix_of, strip_suffix_of,
    trim_of, trim_space, CharClass,
};

#[test]
fn integers_are_read_the_way_str_parse_reads_them() {
    for text in [
        "0",
        "-0",
        "+7",
        "007",
        "9223372036854775807",
        "-9223372036854775808",
        "9223372036854775808",
        "-9223372036854775809",
        "99999999999999999999999",
        "",
        "+",
        "-",
        "1 ",
        " 1",
        "1.0",
        "٣",
        "--1",
        "many",
    ] {
        assert_eq!(parse_i64(text), text.parse::<i64>().ok(), "{text:?}");
    }
}

#[test]
fn texts_are_cut_the_way_str_cuts_them() {
    for text in [
        "",
        "\n",
        "a\nb",
        "a\r\nb\r\n",
        "a\r",
        "\n\n",
        "x\n\ny\n",
        "a\rb\n",
    ] {
        assert_eq!(lines_of(text), text.lines().collect::<Vec<_>>(), "{text:?}");
        assert_eq!(
            split_on(text, '\n'),
            text.split('\n').collect::<Vec<_>>(),
            "{text:?}"
        );
        assert_eq!(split_once_at(text, '\n'), text.split_once('\n'), "{text:?}");
    }
    for text in ["", "  a b\t", "\u{3000}x\u{85}", "|a||", "é|"] {
        assert_eq!(trim_space(text), text.trim(), "{text:?}");
        assert_eq!(
            trim_of(text, &CharClass::Only('|')),
            text.trim_matches('|'),
            "{text:?}"
        );
        assert_eq!(strip_prefix_of(text, "|"), text.strip_prefix("|"), "{text:?}");
        assert_eq!(strip_suffix_of(text, "|"), text.strip_suffix("|"), "{text:?}");
    }
}

#[test]
fn byte_prefixes_are_the_ones_str_gets() {
    for text in ["", "abc", "2026-07-31T", "é", "aé", "日本語", "a😀b"] {
        for n in 0..14 {
            assert_eq!(byte_prefix_of(text, n), text.get(..n), "{text:?} {n}");
        }
    }
}

#[test]
fn texts_sort_the_way_str_sorts_them() {
    let texts = ["", "a", "A", "ab", "b", "é", "z", "日", "😀", "a\u{0}"];
    for a in texts {
        for b in texts {
            assert_eq!(sorts_before(a, b), a < b, "{a:?} {b:?}");
        }
    }
}

#[test]
fn one_of_a_thing_is_singular() {
    assert_eq!(plural(0, "repo"), "0 repos");
    assert_eq!(plural(1, "repo"), "1 repo");
    assert_eq!(plural(2, "snapshot row"), "2 snapshot rows");
}
