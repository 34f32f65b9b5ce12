use glean::text::{
    base_root_path, chars_of, comes_before, join_path, parse_u16, same_text, string_of,
    to_ascii_lowercase, to_lowercase, trim_newlines,
};

#[test]
fn trimming_strips_surrounding_line_feeds() {
    assert_eq!(trim_newlines("0\n"), "0");
    assert_eq!(trim_newlines("\n\naa:bb\n\n"), "aa:bb");
    assert_eq!(trim_newlines("a\nb\n"), "a\nb");
    assert_eq!(trim_newlines("\n\n"), "");
    assert_eq!(trim_newlines(""), "");
    assert_eq!(trim_newlines(" 1 \n"), " 1 ");
    assert_eq!(trim_newlines("1\r\n"), "1\r");
}

#[test]
fn paths_are_joined_with_one_separator() {
    assert_eq!(join_path("/", "sys/class/net"), "/sys/class/net");
    assert_eq!(join_path("/root", "etc"), "/root/etc");
    assert_eq!(join_path("/root/", "etc"), "/root/etc");
    assert_eq!(join_path("", "etc"), "etc");
    assert_eq!(join_path("/root", "/etc"), "/etc");
    assert_eq!(join_path("/root", ""), "/root/");
    assert_eq!(join_path("rel", "a/b"), "rel/a/b");
}

#[test]
fn root_defaults_to_slash() {
    assert_eq!(base_root_path(&None), "/");
    assert_eq!(base_root_path(&Some("/tmp/x".to_string())), "/tmp/x");
}

#[test]
fn lowercase_folds_each_character() {
    assert_eq!(to_lowercase("AA:BB:CC"), "aa:bb:cc");
    assert_eq!(to_lowercase("A"), "a");
    assert_eq!(to_lowercase("aB3-\u{c9}"), "ab3-\u{e9}");
    assert_eq!(to_lowercase("\u{130}"), "i\u{307}");
    assert_eq!(to_lowercase(""), "");
}

#[test]
fn ascii_lowercase_keeps_other_letters() {
    assert_eq!(to_ascii_lowercase("AZ az @[ 09"), "az az @[ 09");
    assert_eq!(to_ascii_lowercase("\u{c9}X"), "\u{c9}x");
}

#[test]
fn strings_round_trip_through_characters() {
    let chars = chars_of("h\u{e9}llo");
    assert_eq!(chars, vec!['h', '\u{e9}', 'l', 'l', 'o']);
    assert_eq!(string_of(&chars, 1, 4), "\u{e9}ll");
    assert_eq!(string_of(&chars, 2, 2), "");
    assert!(same_text("lo", "lo"));
    assert!(!same_text("lo", "lo0"));
}

#[test]
fn keys_are_ordered_by_code_point() {
    assert!(comes_before("eth0", "eth1"));
    assert!(!comes_before("eth1", "eth0"));
    assert!(!comes_before("eth0", "eth0"));
    assert!(comes_before("eth", "eth0"));
    assert!(!comes_before("eth0", "eth"));
    assert!(comes_before("", "a"));
    assert!(!comes_before("", ""));
    assert!(comes_before("eth10", "eth2"));
    assert!(comes_before("Z", "a"));
    assert!(comes_before("z", "\u{e9}"));
    assert_eq!(comes_before("\u{ff5e}", "\u{10000}"), "\u{ff5e}" < "\u{10000}");
}

#[test]
fn numbers_are_read_as_the_standard_library_reads_them() {
    let cases = [
        "0", "7", "1500", "65535", "65536", "99999", "4294967296", "+12", "+", "", "-0", "-12",
        "++1", "+-1", "1+", "12a", "a12", " 12", "12 ", "0x10", "1_000", "00000000000000000012",
        "000000000000000000000065535", "000000000000000000000065536", "\u{661}\u{662}", "1.0",
        "18446744073709551616",
    ];
    for text in cases {
        assert_eq!(parse_u16(text), text.parse::<u16>().ok(), "{:?}", text);
    }
    assert_eq!(parse_u16("1500"), Some(1500));
    assert_eq!(parse_u16("+65535"), Some(65535));
    assert_eq!(parse_u16("65536"), None);
}

#[test]
fn ascii_letters_fold_alike_either_way() {
    for code in 0u8..128 {
        let text = (code as char).to_string();
        assert_eq!(to_lowercase(&text), to_ascii_lowercase(&text));
    }
    assert_eq!(to_lowercase("AA:BB:CC:DD:EE:FF"), to_lowercase("aa:bb:cc:dd:ee:ff"));
}
