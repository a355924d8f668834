use local_llm::order::less;
use local_llm::runtime::Runtime;
use local_llm::shell::shell_quote;
use local_llm::text::{
    join, lines, pad, parse_u32, parse_u64, split_char, starts_with, to_decimal, trim, words,
};

#[test]
fn trimming_takes_unicode_whitespace() {
    for s in ["", " ", " a ", "\t\u{a0}a b\u{3000}\n", "\u{200b}a", "\u{85}\u{2028}x\u{2009}"] {
        assert_eq!(trim(s), s.trim());
    }
}

#[test]
fn splitting_keeps_empty_pieces() {
    for s in ["", ",", "a", "a,b", ",a,,b,"] {
        let expected: Vec<String> = s.split(',').map(|p| p.to_string()).collect();
        assert_eq!(split_char(s, ','), expected);
    }
}

#[test]
fn lines_end_in_either_way() {
    for s in ["", "\n", "a", "a\n", "a\r\nb", "a\n\nb\r", "\r\n\r\n", "a\r\r\n"] {
        let expected: Vec<String> = s.lines().map(|p| p.to_string()).collect();
        assert_eq!(lines(s), expected);
    }
}

#[test]
fn words_are_separated_by_whitespace() {
    for s in ["", "  ", "a", " a\tb \u{3000}c\n"] {
        let expected: Vec<String> = s.split_whitespace().map(|p| p.to_string()).collect();
        assert_eq!(words(s), expected);
    }
}

#[test]
fn numbers_parse_within_range() {
    for s in [
        "0", "007", "+5", "", "+", "-1", "1 ", "4294967295", "4294967296", "18446744073709551615",
        "18446744073709551616", "1_0", "99999999999999999999999999", "++1",
    ] {
        assert_eq!(parse_u64(s), s.parse::<u64>().ok());
        assert_eq!(parse_u32(s), s.parse::<u32>().ok());
    }
}

#[test]
fn decimals_read_back() {
    for n in [0u64, 9, 10, 8192, 99, u64::MAX] {
        assert_eq!(to_decimal(n), n.to_string());
        assert_eq!(parse_u64(&to_decimal(n)), Some(n));
    }
}

#[test]
fn joining_and_padding() {
    let parts = vec!["a".to_string(), String::new(), "b".to_string()];
    assert_eq!(join(&parts, ", "), "a, , b");
    assert_eq!(join(&Vec::new(), ", "), "");
    for s in ["", "chat", "exactly-16-chars", "longer-than-sixteen", "h\u{e9}"] {
        assert_eq!(pad(s, 16), format!("{:<16}", s));
    }
}

#[test]
fn prefixes() {
    assert!(starts_with("card0", "card"));
    assert!(!starts_with("car", "card"));
    assert!(starts_with("x", ""));
}

#[test]
fn order_is_that_of_strings() {
    let all = ["", "a", "aa", "ab", "b", "A", "\u{e9}", "z", "\u{1f600}"];
    for a in all {
        for b in all {
            assert_eq!(less(a, b), a < b);
        }
    }
}

#[test]
fn quoting_is_minimal_and_safe() {
    assert_eq!(shell_quote("plain-1.2_x/y:z=+"), "plain-1.2_x/y:z=+");
    assert_eq!(shell_quote(""), "''");
    assert_eq!(shell_quote("a b"), "'a b'");
    assert_eq!(shell_quote("it's"), "'it'\\''s'");
    assert_eq!(shell_quote("$(x)"), "'$(x)'");
    assert_eq!(shell_quote("\u{e9}"), "'\u{e9}'");
}

#[test]
fn runtime_locations() {
    let rt = Runtime::from_env(None, None, None, None);
    assert_eq!(rt.config_path, "/etc/local-llm/config.toml");
    assert_eq!(rt.runtime_dir, "/run/local-llm");
    assert_eq!(rt.llama_server, "llama-server");
    assert_eq!(rt.arbiter_unit, "local-llm-arbiter.service");
    assert_eq!(rt.swap_config_path(), "/run/local-llm/llama-swap.yaml");
    assert_eq!(rt.arbiter_env_path(), "/run/local-llm/arbiter.env");
    assert_eq!(rt.socket_path(), "/run/local-llm/resourced.sock");

    let rt = Runtime::from_env(
        Some("/c".to_string()),
        Some("/r/".to_string()),
        Some("/s".to_string()),
        Some("u".to_string()),
    );
    assert_eq!(rt.config_path, "/c");
    assert_eq!(rt.socket_path(), "/r/resourced.sock");
    assert_eq!(rt.llama_server, "/s");
    assert_eq!(rt.arbiter_unit, "u");
}
