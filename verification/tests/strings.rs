//! Reading alias listings and shell paths.

use television::channels::alias::{lists_aliases, parse_alias, parse_aliases, shell_name};
use television::utils::strings::{
    last_segment, lines, lowercase_is, position, same_text, starts_with, to_ascii_lower,
};

fn parsed(line: &str) -> Option<(String, Option<String>)> {
    parse_alias(line).map(|alias| (alias.name().clone(), alias.value().clone()))
}

fn pair(name: &str, value: &str) -> Option<(String, Option<String>)> {
    Some((name.to_string(), Some(value.to_string())))
}

#[test]
fn alias_is_split_at_the_first_equals_sign() {
    assert_eq!(parsed("ll=ls -la"), pair("ll", "ls -la"));
    assert_eq!(parsed("gs=git status"), pair("gs", "git status"));
}

#[test]
fn alias_value_ends_at_the_second_equals_sign() {
    assert_eq!(parsed("a=b=c"), pair("a", "b"));
    assert_eq!(parsed("a=="), pair("a", ""));
    assert_eq!(parsed("k=v=w=x"), pair("k", "v"));
}

#[test]
fn alias_may_have_an_empty_side() {
    assert_eq!(parsed("a="), pair("a", ""));
    assert_eq!(parsed("=b"), pair("", "b"));
    assert_eq!(parsed("="), pair("", ""));
}

#[test]
fn line_without_equals_sign_is_no_alias() {
    assert_eq!(parsed("ll"), None);
    assert_eq!(parsed(""), None);
    assert_eq!(parsed("ls -la"), None);
}

#[test]
fn alias_with_letters_beyond_ascii() {
    assert_eq!(parsed("é=ü ö"), pair("é", "ü ö"));
    assert_eq!(parsed("日本=語=x"), pair("日本", "語"));
}

#[test]
fn aliases_are_parsed_in_order() {
    let lines = vec!["ll=ls -la".to_string(), "gs=git status".to_string()];
    let aliases = parse_aliases(&lines).expect("two aliases");
    assert_eq!(aliases.len(), 2);
    assert_eq!(aliases[0].name(), "ll");
    assert_eq!(aliases[0].value(), &Some("ls -la".to_string()));
    assert_eq!(aliases[1].name(), "gs");
    assert_eq!(aliases[1].value(), &Some("git status".to_string()));
    assert!(parse_aliases(&vec![]).expect("no line, no alias").is_empty());
}

#[test]
fn first_line_without_alias_is_reported() {
    let lines = vec![
        "ll=ls -la".to_string(),
        "broken".to_string(),
        "gs=git status".to_string(),
        "also broken".to_string(),
    ];
    assert_eq!(parse_aliases(&lines).err(), Some(1));
}

#[test]
fn shell_is_named_by_the_end_of_its_path() {
    assert_eq!(shell_name("/bin/zsh"), "zsh");
    assert_eq!(shell_name("/usr/local/bin/bash"), "bash");
    assert_eq!(shell_name("bash"), "bash");
    assert_eq!(shell_name("/bin/"), "");
    assert_eq!(shell_name(""), "");
    assert_eq!(shell_name("/"), "");
    assert_eq!(last_segment("a.b.c", '.'), "c");
}

#[test]
fn only_bash_and_zsh_list_aliases() {
    assert!(lists_aliases("bash"));
    assert!(lists_aliases("zsh"));
    assert!(!lists_aliases("fish"));
    assert!(!lists_aliases("Bash"));
    assert!(!lists_aliases("/bin/bash"));
    assert!(!lists_aliases(""));
}

#[test]
fn text_is_split_into_lines() {
    assert_eq!(lines("ll=ls -la\ngs=git status\n"), vec!["ll=ls -la", "gs=git status"]);
    assert_eq!(lines("a\nb"), vec!["a", "b"]);
    assert_eq!(lines("a\r\nb\r\n"), vec!["a", "b"]);
    assert_eq!(lines("a\n\nb"), vec!["a", "", "b"]);
    assert_eq!(lines("\n"), vec![""]);
    assert_eq!(lines("a\r"), vec!["a\r"]);
    assert_eq!(lines("a\r\r\n"), vec!["a\r"]);
    assert_eq!(lines("a\rb\n"), vec!["a\rb"]);
    assert!(lines("").is_empty());
}

#[test]
fn lines_agree_with_std() {
    let texts = [
        "", "\n", "\r\n", "\r", "a", "a\n", "a\r\n", "\na", "\r\na", "a\n\n", "a\r\n\r\n",
        "one\ntwo\r\nthree", "é=ü\r\n日本=語\n", "x\r\ry\n\rz", "\n\n\n", "tail\r",
    ];
    for text in texts {
        let expected: Vec<String> = text.lines().map(|line| line.to_string()).collect();
        assert_eq!(lines(text), expected);
    }
}

#[test]
fn position_finds_the_next_separator() {
    assert_eq!(position("a=b=c", '=', 0), 1);
    assert_eq!(position("a=b=c", '=', 1), 1);
    assert_eq!(position("a=b=c", '=', 2), 3);
    assert_eq!(position("a=b=c", '=', 4), 5);
    assert_eq!(position("a=b=c", '=', 5), 5);
    assert_eq!(position("abc", '=', 0), 3);
    assert_eq!(position("", '=', 0), 0);
    assert_eq!(position("é=ü", '=', 0), 1);
}

#[test]
fn prefixes_are_told() {
    assert!(starts_with("ll", "l"));
    assert!(starts_with("ll", "ll"));
    assert!(starts_with("ll", ""));
    assert!(starts_with("", ""));
    assert!(!starts_with("l", "ll"));
    assert!(!starts_with("ll", "la"));
    assert!(!starts_with("", "l"));
    assert!(starts_with("éa", "é"));
    assert!(!starts_with("éa", "e"));
}

#[test]
fn prefixes_agree_with_std() {
    let words = ["", "a", "ab", "abc", "b", "ba", "é", "éa", "aé", "日本", "日"];
    for s in words {
        for prefix in words {
            assert_eq!(starts_with(s, prefix), s.starts_with(prefix));
            assert_eq!(same_text(s, prefix), s == prefix);
        }
    }
}

#[test]
fn same_text_is_equality() {
    assert!(same_text("ll", "ll"));
    assert!(same_text("", ""));
    assert!(!same_text("ll", "l"));
    assert!(!same_text("l", "ll"));
    assert!(!same_text("ll", "lL"));
    assert!(!same_text("", "l"));
}

#[test]
fn small_letters_of_ascii_capitals() {
    assert_eq!(to_ascii_lower('A'), 'a');
    assert_eq!(to_ascii_lower('Z'), 'z');
    assert_eq!(to_ascii_lower('M'), 'm');
    assert_eq!(to_ascii_lower('a'), 'a');
    assert_eq!(to_ascii_lower('@'), '@');
    assert_eq!(to_ascii_lower('['), '[');
    assert_eq!(to_ascii_lower('É'), 'É');
    assert_eq!(to_ascii_lower('0'), '0');
    for code in 0u8..=127 {
        let c = code as char;
        assert_eq!(to_ascii_lower(c), c.to_ascii_lowercase());
    }
}

#[test]
fn lowered_text_is_held_against_a_key() {
    assert!(lowercase_is("FILES", "files"));
    assert!(lowercase_is("files", "files"));
    assert!(lowercase_is("FiLeS", "files"));
    assert!(!lowercase_is("file", "files"));
    assert!(!lowercase_is("filess", "files"));
    assert!(!lowercase_is("files", "FILES"));
    assert!(lowercase_is("", ""));
    for word in ["Env", "ENV", "eNv", "env ", "énv", "ÉNV"] {
        assert_eq!(lowercase_is(word, "env"), word.to_ascii_lowercase() == "env");
    }
}
