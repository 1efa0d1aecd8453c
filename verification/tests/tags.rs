use task_manager::tags::{normalize_tag, parse_tags, without_empty};
use task_manager::text::{split, trim};

fn owned(tags: &[&str]) -> Vec<String> {
    tags.iter().map(|tag| tag.to_string()).collect()
}

#[test]
fn split_cuts_at_every_separator() {
    assert_eq!(split("a,b,c", ','), vec!["a", "b", "c"]);
    assert_eq!(split("Home, Errand", ','), vec!["Home", " Errand"]);
    assert_eq!(split("one", ','), vec!["one"]);
    assert_eq!(split("a;b,c", ';'), vec!["a", "b,c"]);
}

#[test]
fn split_keeps_empty_pieces() {
    assert_eq!(split("", ','), vec![""]);
    assert_eq!(split(",", ','), vec!["", ""]);
    assert_eq!(split("a,", ','), vec!["a", ""]);
    assert_eq!(split(",a", ','), vec!["", "a"]);
    assert_eq!(split("a,,b", ','), vec!["a", "", "b"]);
}

#[test]
fn split_agrees_with_std() {
    for input in ["", ",", "a", "a,b", ",,", "x, y ,z,", "é,ü,,ß", " , "] {
        let expected: Vec<&str> = input.split(',').collect();
        assert_eq!(split(input, ','), expected);
    }
}

#[test]
fn split_counts_characters_not_bytes() {
    assert_eq!(split("é,日本語,ü", ','), vec!["é", "日本語", "ü"]);
}

#[test]
fn trim_removes_white_space_at_both_ends() {
    assert_eq!(trim("  a b  "), "a b");
    assert_eq!(trim("a"), "a");
    assert_eq!(trim("\t\n x \r\n"), "x");
    assert_eq!(trim("x  "), "x");
    assert_eq!(trim("  x"), "x");
}

#[test]
fn trim_of_white_space_only_is_empty() {
    assert_eq!(trim(""), "");
    assert_eq!(trim(" "), "");
    assert_eq!(trim(" \t \n "), "");
}

#[test]
fn trim_knows_unicode_white_space() {
    assert_eq!(trim("\u{2003}é\u{00A0}"), "é");
    assert_eq!(trim("\u{3000}日本 語\u{3000}"), "日本 語");
}

#[test]
fn trim_agrees_with_std() {
    let inputs =
        ["", " ", "a", " a", "a ", " a b ", "\u{2028}x\u{2029}", "  é  ü  ", "\u{200B}x"];
    for input in inputs {
        assert_eq!(trim(input), input.trim());
    }
}

#[test]
fn normalize_tag_trims_and_lowercases() {
    assert_eq!(normalize_tag(" Home "), "home");
    assert_eq!(normalize_tag("ERRAND"), "errand");
    assert_eq!(normalize_tag("already"), "already");
    assert_eq!(normalize_tag("  "), "");
    assert_eq!(normalize_tag(" ÄÖÜ "), "äöü");
    assert_eq!(normalize_tag("Two Words"), "two words");
}

#[test]
fn parse_tags_reads_a_comma_separated_list() {
    assert_eq!(parse_tags("Home, Errand"), owned(&["home", "errand"]));
    assert_eq!(parse_tags("a,b,c"), owned(&["a", "b", "c"]));
    assert_eq!(parse_tags("Work"), owned(&["work"]));
}

#[test]
fn parse_tags_drops_empty_pieces() {
    assert_eq!(parse_tags(""), owned(&[]));
    assert_eq!(parse_tags(" "), owned(&[]));
    assert_eq!(parse_tags(",, ,"), owned(&[]));
    assert_eq!(parse_tags(" Home , ,ERRAND,,"), owned(&["home", "errand"]));
}

#[test]
fn parse_tags_keeps_order_and_duplicates() {
    assert_eq!(parse_tags("b, a, B, a"), owned(&["b", "a", "b", "a"]));
}

#[test]
fn without_empty_drops_only_the_empty_strings() {
    assert_eq!(without_empty(owned(&["a", "", "b", "", ""])), owned(&["a", "b"]));
    assert_eq!(without_empty(owned(&["", ""])), owned(&[]));
    assert_eq!(without_empty(owned(&[])), owned(&[]));
    assert_eq!(without_empty(owned(&[" ", "x"])), owned(&[" ", "x"]));
}
