use juju_hooks::config::ConfigMap;
use juju_hooks::relation::parse_usize;
use juju_hooks::text::{chars_of, lines_of, split_chars, string_of, trim};
use juju_hooks::{parse_config, parse_relations, JujuError};

fn get(m: &ConfigMap, key: &str) -> Option<String> {
    m.get(&key.to_string()).cloned()
}

fn chars(s: &str) -> Vec<char> {
    s.chars().collect()
}

#[test]
fn config_dump_of_two_lines() {
    let m = parse_config("brick_paths: /mnt/brick1 /mnt/brick2\ncluster_type: Replicate\n");
    assert_eq!(m.len(), 2);
    assert_eq!(get(&m, "brick_paths"), Some(" /mnt/brick1 /mnt/brick2".to_string()));
    assert_eq!(get(&m, "cluster_type"), Some(" Replicate".to_string()));
    assert_eq!(get(&m, "missing"), None);
}

#[test]
fn config_dump_without_spaces() {
    let m = parse_config("a:1\nb:2\nc:3");
    assert_eq!(m.len(), 3);
    assert_eq!(get(&m, "a"), Some("1".to_string()));
    assert_eq!(get(&m, "b"), Some("2".to_string()));
    assert_eq!(get(&m, "c"), Some("3".to_string()));
}

#[test]
fn config_dump_skips_malformed_lines() {
    let m = parse_config("\nnovalue\nkey:\n:value\na:b:c\n:::\ngood:yes\n");
    assert_eq!(m.len(), 1);
    assert_eq!(get(&m, "good"), Some("yes".to_string()));
    assert_eq!(get(&m, "a"), None);
    assert_eq!(get(&m, "novalue"), None);
    assert_eq!(get(&m, "key"), None);
}

#[test]
fn config_dump_drops_empty_pieces() {
    let m = parse_config("::k::v::\n");
    assert_eq!(m.len(), 1);
    assert_eq!(get(&m, "k"), Some("v".to_string()));
}

#[test]
fn config_dump_last_value_wins() {
    let m = parse_config("k:1\nother:x\nk:2\n");
    assert_eq!(m.len(), 2);
    assert_eq!(get(&m, "k"), Some("2".to_string()));
    assert_eq!(get(&m, "other"), Some("x".to_string()));
}

#[test]
fn config_dump_of_nothing_is_empty() {
    assert_eq!(parse_config("").len(), 0);
    assert_eq!(parse_config("\n\n").len(), 0);
}

#[test]
fn config_dump_with_carriage_returns() {
    let m = parse_config("k:v\r\nl:w\r\n");
    assert_eq!(get(&m, "k"), Some("v".to_string()));
    assert_eq!(get(&m, "l"), Some("w".to_string()));
}

#[test]
fn config_dump_parses_the_same_twice() {
    let text = "x: 1\ny: 2\nbroken\nx: 3\n";
    let a = parse_config(text);
    let b = parse_config(text);
    assert_eq!(a.entries, b.entries);
    assert_eq!(a.len(), 2);
}

#[test]
fn config_map_insert_replaces() {
    let mut m = ConfigMap::new();
    m.insert("a".to_string(), "1".to_string());
    m.insert("b".to_string(), "2".to_string());
    m.insert("a".to_string(), "3".to_string());
    assert_eq!(m.len(), 2);
    assert_eq!(get(&m, "a"), Some("3".to_string()));
    assert_eq!(get(&m, "b"), Some("2".to_string()));
}

#[test]
fn relation_list_in_order() {
    let v = parse_relations("a/1\nb/2\n", '/').unwrap();
    assert_eq!(v.len(), 2);
    assert_eq!(v[0].name, "a");
    assert_eq!(v[0].id, 1);
    assert_eq!(v[1].name, "b");
    assert_eq!(v[1].id, 2);
}

#[test]
fn relation_ids_in_order() {
    let v = parse_relations("a:1\nb:2\n", ':').unwrap();
    assert_eq!(v.len(), 2);
    assert_eq!(v[0].name, "a");
    assert_eq!(v[0].id, 1);
    assert_eq!(v[1].name, "b");
    assert_eq!(v[1].id, 2);
}

#[test]
fn relation_list_with_long_names_and_numbers() {
    let v = parse_relations("mysql/0\nwordpress/12345", '/').unwrap();
    assert_eq!(v.len(), 2);
    assert_eq!(v[0].name, "mysql");
    assert_eq!(v[0].id, 0);
    assert_eq!(v[1].name, "wordpress");
    assert_eq!(v[1].id, 12345);
}

#[test]
fn relation_list_of_nothing_is_empty() {
    assert_eq!(parse_relations("", '/').unwrap().len(), 0);
}

#[test]
fn relation_list_ignores_what_follows_the_number() {
    let v = parse_relations("a/7/rest\n", '/').unwrap();
    assert_eq!(v[0].name, "a");
    assert_eq!(v[0].id, 7);
}

#[test]
fn relation_list_fails_on_a_bad_number() {
    match parse_relations("a/x", '/') {
        Err(JujuError::ParseIntError(m)) => assert_eq!(m, "invalid digit found in string"),
        other => panic!("unexpected: {:?}", other),
    }
    match parse_relations("a/1\nb/x\nc/3\n", '/') {
        Err(JujuError::ParseIntError(m)) => assert_eq!(m, "invalid digit found in string"),
        other => panic!("unexpected: {:?}", other),
    }
}

#[test]
fn relation_list_fails_on_a_missing_number() {
    match parse_relations("a\n", '/') {
        Err(JujuError::ParseIntError(m)) => {
            assert_eq!(m, "cannot parse integer from empty string")
        }
        other => panic!("unexpected: {:?}", other),
    }
    match parse_relations("a/\n", '/') {
        Err(JujuError::ParseIntError(m)) => {
            assert_eq!(m, "cannot parse integer from empty string")
        }
        other => panic!("unexpected: {:?}", other),
    }
}

#[test]
fn relation_list_reports_the_first_bad_line() {
    match parse_relations("a/\nb/x\n", '/') {
        Err(JujuError::ParseIntError(m)) => {
            assert_eq!(m, "cannot parse integer from empty string")
        }
        other => panic!("unexpected: {:?}", other),
    }
}

#[test]
fn numbers_are_read_in_base_ten() {
    assert_eq!(parse_usize(&chars("0")).unwrap(), 0);
    assert_eq!(parse_usize(&chars("42")).unwrap(), 42);
    assert_eq!(parse_usize(&chars("007")).unwrap(), 7);
    assert_eq!(parse_usize(&chars("+5")).unwrap(), 5);
    assert_eq!(
        parse_usize(&chars(&usize::MAX.to_string())).unwrap(),
        usize::MAX
    );
}

#[test]
fn numbers_that_cannot_be_read() {
    let message = |s: &str| parse_usize(&chars(s)).unwrap_err().to_string();
    assert_eq!(message(""), "cannot parse integer from empty string");
    assert_eq!(message("+"), "invalid digit found in string");
    assert_eq!(message("-"), "invalid digit found in string");
    assert_eq!(message("-1"), "invalid digit found in string");
    assert_eq!(message("1 "), "invalid digit found in string");
    assert_eq!(message("++1"), "invalid digit found in string");
    assert_eq!(message("12a"), "invalid digit found in string");
    assert_eq!(
        message("99999999999999999999999999"),
        "number too large to fit in target type"
    );
    assert_eq!(
        message("99999999999999999999999999x"),
        "number too large to fit in target type"
    );
    assert_eq!(message("1x99999999999999999999999999"), "invalid digit found in string");
    let mut over = usize::MAX.to_string();
    over.push('0');
    assert_eq!(message(&over), "number too large to fit in target type");
}

#[test]
fn text_is_split_at_every_delimiter() {
    let parts = split_chars(&chars("a::b:"), ':');
    assert_eq!(parts, vec![chars("a"), chars(""), chars("b"), chars("")]);
    assert_eq!(split_chars(&chars(""), ':'), vec![chars("")]);
}

#[test]
fn lines_end_at_line_feeds() {
    assert_eq!(lines_of(&chars("a\nb")), vec![chars("a"), chars("b")]);
    assert_eq!(lines_of(&chars("a\n\nb\n")), vec![chars("a"), chars(""), chars("b")]);
    assert_eq!(lines_of(&chars("a\r\nb\r")), vec![chars("a"), chars("b\r")]);
    assert_eq!(lines_of(&chars("")), Vec::<Vec<char>>::new());
}

#[test]
fn strings_and_characters_convert() {
    assert_eq!(chars_of("héllo"), chars("héllo"));
    assert_eq!(string_of(&chars("héllo")), "héllo");
    assert_eq!(string_of(&chars("")), "");
}

#[test]
fn trim_removes_white_space_at_both_ends() {
    assert_eq!(trim("  10.0.0.1\n"), "10.0.0.1");
    assert_eq!(trim("\t a b \r\n"), "a b");
    assert_eq!(trim("\u{a0}\u{3000}x\u{2028}"), "x");
    assert_eq!(trim("   "), "");
    assert_eq!(trim(""), "");
    assert_eq!(trim("x"), "x");
}

#[test]
fn relation_numbers_may_have_leading_zeros() {
    let v = parse_relations("a/007\nb/0\nc/00\n", '/').unwrap();
    assert_eq!(v.len(), 3);
    assert_eq!((v[0].name.as_str(), v[0].id), ("a", 7));
    assert_eq!((v[1].name.as_str(), v[1].id), ("b", 0));
    assert_eq!((v[2].name.as_str(), v[2].id), ("c", 0));
}

#[test]
fn config_entries_are_whole_and_come_from_the_last_line() {
    let m = parse_config(":k:\nk::first\nx\nk:second\n:\nother:1:2\n");
    assert_eq!(m.len(), 1);
    assert_eq!(get(&m, "k"), Some("second".to_string()));
    for (key, value) in m.entries.iter() {
        assert!(!key.is_empty() && !key.contains(':'));
        assert!(!value.is_empty() && !value.contains(':'));
    }
}
