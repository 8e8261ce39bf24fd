use chuk_robot_benches::cli::{flag_present, flag_value, parse_u64, parse_u64_str};

fn args(items: &[&str]) -> Vec<String> {
    items.iter().map(|s| s.to_string()).collect()
}

#[test]
fn flag_value_is_the_argument_after_the_first_occurrence() {
    let a = args(&["run", "--seed", "7", "--seed", "9", "--json"]);
    assert_eq!(flag_value(&a, "--seed"), Some("7".to_string()));
    assert_eq!(flag_value(&a, "--json"), None);
    assert_eq!(flag_value(&a, "--count"), None);
    assert_eq!(flag_value(&[], "--seed"), None);
}

#[test]
fn flag_present_matches_whole_arguments_only() {
    let a = args(&["bench", "--json", "--seed=3"]);
    assert!(flag_present(&a, "--json"));
    assert!(!flag_present(&a, "--seed"));
    assert!(!flag_present(&a, "--js"));
    assert!(!flag_present(&[], "--json"));
}

#[test]
fn parse_u64_defaults_parses_and_reports_bad_values() {
    assert_eq!(parse_u64(&args(&["run"]), "--seed", 42), Ok(42));
    assert_eq!(parse_u64(&args(&["run", "--seed", "1234"]), "--seed", 42), Ok(1234));
    assert_eq!(parse_u64(&args(&["run", "--seed", "+7"]), "--seed", 42), Ok(7));
    assert_eq!(
        parse_u64(&args(&["run", "--seed", "18446744073709551615"]), "--seed", 0),
        Ok(u64::MAX)
    );
    assert_eq!(
        parse_u64(&args(&["run", "--seed", "x1"]), "--seed", 42),
        Err("bad --seed: x1".to_string())
    );
    assert_eq!(
        parse_u64(&args(&["run", "--count", "18446744073709551616"]), "--count", 1),
        Err("bad --count: 18446744073709551616".to_string())
    );
    assert_eq!(parse_u64(&args(&["run", "--seed", ""]), "--seed", 5), Err("bad --seed: ".to_string()));
    // A trailing flag has no value, so the default applies.
    assert_eq!(parse_u64(&args(&["run", "--seed"]), "--seed", 5), Ok(5));
}

#[test]
fn parse_u64_str_agrees_with_std_parse() {
    for s in ["0", "007", "+0", "+", "", "-1", "1 ", " 1", "12a", "99999999999999999999", "18446744073709551615",
        "18446744073709551616", "٣", "+-1", "++1"] {
        assert_eq!(parse_u64_str(s), s.parse::<u64>().ok(), "input {s:?}");
    }
}
