use pscols::parse_args;

fn args(v: &[&str]) -> Vec<String> {
    v.iter().map(|s| s.to_string()).collect()
}

#[test]
fn no_arguments_gives_default_reserve() {
    let c = parse_args(&args(&[]), 80).unwrap();
    assert_eq!(c.reserve_for_args, 74);
    assert!(c.queries.is_empty());
}

#[test]
fn detail_flag_forces_small_reserve() {
    // The compact reserve is 44 whatever the terminal width.
    for columns in [20u32, 80, 500] {
        let c = parse_args(&args(&["-d"]), columns).unwrap();
        assert_eq!(c.reserve_for_args, 44);
    }
}

#[test]
fn wide_flag_reserves_nearly_everything() {
    let c = parse_args(&args(&["-l"]), 100).unwrap();
    assert_eq!(c.reserve_for_args, 94);
}

#[test]
fn wide_flag_clamps_on_tiny_terminal() {
    let c = parse_args(&args(&["-l"]), 3).unwrap();
    assert_eq!(c.reserve_for_args, 0);
}

#[test]
fn later_flag_overrides_earlier() {
    let c = parse_args(&args(&["-d", "-l"]), 100).unwrap();
    assert_eq!(c.reserve_for_args, 94);
    let c = parse_args(&args(&["-l", "-d"]), 100).unwrap();
    assert_eq!(c.reserve_for_args, 44);
}

#[test]
fn unrecognized_option_is_an_error() {
    assert_eq!(parse_args(&args(&["-x"]), 80).unwrap_err(), "-x");
    assert_eq!(parse_args(&args(&["-"]), 80).unwrap_err(), "-");
    assert_eq!(parse_args(&args(&["foo", "-z", "-d"]), 80).unwrap_err(), "-z");
}

#[test]
fn double_dash_ends_flag_parsing() {
    let c = parse_args(&args(&["--", "-d", "-x"]), 80).unwrap();
    assert_eq!(c.reserve_for_args, 74);
    assert_eq!(c.queries, args(&["-d", "-x"]));
}

#[test]
fn flags_before_double_dash_still_count() {
    let c = parse_args(&args(&["-d", "--", "-l"]), 80).unwrap();
    assert_eq!(c.reserve_for_args, 44);
    assert_eq!(c.queries, args(&["-l"]));
}

#[test]
fn queries_collected_in_order() {
    let c = parse_args(&args(&["emacs", "bash", "emacs"]), 80).unwrap();
    assert_eq!(c.queries, args(&["emacs", "bash", "emacs"]));
}
