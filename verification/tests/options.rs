use appmem::java::JavaStrategy;
use appmem::options::{parse_options, Options, DEFAULT_LIMIT};

fn parse(args: &[&str]) -> Options {
    let owned: Vec<String> = args.iter().map(|a| a.to_string()).collect();
    parse_options(&owned)
}

fn options(limit: usize, strategy: JavaStrategy) -> Options {
    Options { limit, strategy }
}

#[test]
fn without_arguments_the_defaults_hold() {
    assert_eq!(DEFAULT_LIMIT, 20);
    assert_eq!(parse(&[]), options(20, JavaStrategy::Auto));
}

#[test]
fn the_first_plain_argument_is_the_limit() {
    assert_eq!(parse(&["5"]), options(5, JavaStrategy::Auto));
    assert_eq!(parse(&["0"]), options(0, JavaStrategy::Auto));
    assert_eq!(parse(&["+3"]), options(3, JavaStrategy::Auto));
    assert_eq!(parse(&["007"]), options(7, JavaStrategy::Auto));
    assert_eq!(parse(&["5", "9"]), options(5, JavaStrategy::Auto));
    assert_eq!(parse(&["x", "9"]), options(20, JavaStrategy::Auto));
}

#[test]
fn a_limit_that_is_no_number_gives_the_default() {
    for arg in ["", "x", "-1", "1.5", "5 ", " 5", "ten", "--limit=5", "99999999999999999999999"] {
        assert_eq!(parse(&[arg]), options(20, JavaStrategy::Auto), "argument {:?}", arg);
    }
}

#[test]
fn the_limit_agrees_with_the_standard_library() {
    for arg in ["1", "+1", "-1", "", "0", "18446744073709551615", "18446744073709551616", "4294967296"] {
        let expected = arg.parse::<usize>().unwrap_or(20);
        assert_eq!(parse(&[arg]).limit, expected, "argument {:?}", arg);
    }
}

#[test]
fn the_strategy_flag_may_stand_anywhere() {
    assert_eq!(parse(&["--java-by=jar"]), options(20, JavaStrategy::Jar));
    assert_eq!(parse(&["--java-by=main"]), options(20, JavaStrategy::Main));
    assert_eq!(parse(&["--java-by=auto"]), options(20, JavaStrategy::Auto));
    assert_eq!(parse(&["--java-by=jar", "7"]), options(7, JavaStrategy::Jar));
    assert_eq!(parse(&["7", "--java-by=main"]), options(7, JavaStrategy::Main));
    assert_eq!(parse(&["x", "--java-by=main", "7"]), options(20, JavaStrategy::Main));
}

#[test]
fn an_unknown_strategy_is_automatic() {
    assert_eq!(parse(&["--java-by=class"]), options(20, JavaStrategy::Auto));
    assert_eq!(parse(&["--java-by="]), options(20, JavaStrategy::Auto));
    assert_eq!(parse(&["--java-by=jar "]), options(20, JavaStrategy::Auto));
    assert_eq!(parse(&["--java-by", "jar"]), options(20, JavaStrategy::Auto));
}

#[test]
fn the_first_strategy_flag_decides() {
    assert_eq!(parse(&["--java-by=main", "--java-by=jar"]), options(20, JavaStrategy::Main));
    assert_eq!(parse(&["--java-by=bogus", "--java-by=jar", "3"]), options(3, JavaStrategy::Auto));
}
