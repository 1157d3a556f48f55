use textgraph::graph::BrailleType;
use textgraph::graph::GraphType;
use textgraph::parseopts::parse_digits;
use textgraph::parseopts::parseopt;
use textgraph::parseopts::split_eq;
use textgraph::parseopts::str_eq;
use textgraph::parseopts::OptError;
use textgraph::parseopts::OptsBuilder;

fn fresh() -> OptsBuilder {
    OptsBuilder {
        width: None,
        height: None,
        graph_type: GraphType::Star,
        silent: false,
        last_n: None,
        cut: false,
        in_file: None,
        color: None,
    }
}

#[test]
fn str_eq_compares_contents() {
    assert!(str_eq("width", "width"));
    assert!(!str_eq("width", "widths"));
    assert!(!str_eq("width", "midth"));
    assert!(str_eq("", ""));
}

#[test]
fn parse_digits_accepts_numbers() {
    assert_eq!(parse_digits("0"), Some(0));
    assert_eq!(parse_digits("123"), Some(123));
    assert_eq!(parse_digits("18446744073709551615"), Some(u64::MAX));
}

#[test]
fn parse_digits_rejects_junk() {
    assert_eq!(parse_digits(""), None);
    assert_eq!(parse_digits("12a"), None);
    assert_eq!(parse_digits("-3"), None);
    assert_eq!(parse_digits("18446744073709551616"), None);
}

#[test]
fn split_eq_splits_at_first_equals() {
    let (name, value) = split_eq("width=80");
    assert_eq!(name, "width");
    assert_eq!(value, Some(String::from("80")));
    let (name2, value2) = split_eq("a=b=c");
    assert_eq!(name2, "a");
    assert_eq!(value2, Some(String::from("b=c")));
    let (name3, value3) = split_eq("silent");
    assert_eq!(name3, "silent");
    assert_eq!(value3, None);
}

#[test]
fn parseopt_sets_graph_type() {
    let mut o = fresh();
    assert!(parseopt(&mut o, "t", Some(String::from("ascii"))).is_ok());
    assert!(matches!(o.graph_type, GraphType::Ascii));
    assert!(parseopt(&mut o, "t", Some(String::from("star"))).is_ok());
    assert!(matches!(o.graph_type, GraphType::Star));
    assert!(parseopt(&mut o, "t", Some(String::from("braille"))).is_ok());
    assert!(matches!(o.graph_type, GraphType::Braille(BrailleType::Dot6)));
    assert!(parseopt(&mut o, "t", Some(String::from("braille6"))).is_ok());
    assert!(matches!(o.graph_type, GraphType::Braille(BrailleType::Dot6)));
    assert!(parseopt(&mut o, "t", Some(String::from("braille8"))).is_ok());
    assert!(matches!(o.graph_type, GraphType::Braille(BrailleType::Dot8)));
}

#[test]
fn parseopt_rejects_unknown_graph_type() {
    let mut o = fresh();
    assert_eq!(
        parseopt(&mut o, "t", Some(String::from("dots"))),
        Err(OptError::UnknownGraphType)
    );
    assert_eq!(parseopt(&mut o, "t", None), Err(OptError::MissingValue));
}

#[test]
fn parseopt_sets_numeric_options() {
    let mut o = fresh();
    assert!(parseopt(&mut o, "w", Some(String::from("80"))).is_ok());
    assert_eq!(o.width, Some(80));
    assert!(parseopt(&mut o, "height", Some(String::from("24"))).is_ok());
    assert_eq!(o.height, Some(24));
    assert!(parseopt(&mut o, "n", Some(String::from("100"))).is_ok());
    assert_eq!(o.last_n, Some(100));
    assert!(parseopt(&mut o, "last-n", Some(String::from("7"))).is_ok());
    assert_eq!(o.last_n, Some(7));
}

#[test]
fn parseopt_rejects_bad_numbers() {
    let mut o = fresh();
    assert_eq!(
        parseopt(&mut o, "w", Some(String::from("eighty"))),
        Err(OptError::BadNumber)
    );
    assert_eq!(parseopt(&mut o, "h", None), Err(OptError::MissingValue));
    assert_eq!(o.width, None);
    assert_eq!(o.height, None);
}

#[test]
fn parseopt_sets_flags() {
    let mut o = fresh();
    assert!(parseopt(&mut o, "s", None).is_ok());
    assert!(o.silent);
    assert!(parseopt(&mut o, "c", None).is_ok());
    assert!(o.cut);
    assert!(parseopt(&mut o, "a", None).is_ok());
    assert!(matches!(o.graph_type, GraphType::Ascii));
    assert!(parseopt(&mut o, "b", None).is_ok());
    assert!(matches!(o.graph_type, GraphType::Braille(BrailleType::Dot6)));
}

#[test]
fn parseopt_sets_color() {
    let mut o = fresh();
    assert!(parseopt(&mut o, "color", Some(String::from("yes"))).is_ok());
    assert_eq!(o.color, Some(true));
    assert!(parseopt(&mut o, "color", Some(String::from("no"))).is_ok());
    assert_eq!(o.color, Some(false));
    assert_eq!(
        parseopt(&mut o, "color", Some(String::from("maybe"))),
        Err(OptError::UnknownColor)
    );
}

#[test]
fn parseopt_help_and_unknown() {
    let mut o = fresh();
    assert_eq!(parseopt(&mut o, "help", None), Err(OptError::Help));
    assert_eq!(parseopt(&mut o, "zz", None), Err(OptError::UnknownOption));
}

#[test]
fn build_uses_explicit_sizes() {
    let mut o = fresh();
    o.width = Some(80);
    o.height = Some(24);
    let opts = o.build(None, false).unwrap();
    assert_eq!(opts.width, 80);
    assert_eq!(opts.height, 24);
    assert!(!opts.color);
}

#[test]
fn build_falls_back_to_terminal_size() {
    let o = fresh();
    let opts = o.build(Some((80, 24)), true).unwrap();
    assert_eq!(opts.width, 80);
    // One terminal row is kept free below the graph.
    assert_eq!(opts.height, 23);
    assert!(opts.color);
}

#[test]
fn build_without_any_size_fails() {
    let o = fresh();
    assert!(matches!(o.build(None, false), Err(OptError::MissingWidth)));
    let mut o2 = fresh();
    o2.width = Some(80);
    assert!(matches!(o2.build(None, false), Err(OptError::MissingHeight)));
}

#[test]
fn build_rejects_zero_sizes() {
    let mut o = fresh();
    o.width = Some(0);
    o.height = Some(24);
    assert!(matches!(o.build(None, false), Err(OptError::ZeroWidth)));
    let mut o2 = fresh();
    o2.width = Some(80);
    o2.height = Some(0);
    assert!(matches!(o2.build(None, false), Err(OptError::ZeroHeight)));
    // A one-row terminal leaves no row for the graph.
    let o3 = fresh();
    assert!(matches!(o3.build(Some((80, 1)), false), Err(OptError::ZeroHeight)));
}

#[test]
fn build_explicit_color_wins_over_terminal() {
    let mut o = fresh();
    o.width = Some(10);
    o.height = Some(5);
    o.color = Some(true);
    let opts = o.build(None, false).unwrap();
    assert!(opts.color);
}

#[test]
fn parseopts_walks_a_whole_command_line() {
    let args: Vec<String> = vec![
        String::from("-w"),
        String::from("80"),
        String::from("--height=24"),
        String::from("-sb"),
        String::from("data.txt"),
    ];
    let o = textgraph::parseopts::parseopts(&args).unwrap();
    assert_eq!(o.width, Some(80));
    assert_eq!(o.height, Some(24));
    assert!(o.silent);
    assert!(matches!(o.graph_type, GraphType::Braille(BrailleType::Dot6)));
    assert_eq!(o.in_file, Some(String::from("data.txt")));
}

#[test]
fn parseopts_cluster_consumes_values_in_order() {
    let args: Vec<String> = vec![String::from("-wn"), String::from("5"), String::from("3")];
    let o = textgraph::parseopts::parseopts(&args).unwrap();
    assert_eq!(o.width, Some(5));
    assert_eq!(o.last_n, Some(3));
}

#[test]
fn parseopts_long_option_takes_next_argument() {
    let args: Vec<String> = vec![
        String::from("--color"),
        String::from("no"),
        String::from("--last-n"),
        String::from("9"),
    ];
    let o = textgraph::parseopts::parseopts(&args).unwrap();
    assert_eq!(o.color, Some(false));
    assert_eq!(o.last_n, Some(9));
}

#[test]
fn parseopts_rejects_second_positional() {
    let args: Vec<String> = vec![String::from("a.txt"), String::from("b.txt")];
    assert!(matches!(
        textgraph::parseopts::parseopts(&args),
        Err(OptError::UnexpectedArgument)
    ));
}

#[test]
fn parseopts_rejects_unknown_long_option() {
    let args: Vec<String> = vec![String::from("--frob")];
    assert!(matches!(
        textgraph::parseopts::parseopts(&args),
        Err(OptError::UnknownOption)
    ));
}

#[test]
fn parseopts_lone_dash_is_ignored() {
    let args: Vec<String> = vec![String::from("-")];
    let o = textgraph::parseopts::parseopts(&args).unwrap();
    assert_eq!(o.in_file, None);
    assert_eq!(o.width, None);
}

#[test]
fn parseopts_missing_trailing_value() {
    let args: Vec<String> = vec![String::from("--width")];
    assert!(matches!(
        textgraph::parseopts::parseopts(&args),
        Err(OptError::MissingValue)
    ));
}
