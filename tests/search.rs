use minigrep::{run, search, Config, ConfigError, Matcher};

const POEM: &str = "Rust:
safe, fast, productive.
Pick three.";

const POEM4: &str = "Rust:
safe, fast, productive.
Pick three.
Trust me.";

fn args(list: &[&str]) -> Vec<String> {
    list.iter().map(|s| s.to_string()).collect()
}

fn pairs(list: &[(usize, &str)]) -> Vec<(usize, String)> {
    list.iter().map(|(n, s)| (*n, s.to_string())).collect()
}

fn regex(q: &str) -> Matcher {
    Matcher::new(q, false, true).unwrap()
}

fn literal(q: &str) -> Matcher {
    Matcher::new(q, false, false).unwrap()
}

#[test]
fn new_config() {
    let config = Config::new(&args(&["[a-z]", "poem.txt", "--regex"]), false);
    assert!(config.is_ok());
    let config = config.unwrap();
    assert_eq!(config.filename(), "poem.txt");
    assert_eq!(run(&config, POEM).len(), 3);
}

#[test]
fn new_config_invalid_regex() {
    let config = Config::new(&args(&["[a-z\\]", "poem.txt", "--regex"]), false);
    assert!(config.is_err());
    assert!(matches!(config, Err(ConfigError::InvalidRegex(ref q)) if q == "[a-z\\]"));
}

#[test]
fn one_result() {
    assert_eq!(pairs(&[(2, "safe, fast, productive.")]), search(&regex("duct"), POEM));
}

#[test]
fn no_result() {
    assert_eq!(Vec::<(usize, String)>::new(), search(&regex("404"), POEM));
}

#[test]
fn two_results() {
    assert_eq!(
        pairs(&[(1, "Rust:"), (2, "safe, fast, productive.")]),
        search(&regex("st"), POEM)
    );
}

#[test]
fn case_insensitive() {
    let query = Matcher::new("RuST", true, true).unwrap();
    assert_eq!(pairs(&[(1, "Rust:"), (4, "Trust me.")]), search(&query, POEM4));
}

#[test]
fn case_regex() {
    assert_eq!(
        pairs(&[(1, "Rust:"), (2, "safe, fast, productive."), (3, "Pick three.")]),
        search(&regex(r"\b[a-zA-Z]{4}\b"), POEM4)
    );
}

#[test]
fn literal_one_result() {
    assert_eq!(pairs(&[(2, "safe, fast, productive.")]), search(&literal("duct"), POEM));
}

#[test]
fn literal_no_result() {
    assert_eq!(Vec::<(usize, String)>::new(), search(&literal("404"), POEM));
}

#[test]
fn literal_two_results() {
    assert_eq!(
        pairs(&[(1, "Rust:"), (2, "safe, fast, productive.")]),
        search(&literal("st"), POEM)
    );
}

#[test]
fn literal_keeps_case() {
    assert_eq!(Vec::<(usize, String)>::new(), search(&literal("RuST"), POEM4));
}

#[test]
fn literal_case_insensitive() {
    let query = Matcher::new("RuST", true, false).unwrap();
    assert_eq!(pairs(&[(1, "Rust:"), (4, "Trust me.")]), search(&query, POEM4));
}

#[test]
fn case_insensitive_covers_literal_on_values() {
    let lit = search(&literal("st"), POEM4);
    let folded = search(&Matcher::new("st", true, false).unwrap(), POEM4);
    assert_eq!(lit, pairs(&[(1, "Rust:"), (2, "safe, fast, productive."), (4, "Trust me.")]));
    for hit in &lit {
        assert!(folded.contains(hit));
    }
}

#[test]
fn literal_ignores_regex_syntax() {
    let config = Config::new(&args(&["[a-z\\]", "poem.txt"]), false).unwrap();
    assert_eq!(run(&config, "a [a-z\\] b\nplain").len(), 1);
}

#[test]
fn empty_query_matches_every_line() {
    assert_eq!(
        pairs(&[(1, "Rust:"), (2, "safe, fast, productive."), (3, "Pick three.")]),
        search(&literal(""), POEM)
    );
}

#[test]
fn empty_content_has_no_match() {
    assert_eq!(Vec::<(usize, String)>::new(), search(&literal(""), ""));
}

#[test]
fn line_breaks_follow_lines() {
    assert_eq!(
        pairs(&[(1, "a"), (2, ""), (3, "b"), (4, "c\r")]),
        search(&literal(""), "a\r\n\nb\nc\r")
    );
    assert_eq!(pairs(&[(1, "x")]), search(&literal(""), "x\n"));
}

#[test]
fn too_few_arguments() {
    assert!(matches!(Config::new(&args(&[]), false), Err(ConfigError::InsufficientArguments)));
    assert!(matches!(Config::new(&args(&["query"]), true), Err(ConfigError::InsufficientArguments)));
    assert!(matches!(Config::new(&args(&["--regex"]), false), Err(ConfigError::InsufficientArguments)));
}

#[test]
fn regex_flag_must_be_exact() {
    let config = Config::new(&args(&["[a-z\\]", "poem.txt", "--regexp", "-regex"]), false);
    assert!(config.is_ok());
    let config = Config::new(&args(&["[", "--regex"]), false).unwrap();
    assert_eq!(config.filename(), "--regex");
}

#[test]
fn regex_ignores_case_when_asked() {
    let config = Config::new(&args(&["^rust", "poem.txt", "--regex"]), true).unwrap();
    assert_eq!(run(&config, POEM4), vec!["Line 1: Rust:".to_string()]);
    let config = Config::new(&args(&["^rust", "poem.txt", "--regex"]), false).unwrap();
    assert!(run(&config, POEM4).is_empty());
}

#[test]
fn run_formats_lines() {
    let config = Config::new(&args(&["st", "poem.txt"]), false).unwrap();
    assert_eq!(
        run(&config, POEM),
        vec!["Line 1: Rust:".to_string(), "Line 2: safe, fast, productive.".to_string()]
    );
}

#[test]
fn run_numbers_past_nine() {
    let content = "a\nb\nc\nd\ne\nf\ng\nh\ni\nj\nk\nneedle";
    let config = Config::new(&args(&["needle", "f.txt"]), false).unwrap();
    assert_eq!(run(&config, content), vec!["Line 12: needle".to_string()]);
}

#[test]
fn run_twice_gives_same_output() {
    let a = Config::new(&args(&["RuST", "poem.txt"]), true).unwrap();
    let b = Config::new(&args(&["RuST", "poem.txt"]), true).unwrap();
    assert_eq!(run(&a, POEM4), run(&b, POEM4));
    assert_eq!(run(&a, POEM4), vec!["Line 1: Rust:".to_string(), "Line 4: Trust me.".to_string()]);
}

#[test]
fn error_messages() {
    assert_eq!(
        ConfigError::InsufficientArguments.message(),
        "exactly a query and a filename are required"
    );
    assert_eq!(
        ConfigError::InvalidRegex("[a".to_string()).message(),
        "`[a` is not a valid regular expression"
    );
}

#[test]
fn case_folding_changes_letters() {
    let query = Matcher::new("ÉTÉ", true, false).unwrap();
    assert_eq!(pairs(&[(2, "un été")]), search(&query, "winter\nun été"));
    assert!(query.test("ÉTÉ"));
    assert!(!literal("ÉTÉ").test("été"));
}
