//! Resolving the invocation into a configuration, and the report of a run.

use vstd::prelude::*;
use crate::pattern::regex_compiles;
use crate::search::{hits, rule, search, select, selects, Matcher};
use crate::text::{decimal, push_decimal, push_str, same_text, texts};

verus! {

/// The argument that switches on regular-expression matching.
pub open spec fn regex_flag() -> Seq<char> {
    "--regex"@
}

/// Whether some argument after the query and the file name is the
/// regular-expression flag.
pub open spec fn has_regex_flag(args: Seq<Seq<char>>) -> bool {
    exists|i: int| 2 <= i < args.len() && #[trigger] args[i] == regex_flag()
}

/// Why the arguments give no configuration.
#[derive(Debug, PartialEq, Eq)]
pub enum ConfigError {
    /// Fewer than two arguments: a query and a file name are required.
    InsufficientArguments,
    /// Regular-expression matching was asked for and the query (held here)
    /// does not compile.
    InvalidRegex(String),
}

/// The text of the message for an error.
pub open spec fn message_of(e: ConfigError) -> Seq<char> {
    match e {
        ConfigError::InsufficientArguments => "exactly a query and a filename are required"@,
        ConfigError::InvalidRegex(q) => "`"@ + q@ + "` is not a valid regular expression"@,
    }
}

impl ConfigError {
    /// A message for the user.
    pub fn message(&self) -> (r: String)
        ensures
            r@ == message_of(*self),
    {
        match self {
            ConfigError::InsufficientArguments => "exactly a query and a filename are required".to_owned(),
            ConfigError::InvalidRegex(q) => {
                let mut m = "`".to_owned();
                push_str(&mut m, q.as_str());
                push_str(&mut m, "` is not a valid regular expression");
                m
            },
        }
    }
}

/// The resolved configuration of one search.
pub struct Config {
    query: String,
    filename: String,
    case_insensitive: bool,
    regex_mode: bool,
    matcher: Matcher,
}

impl Config {
    /// The matcher applies the strategy that the other fields select.
    #[verifier::type_invariant]
    spec fn matcher_agrees(&self) -> bool {
        forall|line: Seq<char>|
            #[trigger] self.matcher.accepts(line) == selects(
                self.query@,
                self.case_insensitive,
                self.regex_mode,
                line,
            )
    }

    /// The query.
    pub closed spec fn query_text(&self) -> Seq<char> {
        self.query@
    }

    /// The name of the file to search.
    pub closed spec fn filename_text(&self) -> Seq<char> {
        self.filename@
    }

    /// Whether literal matching ignores case, and a regular expression is
    /// compiled to ignore case.
    pub closed spec fn case_insensitive(&self) -> bool {
        self.case_insensitive
    }

    /// Whether the query is a regular expression.
    pub closed spec fn regex_mode(&self) -> bool {
        self.regex_mode
    }

    /// Resolves the arguments (the program's own name left out): the query,
    /// the file name, then any number of further arguments, of which
    /// `--regex` selects regular-expression matching. `case_insensitive`
    /// tells whether case-insensitivity was asked for. A regular expression
    /// is compiled here, so an invalid one is reported before any file is read.
    pub fn new(args: &Vec<String>, case_insensitive: bool) -> (r: Result<Config, ConfigError>)
        ensures
            args@.len() < 2 <==> r == Err::<Config, ConfigError>(ConfigError::InsufficientArguments),
            args@.len() >= 2 ==> (r is Err <==> has_regex_flag(texts(args@)) && !regex_compiles(
                args@[0]@,
                case_insensitive,
            )),
            args@.len() >= 2 ==> (r matches Err(e) ==> e matches ConfigError::InvalidRegex(q) && q@
                == args@[0]@),
            r matches Ok(c) ==> {
                &&& c.query_text() == args@[0]@
                &&& c.filename_text() == args@[1]@
                &&& c.case_insensitive() == case_insensitive
                &&& c.regex_mode() == has_regex_flag(texts(args@))
                &&& c.regex_mode() ==> regex_compiles(c.query_text(), c.case_insensitive())
            },
    {
        if args.len() < 2 {
            return Err(ConfigError::InsufficientArguments);
        }
        let mut regex_mode = false;
        for i in 2..args.len()
            invariant
                texts(args@).len() == args@.len(),
                regex_mode <==> exists|j: int| 2 <= j < i && #[trigger] texts(args@)[j] == regex_flag(),
        {
            let hit = same_text(args[i].as_str(), "--regex");
            proof {
                assert(texts(args@)[i as int] == args@[i as int]@);
            }
            if hit {
                regex_mode = true;
            }
        }
        let query = args[0].clone();
        match Matcher::new(query.as_str(), case_insensitive, regex_mode) {
            Some(matcher) => Ok(
                Config {
                    query,
                    filename: args[1].clone(),
                    case_insensitive,
                    regex_mode,
                    matcher,
                },
            ),
            None => Err(ConfigError::InvalidRegex(query)),
        }
    }

    /// The name of the file to search.
    pub fn filename(&self) -> (r: &str)
        ensures
            r@ == self.filename_text(),
    {
        self.filename.as_str()
    }
}

/// The output line for one match: `Line <number>: <text>`.
pub open spec fn report_line(number: int, line: Seq<char>) -> Seq<char> {
    "Line "@ + decimal(number as nat) + ": "@ + line
}

/// The output of a search of `content` under a configuration's query and
/// strategy: one line per matching line, in order.
pub open spec fn report(query: Seq<char>, case_insensitive: bool, regex_mode: bool, content: Seq<char>) -> Seq<
    Seq<char>,
> {
    select(content, rule(query, case_insensitive, regex_mode)).map_values(
        |p: (int, Seq<char>)| report_line(p.0, p.1),
    )
}

/// Searches `content`, the text of the configured file, and gives the
/// output lines, one per match.
pub fn run(config: &Config, content: &str) -> (r: Vec<String>)
    ensures
        texts(r@) == report(config.query_text(), config.case_insensitive(), config.regex_mode(), content@),
{
    proof {
        use_type_invariant(config);
    }
    let found = search(&config.matcher, content);
    let ghost h = hits(found@);
    let mut out: Vec<String> = Vec::new();
    for i in 0..found.len()
        invariant
            h == hits(found@),
            texts(out@) == h.take(i as int).map_values(|p: (int, Seq<char>)| report_line(p.0, p.1)),
    {
        let mut line = "Line ".to_owned();
        push_decimal(&mut line, found[i].0);
        push_str(&mut line, ": ");
        push_str(&mut line, found[i].1.as_str());
        let ghost before = out@;
        out.push(line);
        proof {
            assert(h.take(i + 1) =~= h.take(i as int).push(h[i as int]));
            assert(texts(out@) =~= texts(before).push(line@));
            assert(texts(out@) =~= h.take(i + 1).map_values(|p: (int, Seq<char>)| report_line(p.0, p.1)));
        }
    }
    proof {
        assert(h.take(found.len() as int) =~= h);
        let k = |l: Seq<char>| config.matcher.accepts(l);
        assert(k =~= rule(config.query_text(), config.case_insensitive(), config.regex_mode()));
    }
    out
}

/// The output of a run depends on the query, the two modes and the content
/// alone: two configurations that agree on those give the same output on the
/// same content, whichever compiled pattern each holds.
pub proof fn rerun_gives_same_output(a: &Config, b: &Config, content: Seq<char>)
    requires
        a.query_text() == b.query_text(),
        a.case_insensitive() == b.case_insensitive(),
        a.regex_mode() == b.regex_mode(),
    ensures
        report(a.query_text(), a.case_insensitive(), a.regex_mode(), content) == report(
            b.query_text(),
            b.case_insensitive(),
            b.regex_mode(),
            content,
        ),
{
}

} // verus!
