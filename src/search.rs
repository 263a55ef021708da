//! The matcher: which lines of a text satisfy the query, with their numbers.

use vstd::prelude::*;
use crate::pattern::{regex_finds, Pattern};
use crate::text::{char_lower, chars_of, contains, lemma_folded_concat, fold_case, folded, has_substring, lines_of, split_lines};

verus! {

/// Whether `line` satisfies `query` under the chosen strategy: a regular
/// expression when `regex_mode` holds (case-insensitivity then belongs to the
/// compiled pattern), else a literal substring, compared after lower-casing
/// both sides when `case_insensitive` holds.
pub open spec fn selects(query: Seq<char>, case_insensitive: bool, regex_mode: bool, line: Seq<char>) -> bool {
    if regex_mode {
        regex_finds(query, case_insensitive, line)
    } else if case_insensitive {
        contains(folded(line), folded(query))
    } else {
        contains(line, query)
    }
}

/// `selects` for one query and strategy, as a predicate on lines.
pub open spec fn rule(query: Seq<char>, case_insensitive: bool, regex_mode: bool) -> spec_fn(Seq<char>) -> bool {
    |line: Seq<char>| selects(query, case_insensitive, regex_mode, line)
}

/// Lines numbered from 1.
pub open spec fn numbered(ls: Seq<Seq<char>>) -> Seq<(int, Seq<char>)> {
    ls.map(|i: int, l: Seq<char>| (i + 1, l))
}

/// `keep`, applied to the text of a numbered line.
pub open spec fn by_line(keep: spec_fn(Seq<char>) -> bool) -> spec_fn((int, Seq<char>)) -> bool {
    |p: (int, Seq<char>)| keep(p.1)
}

/// The numbered lines of `content` that `keep` holds of, in order.
pub open spec fn select(content: Seq<char>, keep: spec_fn(Seq<char>) -> bool) -> Seq<(int, Seq<char>)> {
    numbered(lines_of(content)).filter(by_line(keep))
}

/// The view of a list of matches.
pub open spec fn hits(r: Seq<(usize, String)>) -> Seq<(int, Seq<char>)> {
    r.map_values(|p: (usize, String)| (p.0 as int, p.1@))
}

/// One of the three matching strategies, with the state it needs.
pub enum Matcher {
    /// Substring containment; holds the query.
    Literal(Vec<char>),
    /// Substring containment after lower-casing; holds the lower-cased query.
    CaseInsensitive(Vec<char>),
    /// A compiled regular expression.
    Regex(Pattern),
}

impl Matcher {
    /// Whether the matcher accepts `line`.
    pub open spec fn accepts(&self, line: Seq<char>) -> bool {
        match self {
            Matcher::Literal(q) => contains(line, q@),
            Matcher::CaseInsensitive(fq) => contains(folded(line), fq@),
            Matcher::Regex(p) => regex_finds(p.source(), p.ignores_case(), line),
        }
    }

    /// Selects the strategy: a regular expression when `regex_mode` holds,
    /// else a literal one, case-insensitive when `case_insensitive` holds.
    /// `None` exactly when a regular expression is asked for and `query` does
    /// not compile.
    pub fn new(query: &str, case_insensitive: bool, regex_mode: bool) -> (r: Option<Matcher>)
        ensures
            r is None <==> regex_mode && !crate::pattern::regex_compiles(query@, case_insensitive),
            r matches Some(m) ==> forall|line: Seq<char>|
                #[trigger] m.accepts(line) == selects(query@, case_insensitive, regex_mode, line),
            r matches Some(m) ==> (m is Regex <==> regex_mode),
    {
        if regex_mode {
            match Pattern::new(query, case_insensitive) {
                Some(p) => Some(Matcher::Regex(p)),
                None => None,
            }
        } else if case_insensitive {
            let q = chars_of(query);
            Some(Matcher::CaseInsensitive(fold_case(&q)))
        } else {
            Some(Matcher::Literal(chars_of(query)))
        }
    }

    /// Whether the matcher accepts `line`.
    pub fn test(&self, line: &str) -> (r: bool)
        ensures
            r == self.accepts(line@),
    {
        match self {
            Matcher::Literal(q) => has_substring(&chars_of(line), q),
            Matcher::CaseInsensitive(fq) => {
                let l = chars_of(line);
                has_substring(&fold_case(&l), fq)
            },
            Matcher::Regex(p) => p.is_match(line),
        }
    }
}

/// The lines of `content` that `matcher` accepts, each with its number
/// counted from 1, in order.
pub fn search(matcher: &Matcher, content: &str) -> (r: Vec<(usize, String)>)
    ensures
        hits(r@) == select(content@, |l: Seq<char>| matcher.accepts(l)),
{
    let lines = split_lines(content);
    let ghost ls = lines_of(content@);
    let ghost keep = |p: (int, Seq<char>)| matcher.accepts(p.1);
    let mut r: Vec<(usize, String)> = Vec::new();
    proof {
        assert(numbered(ls).take(0) =~= Seq::<(int, Seq<char>)>::empty());
        reveal(Seq::filter);
        assert(hits(r@) =~= numbered(ls).take(0).filter(keep));
    }
    for i in 0..lines.len()
        invariant
            crate::text::texts(lines@) == ls,
            hits(r@) == numbered(ls).take(i as int).filter(keep),
            keep == (|p: (int, Seq<char>)| matcher.accepts(p.1)),
    {
        let ghost before = r@;
        proof {
            assert(numbered(ls).take(i + 1) =~= numbered(ls).take(i as int).push((i + 1, lines@[i as int]@)));
            numbered(ls).take(i as int).lemma_filter_push((i + 1, lines@[i as int]@), keep);
        }
        if matcher.test(lines[i].as_str()) {
            r.push((i + 1, lines[i].clone()));
            assert(hits(r@) =~= hits(before).push((i + 1, lines@[i as int]@)));
        }
    }
    proof {
        assert(numbered(ls).take(lines.len() as int) =~= numbered(ls));
        let k2 = |l: Seq<char>| matcher.accepts(l);
        assert(by_line(k2) =~= keep);
    }
    r
}

/// What the first `n` numbered lines of `ls` give under `keep`.
proof fn lemma_select_prefix(ls: Seq<Seq<char>>, keep: spec_fn(Seq<char>) -> bool, n: int)
    requires
        0 <= n <= ls.len(),
    ensures
        ({
            let r = numbered(ls).take(n).filter(by_line(keep));
            &&& forall|k: int|
                0 <= k < r.len() ==> 1 <= #[trigger] r[k].0 <= n && ls[r[k].0 - 1] == r[k].1 && keep(
                    r[k].1,
                )
            &&& forall|a: int, b: int| 0 <= a < b < r.len() ==> #[trigger] r[a].0 < #[trigger] r[b].0
            &&& forall|i: int| 0 <= i < n && keep(ls[i]) ==> #[trigger] r.contains((i + 1, ls[i]))
        }),
    decreases n,
{
    let f = by_line(keep);
    if n == 0 {
        reveal(Seq::filter);
        assert(numbered(ls).take(0).filter(f) =~= Seq::<(int, Seq<char>)>::empty());
    } else {
        lemma_select_prefix(ls, keep, n - 1);
        let x = (n, ls[n - 1]);
        let s = numbered(ls).take(n - 1).filter(f);
        assert(numbered(ls).take(n) =~= numbered(ls).take(n - 1).push(x));
        numbered(ls).take(n - 1).lemma_filter_push(x, f);
        let r = numbered(ls).take(n).filter(f);
        if keep(ls[n - 1]) {
            assert(r == s.push(x));
            assert forall|i: int| 0 <= i < n && keep(ls[i]) implies #[trigger] r.contains((i + 1, ls[i])) by {
                if i < n - 1 {
                    assert(s.contains((i + 1, ls[i])));
                    let j = choose|j: int| 0 <= j < s.len() && s[j] == (i + 1, ls[i]);
                    assert(r[j] == s[j]);
                } else {
                    assert(r[r.len() - 1] == x);
                }
            }
        } else {
            assert(r == s);
        }
    }
}

/// `select` reports each line that it keeps under the line's number and
/// text; the numbers strictly increase, so none is repeated; and every line
/// that `keep` holds of is reported.
pub proof fn lemma_select_exact(content: Seq<char>, keep: spec_fn(Seq<char>) -> bool)
    ensures
        ({
            let ls = lines_of(content);
            let r = select(content, keep);
            &&& forall|k: int|
                0 <= k < r.len() ==> 1 <= #[trigger] r[k].0 <= ls.len() && ls[r[k].0 - 1] == r[k].1
                    && keep(r[k].1)
            &&& forall|a: int, b: int| 0 <= a < b < r.len() ==> #[trigger] r[a].0 < #[trigger] r[b].0
            &&& forall|i: int| 0 <= i < ls.len() && keep(ls[i]) ==> #[trigger] r.contains((i + 1, ls[i]))
        }),
{
    let ls = lines_of(content);
    lemma_select_prefix(ls, keep, ls.len() as int);
    assert(numbered(ls).take(ls.len() as int) =~= numbered(ls));
}

/// Literal search reports exactly the lines of `t` that contain `q`: each
/// reported pair is a line of `t` under its number counted from 1, the numbers
/// ascend with no repeats, and no line that contains `q` is left out.
pub proof fn literal_search_exact(q: Seq<char>, t: Seq<char>)
    ensures
        ({
            let ls = lines_of(t);
            let r = select(t, rule(q, false, false));
            &&& forall|k: int|
                0 <= k < r.len() ==> 1 <= #[trigger] r[k].0 <= ls.len() && ls[r[k].0 - 1] == r[k].1
                    && contains(r[k].1, q)
            &&& forall|a: int, b: int| 0 <= a < b < r.len() ==> #[trigger] r[a].0 < #[trigger] r[b].0
            &&& forall|i: int| 0 <= i < ls.len() && contains(ls[i], q) ==> #[trigger] r.contains((i + 1, ls[i]))
        }),
{
    lemma_select_exact(t, rule(q, false, false));
}

/// Case-insensitive search reports exactly the lines of `t` whose lower-cased
/// text contains the lower-cased `q`, numbered and ordered as literal search.
pub proof fn case_insensitive_search_exact(q: Seq<char>, t: Seq<char>)
    ensures
        ({
            let ls = lines_of(t);
            let r = select(t, rule(q, true, false));
            &&& forall|k: int|
                0 <= k < r.len() ==> 1 <= #[trigger] r[k].0 <= ls.len() && ls[r[k].0 - 1] == r[k].1
                    && contains(folded(r[k].1), folded(q))
            &&& forall|a: int, b: int| 0 <= a < b < r.len() ==> #[trigger] r[a].0 < #[trigger] r[b].0
            &&& forall|i: int|
                0 <= i < ls.len() && contains(folded(ls[i]), folded(q)) ==> #[trigger] r.contains(
                    (i + 1, ls[i]),
                )
        }),
{
    lemma_select_exact(t, rule(q, true, false));
}

/// Text whose characters are all their own lower case is its own lower case.
proof fn lemma_folded_fixed(q: Seq<char>)
    requires
        forall|i: int| 0 <= i < q.len() ==> #[trigger] char_lower(q[i]) == seq![q[i]],
    ensures
        folded(q) == q,
    decreases q.len(),
{
    if q.len() > 0 {
        lemma_folded_fixed(q.drop_last());
        assert(char_lower(q.last()) == seq![q.last()]);
        assert(q.drop_last() + seq![q.last()] =~= q);
    }
}

/// Lower-casing keeps an occurrence of a query that lower-casing leaves as it is.
proof fn lemma_contains_folded(l: Seq<char>, q: Seq<char>)
    requires
        contains(l, q),
        folded(q) == q,
    ensures
        contains(folded(l), q),
{
    let i = choose|i: int| 0 <= i <= l.len() - q.len() && #[trigger] l.subrange(i, i + q.len()) == q;
    let pre = l.subrange(0, i);
    let post = l.subrange(i + q.len(), l.len() as int);
    assert(l =~= pre + q + post);
    lemma_folded_concat(pre, q);
    lemma_folded_concat(pre + q, post);
    let fl = folded(l);
    let at = folded(pre).len() as int;
    assert(fl == folded(pre) + q + folded(post));
    assert(fl.subrange(at, at + q.len()) =~= q);
}

/// When no character of `q` changes under lower-casing, case-insensitive search
/// reports every line that literal search reports.
pub proof fn case_insensitive_covers_literal(q: Seq<char>, t: Seq<char>)
    requires
        forall|i: int| 0 <= i < q.len() ==> #[trigger] char_lower(q[i]) == seq![q[i]],
    ensures
        forall|p: (int, Seq<char>)|
            #[trigger] select(t, rule(q, false, false)).contains(p) ==> select(t, rule(q, true, false)).contains(p),
{
    let ls = lines_of(t);
    lemma_select_exact(t, rule(q, false, false));
    lemma_select_exact(t, rule(q, true, false));
    lemma_folded_fixed(q);
    assert forall|p: (int, Seq<char>)|
        #[trigger] select(t, rule(q, false, false)).contains(p) implies select(t, rule(q, true, false)).contains(p) by {
        let lit = select(t, rule(q, false, false));
        let k = choose|k: int| 0 <= k < lit.len() && lit[k] == p;
        assert(1 <= lit[k].0 <= ls.len());
        let i = p.0 - 1;
        assert(contains(ls[i], q));
        lemma_contains_folded(ls[i], q);
        assert(rule(q, true, false)(ls[i]));
        assert(select(t, rule(q, true, false)).contains((i + 1, ls[i])));
    }
}

} // verus!
