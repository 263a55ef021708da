//! Plain text operations: characters of a string, line splitting,
//! substring containment and per-character case folding.

use vstd::prelude::*;

verus! {

/// Relies on String::push: appends one character at the end.
pub assume_specification[ String::push ](s: &mut String, ch: char)
    ensures
        final(s)@ == old(s)@.push(ch),
;

/// The views of a sequence of strings.
pub open spec fn texts(v: Seq<String>) -> Seq<Seq<char>> {
    v.map_values(|x: String| x@)
}

/// The pieces of `s` between newline characters: one more than the number of
/// newlines, each possibly empty.
pub open spec fn pieces(s: Seq<char>) -> Seq<Seq<char>>
    decreases s.len(),
{
    if s.len() == 0 {
        seq![Seq::empty()]
    } else {
        let p = pieces(s.drop_last());
        if s.last() == '\n' {
            p.push(Seq::empty())
        } else {
            p.update(p.len() - 1, p.last().push(s.last()))
        }
    }
}

/// A piece that was followed by a newline loses one trailing carriage return.
pub open spec fn strip_cr(l: Seq<char>) -> Seq<char> {
    if l.len() > 0 && l.last() == '\r' {
        l.drop_last()
    } else {
        l
    }
}

/// The lines of `s`: the pieces between newlines, where a piece ended by a
/// newline drops a trailing carriage return, and an empty last piece (after a
/// final newline, or of empty text) is no line.
pub open spec fn lines_of(s: Seq<char>) -> Seq<Seq<char>> {
    let p = pieces(s);
    let body = p.take(p.len() - 1).map_values(|l: Seq<char>| strip_cr(l));
    if p.last().len() == 0 {
        body
    } else {
        body.push(p.last())
    }
}

/// A string holding the characters of `v`.
pub fn string_of(v: &Vec<char>) -> (r: String)
    ensures
        r@ == v@,
{
    let mut r = String::new();
    for i in 0..v.len()
        invariant
            r@ == v@.take(i as int),
    {
        r.push(v[i]);
        assert(r@ =~= v@.take(i + 1));
    }
    assert(v@.take(v.len() as int) =~= v@);
    r
}

/// Splits `content` into its lines (see `lines_of`).
pub fn split_lines(content: &str) -> (r: Vec<String>)
    ensures
        texts(r@) == lines_of(content@),
{
    let cs = chars_of(content);
    let mut done: Vec<String> = Vec::new();
    let mut cur: Vec<char> = Vec::new();
    proof {
        assert(cs@.take(0) =~= Seq::<char>::empty());
        assert(texts(done@) =~= pieces(cs@.take(0)).take(0).map_values(|l: Seq<char>| strip_cr(l)));
    }
    for i in 0..cs.len()
        invariant
            cs@ == content@,
            pieces(cs@.take(i as int)).len() >= 1,
            texts(done@) == pieces(cs@.take(i as int)).take(pieces(cs@.take(i as int)).len() - 1).map_values(
                |l: Seq<char>| strip_cr(l),
            ),
            cur@ == pieces(cs@.take(i as int)).last(),
    {
        let ghost pre = cs@.take(i as int);
        let ghost post = cs@.take(i + 1);
        proof {
            assert(post.drop_last() =~= pre);
            assert(post.last() == cs@[i as int]);
        }
        let c = cs[i];
        if c == '\n' {
            let ghost whole = cur@;
            if cur.len() > 0 && cur[cur.len() - 1] == '\r' {
                cur.pop();
            }
            let line = string_of(&cur);
            let ghost before = done@;
            done.push(line);
            cur = Vec::new();
            proof {
                let pp = pieces(pre);
                let pq = pieces(post);
                let f = |l: Seq<char>| strip_cr(l);
                assert(line@ == strip_cr(whole));
                assert(texts(done@) =~= texts(before).push(line@));
                assert(pp.map_values(f) =~= pp.take(pp.len() - 1).map_values(f).push(f(pp.last())));
                assert(pq == pp.push(Seq::empty()));
                assert(pq.take(pq.len() - 1) =~= pp);
                assert(pp =~= pp.take(pp.len() - 1).push(pp.last()));
                assert(texts(done@) =~= pq.take(pq.len() - 1).map_values(|l: Seq<char>| strip_cr(l)));
                assert(cur@ =~= pq.last());
            }
        } else {
            cur.push(c);
            proof {
                let pp = pieces(pre);
                let pq = pieces(post);
                assert(pq.take(pq.len() - 1) =~= pp.take(pp.len() - 1));
                assert(cur@ =~= pq.last());
            }
        }
    }
    proof {
        assert(cs@.take(cs.len() as int) =~= cs@);
    }
    if cur.len() > 0 {
        let line = string_of(&cur);
        done.push(line);
        proof {
            assert(texts(done@) =~= lines_of(content@));
        }
    } else {
        proof {
            assert(texts(done@) =~= lines_of(content@));
        }
    }
    done
}

/// The characters of `s`, in order.
pub fn chars_of(s: &str) -> (r: Vec<char>)
    ensures
        r@ == s@,
{
    let mut r: Vec<char> = Vec::new();
    for c in it: s.chars()
        invariant
            r@ == it.seq().take(it.index() as int),
            it.seq() == s@,
    {
        r.push(c);
        assert(r@ =~= it.seq().take(it.index() + 1));
    }
    assert(r@ =~= s@);
    r
}

/// `q` occurs in `l` as a contiguous run of characters.
pub open spec fn contains(l: Seq<char>, q: Seq<char>) -> bool {
    exists|i: int| 0 <= i <= l.len() - q.len() && #[trigger] l.subrange(i, i + q.len()) == q
}

/// Whether `q` occurs in `l`.
pub fn has_substring(l: &Vec<char>, q: &Vec<char>) -> (r: bool)
    ensures
        r == contains(l@, q@),
{
    if q.len() > l.len() {
        return false;
    }
    let last: usize = l.len() - q.len();
    let mut i: usize = 0;
    while i <= last
        invariant
            last == l.len() - q.len(),
            q.len() <= l.len(),
            forall|j: int| 0 <= j < i ==> #[trigger] l@.subrange(j, j + q.len()) != q@,
        decreases last + 1 - i,
    {
        let mut k: usize = 0;
        let mut same: bool = true;
        while k < q.len() && same
            invariant
                i <= last,
                last == l.len() - q.len(),
                k <= q.len(),
                forall|m: int| 0 <= m < k ==> l@[i + m] == q@[m],
                !same ==> k < q.len() && l@[i + k] != q@[k as int],
            decreases q.len() - k + (if same { 1int } else { 0 }),
        {
            if l[i + k] != q[k] {
                same = false;
            } else {
                k = k + 1;
            }
        }
        if same {
            assert(l@.subrange(i as int, i + q.len()) =~= q@);
            return true;
        }
        assert(l@.subrange(i as int, i + q.len())[k as int] != q@[k as int]);
        i = i + 1;
    }
    false
}

/// What one character becomes when lower-cased.
pub uninterp spec fn char_lower(c: char) -> Seq<char>;

/// Relies on char::to_lowercase: the lower-case mapping of one character,
/// which depends on that character alone.
#[verifier::external_body]
fn lower_char(c: char) -> (r: Vec<char>)
    ensures
        r@ == char_lower(c),
{
    c.to_lowercase().collect()
}

/// `s` with each character replaced by its lower-case mapping.
pub open spec fn folded(s: Seq<char>) -> Seq<char>
    decreases s.len(),
{
    if s.len() == 0 {
        Seq::empty()
    } else {
        folded(s.drop_last()) + char_lower(s.last())
    }
}

/// Lower-cases `s` character by character.
pub fn fold_case(s: &Vec<char>) -> (r: Vec<char>)
    ensures
        r@ == folded(s@),
{
    let mut r: Vec<char> = Vec::new();
    for i in 0..s.len()
        invariant
            r@ == folded(s@.take(i as int)),
    {
        let low = lower_char(s[i]);
        let ghost start = r@;
        for j in 0..low.len()
            invariant
                r@ == start + low@.take(j as int),
        {
            r.push(low[j]);
            assert(r@ =~= start + low@.take(j + 1));
        }
        proof {
            let t = s@.take(i + 1);
            assert(t.drop_last() =~= s@.take(i as int));
            assert(low@.take(low.len() as int) =~= low@);
        }
    }
    assert(s@.take(s.len() as int) =~= s@);
    r
}

/// Folding distributes over concatenation.
pub proof fn lemma_folded_concat(a: Seq<char>, b: Seq<char>)
    ensures
        folded(a + b) == folded(a) + folded(b),
    decreases b.len(),
{
    if b.len() == 0 {
        assert(a + b =~= a);
        assert(folded(b) =~= Seq::<char>::empty());
        assert(folded(a) + folded(b) =~= folded(a));
    } else {
        lemma_folded_concat(a, b.drop_last());
        assert((a + b).drop_last() =~= a + b.drop_last());
        assert(folded(a) + (folded(b.drop_last()) + char_lower(b.last())) =~= (folded(a) + folded(b.drop_last())) + char_lower(b.last()));
    }
}

/// Appends the characters of `t` to `s`.
pub fn push_str(s: &mut String, t: &str)
    ensures
        final(s)@ == old(s)@ + t@,
{
    let cs = chars_of(t);
    let ghost start = s@;
    for i in 0..cs.len()
        invariant
            s@ == start + cs@.take(i as int),
    {
        s.push(cs[i]);
        assert(s@ =~= start + cs@.take(i + 1));
    }
    assert(cs@.take(cs.len() as int) =~= cs@);
}

/// Whether `a` and `b` hold the same characters.
pub fn same_text(a: &str, b: &str) -> (r: bool)
    ensures
        r == (a@ == b@),
{
    let x = chars_of(a);
    let y = chars_of(b);
    if x.len() != y.len() {
        return false;
    }
    for i in 0..x.len()
        invariant
            x@ == a@,
            y@ == b@,
            x.len() == y.len(),
            forall|j: int| 0 <= j < i ==> x@[j] == y@[j],
    {
        if x[i] != y[i] {
            assert(x@[i as int] != y@[i as int]);
            return false;
        }
    }
    assert(x@ =~= y@);
    true
}

/// The decimal digit for `d`.
pub open spec fn digit(d: nat) -> char {
    if d == 0 {
        '0'
    } else if d == 1 {
        '1'
    } else if d == 2 {
        '2'
    } else if d == 3 {
        '3'
    } else if d == 4 {
        '4'
    } else if d == 5 {
        '5'
    } else if d == 6 {
        '6'
    } else if d == 7 {
        '7'
    } else if d == 8 {
        '8'
    } else {
        '9'
    }
}

/// `n` written in decimal, without leading zeros.
pub open spec fn decimal(n: nat) -> Seq<char>
    decreases n,
{
    if n < 10 {
        seq![digit(n)]
    } else {
        decimal(n / 10).push(digit(n % 10))
    }
}

fn digit_char(d: usize) -> (r: char)
    requires
        d < 10,
    ensures
        r == digit(d as nat),
{
    match d {
        0 => '0',
        1 => '1',
        2 => '2',
        3 => '3',
        4 => '4',
        5 => '5',
        6 => '6',
        7 => '7',
        8 => '8',
        _ => '9',
    }
}

/// Appends `n` in decimal to `s`.
pub fn push_decimal(s: &mut String, n: usize)
    ensures
        final(s)@ == old(s)@ + decimal(n as nat),
    decreases n,
{
    if n >= 10 {
        push_decimal(s, n / 10);
    }
    s.push(digit_char(n % 10));
    assert(s@ =~= old(s)@ + decimal(n as nat));
}

} // verus!
