//! Character-level helpers for the line-oriented text format.
use vstd::prelude::*;

verus! {

/// Relies on `str::chars`: the characters of a string, in order.
#[verifier::external_body]
pub(crate) fn chars_of(s: &str) -> (r: Vec<char>)
    ensures
        r@ == s@,
{
    s.chars().collect()
}

/// Relies on `String`'s `FromIterator<char>`: the string made of these characters, in order.
#[verifier::external_body]
pub(crate) fn string_from_chars(cs: &Vec<char>) -> (r: String)
    ensures
        r@ == cs@,
{
    cs.iter().collect()
}

/// The characters with Unicode's White_Space property.
pub open spec fn is_white_space(c: char) -> bool {
    ||| c == '\t' || c == '\n' || c == '\u{0B}' || c == '\u{0C}' || c == '\r' || c == ' '
    ||| c == '\u{85}' || c == '\u{A0}' || c == '\u{1680}'
    ||| ('\u{2000}' <= c && c <= '\u{200A}')
    ||| c == '\u{2028}' || c == '\u{2029}' || c == '\u{202F}' || c == '\u{205F}' || c == '\u{3000}'
}

pub fn white_space(c: char) -> (r: bool)
    ensures
        r == is_white_space(c),
{
    c == '\t' || c == '\n' || c == '\u{0B}' || c == '\u{0C}' || c == '\r' || c == ' ' || c
        == '\u{85}' || c == '\u{A0}' || c == '\u{1680}' || ('\u{2000}' <= c && c <= '\u{200A}')
        || c == '\u{2028}' || c == '\u{2029}' || c == '\u{202F}' || c == '\u{205F}' || c
        == '\u{3000}'
}

/// The end of the line that starts at `p`: the position of the next line feed, or the end.
pub open spec fn line_end(t: Seq<char>, p: int) -> int
    decreases t.len() - p,
{
    if p < 0 || p >= t.len() {
        t.len() as int
    } else if t[p] == '\n' {
        p
    } else {
        line_end(t, p + 1)
    }
}

/// A line without its comment: what stands before the first `#`.
pub open spec fn without_comment(s: Seq<char>) -> Seq<char>
    decreases s.len(),
{
    if s.len() == 0 {
        s
    } else if s[0] == '#' {
        Seq::empty()
    } else {
        seq![s[0]] + without_comment(s.drop_first())
    }
}

/// The tokens of `s`: its maximal runs of characters that are not white space, in order.
pub open spec fn split_white(s: Seq<char>) -> Seq<Seq<char>>
    decreases s.len(),
{
    if s.len() == 0 {
        Seq::empty()
    } else {
        let rest = split_white(s.drop_last());
        let c = s.last();
        if is_white_space(c) {
            rest
        } else if s.len() >= 2 && !is_white_space(s[s.len() - 2]) {
            rest.update(rest.len() - 1, rest.last().push(c))
        } else {
            rest.push(seq![c])
        }
    }
}

/// The tokens of the line that starts at `p`, without its comment.
pub open spec fn line_tokens(t: Seq<char>, p: int) -> Seq<Seq<char>> {
    split_white(without_comment(t.subrange(p, line_end(t, p))))
}

/// Where the line after the one that starts at `p` starts.
pub open spec fn next_line_start(t: Seq<char>, p: int) -> int {
    if line_end(t, p) < t.len() {
        line_end(t, p) + 1
    } else {
        t.len() as int
    }
}

/// The tokens of the next line at or after `p` that has any, and where the line after it
/// starts; `None` when no such line remains.
pub open spec fn next_record(t: Seq<char>, p: int) -> Option<(Seq<Seq<char>>, int)>
    decreases t.len() - p,
{
    if p < 0 || p >= t.len() {
        None
    } else if line_tokens(t, p).len() == 0 {
        if line_end(t, p) >= p {
            next_record(t, next_line_start(t, p))
        } else {
            None
        }
    } else {
        Some((line_tokens(t, p), next_line_start(t, p)))
    }
}

/// Every token is non-empty and holds no white space.
pub proof fn lemma_split_white_tokens(s: Seq<char>)
    ensures
        forall|i: int| 0 <= i < split_white(s).len() ==> {
            &&& (#[trigger] split_white(s)[i]).len() > 0
            &&& forall|j: int| 0 <= j < split_white(s)[i].len() ==> !is_white_space(split_white(s)[i][j])
        },
        s.len() > 0 && !is_white_space(s.last()) ==> split_white(s).len() > 0,
    decreases s.len(),
{
    if s.len() > 0 {
        lemma_split_white_tokens(s.drop_last());
        let rest = split_white(s.drop_last());
        let c = s.last();
        if !is_white_space(c) && s.len() >= 2 && !is_white_space(s[s.len() - 2]) {
            assert(s.drop_last().last() == s[s.len() - 2]);
        }
    }
}

/// The next record starts after the position it is looked for at, and has a token.
pub proof fn lemma_next_record_advances(t: Seq<char>, p: int)
    ensures
        next_record(t, p) matches Some((tokens, q)) ==> q > p && tokens.len() >= 1,
    decreases t.len() - p,
{
    if 0 <= p < t.len() {
        lemma_line_end_bounds(t, p);
        if line_tokens(t, p).len() == 0 {
            if line_end(t, p) >= p {
                lemma_next_record_advances(t, next_line_start(t, p));
            }
        }
    }
}

proof fn lemma_line_end_at(t: Seq<char>, p: int, e: int)
    requires
        0 <= p <= e <= t.len(),
        forall|i: int| p <= i < e ==> t[i] != '\n',
        e == t.len() || t[e] == '\n',
    ensures
        line_end(t, p) == e,
    decreases e - p,
{
    if p < e {
        lemma_line_end_at(t, p + 1, e);
    }
}

proof fn lemma_without_comment_at(x: Seq<char>, k: int)
    requires
        0 <= k <= x.len(),
        forall|i: int| 0 <= i < k ==> x[i] != '#',
        k == x.len() || x[k] == '#',
    ensures
        without_comment(x) == x.subrange(0, k),
    decreases x.len(),
{
    if x.len() == 0 {
        assert(x.subrange(0, k) =~= x);
    } else if k == 0 {
        assert(x.subrange(0, k) =~= Seq::<char>::empty());
    } else {
        lemma_without_comment_at(x.drop_first(), k - 1);
        assert(seq![x[0]] + x.drop_first().subrange(0, k - 1) =~= x.subrange(0, k));
    }
}

proof fn lemma_line_end_bounds(t: Seq<char>, p: int)
    requires
        0 <= p <= t.len(),
    ensures
        p <= line_end(t, p) <= t.len(),
        line_end(t, p) < t.len() ==> t[line_end(t, p)] == '\n',
        forall|i: int| p <= i < line_end(t, p) ==> t[i] != '\n',
    decreases t.len() - p,
{
    if p < t.len() && t[p] != '\n' {
        lemma_line_end_bounds(t, p + 1);
    }
}

/// Splits `t[from..to]` into its runs of characters that are not white space.
fn split_range(t: &Vec<char>, from: usize, to: usize) -> (r: Vec<String>)
    requires
        from <= to <= t@.len(),
    ensures
        r@.map_values(|s: String| s@) == split_white(t@.subrange(from as int, to as int)),
{
    let ghost x = t@.subrange(from as int, to as int);
    let mut tokens: Vec<String> = Vec::new();
    let mut cur: Vec<char> = Vec::new();
    let mut i: usize = from;
    proof {
        assert(x.subrange(0, 0) =~= Seq::<char>::empty());
        assert(tokens@.map_values(|s: String| s@) =~= Seq::<Seq<char>>::empty());
    }
    while i < to
        invariant
            from <= i <= to <= t@.len(),
            x == t@.subrange(from as int, to as int),
            cur@.len() > 0 <==> (i > from && !is_white_space(t@[i - 1])),
            cur@.len() == 0 ==> tokens@.map_values(|s: String| s@) == split_white(x.subrange(0, i - from)),
            cur@.len() > 0 ==> tokens@.map_values(|s: String| s@).push(cur@) == split_white(
                x.subrange(0, i - from),
            ),
        decreases to - i,
    {
        let c = t[i];
        let ghost tv = tokens@.map_values(|s: String| s@);
        let ghost y = x.subrange(0, i + 1 - from);
        proof {
            assert(y.drop_last() =~= x.subrange(0, i - from));
            assert(y.last() == c);
            if i > from {
                assert(y[y.len() - 2] == t@[i - 1]);
            }
        }
        if white_space(c) {
            if cur.len() > 0 {
                let token = string_from_chars(&cur);
                tokens.push(token);
                cur = Vec::new();
                proof {
                    assert(tokens@.map_values(|s: String| s@) =~= tv.push(token@));
                }
            }
        } else {
            let ghost old_cur = cur@;
            cur.push(c);
            proof {
                if old_cur.len() > 0 {
                    assert(tv.push(cur@) =~= tv.push(old_cur).update(tv.len() as int, old_cur.push(c)));
                } else {
                    assert(cur@ =~= seq![c]);
                }
            }
        }
        i = i + 1;
    }
    proof {
        assert(x.subrange(0, to - from) =~= x);
    }
    if cur.len() > 0 {
        let token = string_from_chars(&cur);
        let ghost tv = tokens@.map_values(|s: String| s@);
        tokens.push(token);
        proof {
            assert(tokens@.map_values(|s: String| s@) =~= tv.push(token@));
        }
    }
    tokens
}

/// Reads the next line with tokens at or after `*pos`: the runs of characters that are not
/// white space before its first `#`. Moves `*pos` to the start of the line after it.
pub fn read_next_line(text: &Vec<char>, pos: &mut usize) -> (r: Option<Vec<String>>)
    requires
        *old(pos) <= text@.len(),
    ensures
        *final(pos) <= text@.len(),
        r matches Some(tokens) ==> *final(pos) > *old(pos) && tokens@.len() >= 1,
        r is None ==> *final(pos) == text@.len(),
        match r {
            Some(tokens) => next_record(text@, *old(pos) as int) == Some(
                (tokens@.map_values(|s: String| s@), *final(pos) as int),
            ),
            None => next_record(text@, *old(pos) as int) is None,
        },
{
    let ghost t = text@;
    let ghost start = *pos as int;
    let len = text.len();
    let mut p: usize = *pos;
    while p < len
        invariant
            len == t.len(),
            t == text@,
            p <= len,
            start == *old(pos) as int,
            next_record(t, start) == next_record(t, p as int),
        decreases len - p,
    {
        let mut e: usize = p;
        while e < len && text[e] != '\n'
            invariant
                p <= e <= len,
                len == t.len(),
                t == text@,
                forall|i: int| p <= i < e ==> t[i] != '\n',
            decreases len - e,
        {
            e = e + 1;
        }
        proof {
            lemma_line_end_at(t, p as int, e as int);
        }
        let ghost line = t.subrange(p as int, e as int);
        let mut c: usize = p;
        while c < e && text[c] != '#'
            invariant
                p <= c <= e <= len,
                len == t.len(),
                t == text@,
                forall|i: int| p <= i < c ==> t[i] != '#',
            decreases e - c,
        {
            c = c + 1;
        }
        proof {
            lemma_without_comment_at(line, c - p);
            assert(line.subrange(0, c - p) =~= t.subrange(p as int, c as int));
        }
        let next: usize = if e < len {
            e + 1
        } else {
            len
        };
        let tokens = split_range(text, p, c);
        proof {
            assert(line_tokens(t, p as int) == tokens@.map_values(|s: String| s@));
            assert(next_line_start(t, p as int) == next as int);
        }
        if tokens.len() > 0 {
            *pos = next;
            proof {
                assert(next_record(t, p as int) == Some((line_tokens(t, p as int), next_line_start(t, p as int))));
                lemma_next_record_advances(t, start);
            }
            return Some(tokens);
        }
        p = next;
    }
    *pos = len;
    None
}

} // verus!
