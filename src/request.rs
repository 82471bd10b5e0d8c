use vstd::prelude::*;

verus! {

/// Unicode `White_Space`, the set of characters that separates words of a
/// request line.
pub open spec fn is_space(c: char) -> bool {
    ('\u{9}' <= c && c <= '\u{d}') || c == ' ' || c == '\u{85}' || c == '\u{a0}'
        || c == '\u{1680}' || ('\u{2000}' <= c && c <= '\u{200a}') || c == '\u{2028}'
        || c == '\u{2029}' || c == '\u{202f}' || c == '\u{205f}' || c == '\u{3000}'
}

/// Index of the first `'\n'` at or after `i`, or the length when there is none.
pub open spec fn line_end(s: Seq<char>, i: int) -> int
    decreases s.len() - i,
{
    if i >= s.len() {
        s.len() as int
    } else if s[i] == '\n' {
        i
    } else {
        line_end(s, i + 1)
    }
}

/// The first line of `s`, without its terminator.
pub open spec fn first_line(s: Seq<char>) -> Seq<char> {
    s.subrange(0, line_end(s, 0))
}

/// First index at or after `i` that holds no white space (or the length).
pub open spec fn skip_space(s: Seq<char>, i: int) -> int
    decreases s.len() - i,
{
    if i >= s.len() {
        s.len() as int
    } else if !is_space(s[i]) {
        i
    } else {
        skip_space(s, i + 1)
    }
}

/// First index at or after `i` that holds white space (or the length).
pub open spec fn word_end(s: Seq<char>, i: int) -> int
    decreases s.len() - i,
{
    if i >= s.len() {
        s.len() as int
    } else if is_space(s[i]) {
        i
    } else {
        word_end(s, i + 1)
    }
}

proof fn lemma_skip_space_bounds(s: Seq<char>, i: int)
    requires
        0 <= i,
    ensures
        i <= skip_space(s, i) || i > s.len(),
        skip_space(s, i) <= s.len(),
        skip_space(s, i) < s.len() ==> !is_space(s[skip_space(s, i)]),
    decreases s.len() - i,
{
    if i < s.len() && is_space(s[i]) {
        lemma_skip_space_bounds(s, i + 1);
    }
}

proof fn lemma_word_end_bounds(s: Seq<char>, i: int)
    requires
        0 <= i <= s.len(),
    ensures
        i <= word_end(s, i) <= s.len(),
        i < s.len() && !is_space(s[i]) ==> i < word_end(s, i),
    decreases s.len() - i,
{
    if i < s.len() && !is_space(s[i]) {
        lemma_word_end_bounds(s, i + 1);
    }
}

/// The white-space separated words of `s` from index `i` on.
pub open spec fn words_from(s: Seq<char>, i: int) -> Seq<Seq<char>>
    decreases s.len() - i,
{
    if 0 <= i && skip_space(s, i) < s.len() {
        let a = skip_space(s, i);
        let b = word_end(s, a);
        // always true; stated so that the recursion visibly shrinks
        if i <= a < b <= s.len() {
            seq![s.subrange(a, b)] + words_from(s, b)
        } else {
            Seq::empty()
        }
    } else {
        Seq::empty()
    }
}

/// The white-space separated words of `s`, in order.
pub open spec fn words(s: Seq<char>) -> Seq<Seq<char>> {
    words_from(s, 0)
}

/// Word `k` of `ws`, or the empty text when there are fewer words.
pub open spec fn word_or_empty(ws: Seq<Seq<char>>, k: int) -> Seq<char> {
    if 0 <= k < ws.len() {
        ws[k]
    } else {
        Seq::empty()
    }
}

/// The method of a raw request: the first word of its first line.
pub open spec fn method_of(raw: Seq<char>) -> Seq<char> {
    word_or_empty(words(first_line(raw)), 0)
}

/// The path of a raw request: the second word of its first line.
pub open spec fn path_of(raw: Seq<char>) -> Seq<char> {
    word_or_empty(words(first_line(raw)), 1)
}

/// Whether `c` is white space in the sense of `char::is_whitespace`.
pub fn is_whitespace_char(c: char) -> (r: bool)
    ensures
        r == is_space(c),
{
    ('\u{9}' <= c && c <= '\u{d}') || c == ' ' || c == '\u{85}' || c == '\u{a0}'
        || c == '\u{1680}' || ('\u{2000}' <= c && c <= '\u{200a}') || c == '\u{2028}'
        || c == '\u{2029}' || c == '\u{202f}' || c == '\u{205f}' || c == '\u{3000}'
}

fn find_line_end(s: &str, n: usize) -> (r: usize)
    requires
        n == s@.len(),
    ensures
        r == line_end(s@, 0),
{
    let mut i: usize = 0;
    while i < n && s.get_char(i) != '\n'
        invariant
            n == s@.len(),
            i <= n,
            line_end(s@, i as int) == line_end(s@, 0),
        decreases n - i,
    {
        i = i + 1;
    }
    i
}

fn find_skip_space(s: &str, n: usize, start: usize) -> (r: usize)
    requires
        n == s@.len(),
        start <= n,
    ensures
        r == skip_space(s@, start as int),
{
    let mut i: usize = start;
    while i < n && is_whitespace_char(s.get_char(i))
        invariant
            n == s@.len(),
            start <= i <= n,
            skip_space(s@, i as int) == skip_space(s@, start as int),
        decreases n - i,
    {
        i = i + 1;
    }
    i
}

fn find_word_end(s: &str, n: usize, start: usize) -> (r: usize)
    requires
        n == s@.len(),
        start <= n,
    ensures
        r == word_end(s@, start as int),
{
    let mut i: usize = start;
    while i < n && !is_whitespace_char(s.get_char(i))
        invariant
            n == s@.len(),
            start <= i <= n,
            word_end(s@, i as int) == word_end(s@, start as int),
        decreases n - i,
    {
        i = i + 1;
    }
    i
}

/// A request as read from a connection: the raw text, and the method and path
/// taken from its request line.
pub struct Request {
    pub raw: String,
    pub path: String,
    pub method: String,
}

impl Request {
    /// Parses the request line of `raw`. Missing words become empty text; this
    /// never fails.
    pub fn new(raw: String) -> (r: Request)
        ensures
            r.raw@ == raw@,
            r.method@ == method_of(raw@),
            r.path@ == path_of(raw@),
    {
        let n = raw.as_str().unicode_len();
        let e = find_line_end(raw.as_str(), n);
        proof {
            lemma_line_end_bounds(raw@, 0);
        }
        let line = raw.as_str().substring_char(0, e);
        let ghost s = line@;
        assert(s == first_line(raw@));
        let a0 = find_skip_space(line, e, 0);
        proof {
            lemma_skip_space_bounds(s, 0);
        }
        let b0 = find_word_end(line, e, a0);
        proof {
            lemma_word_end_bounds(s, a0 as int);
        }
        let a1 = find_skip_space(line, e, b0);
        proof {
            lemma_skip_space_bounds(s, b0 as int);
        }
        let b1 = find_word_end(line, e, a1);
        proof {
            lemma_word_end_bounds(s, a1 as int);
            reveal_with_fuel(words_from, 3);
        }
        let method = String::from_str(line.substring_char(a0, b0));
        let path = String::from_str(line.substring_char(a1, b1));
        assert(method@ == word_or_empty(words(s), 0));
        assert(path@ == word_or_empty(words(s), 1));
        Request { raw, path, method }
    }
}

proof fn lemma_line_end_bounds(s: Seq<char>, i: int)
    requires
        0 <= i <= s.len(),
    ensures
        i <= line_end(s, i) <= s.len(),
    decreases s.len() - i,
{
    if i < s.len() && s[i] != '\n' {
        lemma_line_end_bounds(s, i + 1);
    }
}

/// A request line of fewer than two words gives an empty path, and one of no
/// word an empty method too; an empty request gives both empty.
pub proof fn lemma_short_request_line(raw: Seq<char>)
    ensures
        words(first_line(raw)).len() < 2 ==> path_of(raw) == Seq::<char>::empty(),
        words(first_line(raw)).len() == 0 ==> method_of(raw) == Seq::<char>::empty(),
        raw.len() == 0 ==> method_of(raw) == Seq::<char>::empty() && path_of(raw)
            == Seq::<char>::empty(),
{
    if raw.len() == 0 {
        assert(first_line(raw).len() == 0);
        assert(words(first_line(raw)) == Seq::<Seq<char>>::empty());
    }
}

} // verus!
