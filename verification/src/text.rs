//! Small verified string utilities used by the registry parser.
use vstd::prelude::*;

verus! {

/// `prefix` is a prefix of `s`.
pub open spec fn starts_with(s: Seq<char>, prefix: Seq<char>) -> bool {
    prefix.len() <= s.len() && s.subrange(0, prefix.len() as int) == prefix
}

/// `s` with `trim` removed from its front, when `s` starts with it.
pub open spec fn spec_trim_str(s: Seq<char>, trim: Seq<char>) -> Seq<char> {
    if starts_with(s, trim) {
        s.skip(trim.len() as int)
    } else {
        s
    }
}

/// Whether `s` starts with `prefix`, compared character by character.
pub fn str_starts_with(s: &str, prefix: &str) -> (b: bool)
    ensures
        b == starts_with(s@, prefix@),
{
    let n = s.unicode_len();
    let m = prefix.unicode_len();
    if m > n {
        return false;
    }
    let mut i: usize = 0;
    while i < m
        invariant
            0 <= i <= m <= n,
            n == s@.len(),
            m == prefix@.len(),
            forall|j: int| 0 <= j < i ==> s@[j] == prefix@[j],
        decreases m - i,
    {
        if s.get_char(i) != prefix.get_char(i) {
            assert(s@.subrange(0, m as int)[i as int] != prefix@[i as int]);
            return false;
        }
        i += 1;
    }
    assert(s@.subrange(0, m as int) =~= prefix@);
    true
}

/// Removes `trim` from the front of `s` when `s` starts with it; otherwise
/// returns `s` unchanged.
pub fn trim_str<'a>(s: &'a str, trim: &str) -> (r: &'a str)
    ensures
        r@ == spec_trim_str(s@, trim@),
{
    if str_starts_with(s, trim) {
        s.substring_char(trim.unicode_len(), s.unicode_len())
    } else {
        s
    }
}

/// Whether the string `s` holds exactly the characters of `t`.
pub fn string_is(s: &String, t: &str) -> (b: bool)
    ensures
        b == (s@ == t@),
{
    let owned: String = t.to_owned();
    *s == owned
}

/// Whether two string slices hold the same characters.
pub fn str_is(s: &str, t: &str) -> (b: bool)
    ensures
        b == (s@ == t@),
{
    let a: String = s.to_owned();
    let c: String = t.to_owned();
    a == c
}

/// The pieces of `s` between occurrences of `sep`, reading from the front
/// with the current piece `cur` and the finished pieces `acc`.
pub open spec fn split_from(s: Seq<char>, sep: char, cur: Seq<char>, acc: Seq<Seq<char>>) -> Seq<Seq<char>>
    decreases s.len(),
{
    if s.len() == 0 {
        acc.push(cur)
    } else if s[0] == sep {
        split_from(s.drop_first(), sep, Seq::empty(), acc.push(cur))
    } else {
        split_from(s.drop_first(), sep, cur.push(s[0]), acc)
    }
}

/// The pieces of `s` between occurrences of `sep`; there is always at
/// least one, possibly empty.
pub open spec fn spec_split(s: Seq<char>, sep: char) -> Seq<Seq<char>> {
    split_from(s, sep, Seq::empty(), Seq::empty())
}

/// Splits `s` at every occurrence of `sep`.
pub fn split_char(s: &str, sep: char) -> (pieces: Vec<String>)
    ensures
        pieces@.map_values(|p: String| p@) == spec_split(s@, sep),
{
    let n = s.unicode_len();
    let mut pieces: Vec<String> = Vec::new();
    let mut start: usize = 0;
    let mut i: usize = 0;
    assert(s@.skip(0) =~= s@);
    assert(s@.subrange(0, 0) =~= Seq::<char>::empty());
    assert(pieces@.map_values(|p: String| p@) =~= Seq::<Seq<char>>::empty());
    while i < n
        invariant
            0 <= start <= i <= n,
            n == s@.len(),
            spec_split(s@, sep) == split_from(
                s@.skip(i as int),
                sep,
                s@.subrange(start as int, i as int),
                pieces@.map_values(|p: String| p@),
            ),
        decreases n - i,
    {
        let c = s.get_char(i);
        assert(s@.skip(i as int)[0] == c);
        assert(s@.skip(i as int).drop_first() =~= s@.skip(i + 1));
        if c == sep {
            let piece: String = s.substring_char(start, i).to_owned();
            let ghost before = pieces@.map_values(|p: String| p@);
            pieces.push(piece);
            assert(pieces@.map_values(|p: String| p@) =~= before.push(s@.subrange(start as int, i as int)));
            start = i + 1;
            assert(s@.subrange(start as int, i + 1) =~= Seq::<char>::empty());
        } else {
            assert(s@.subrange(start as int, i as int).push(c) =~= s@.subrange(start as int, i + 1));
        }
        i += 1;
    }
    let piece: String = s.substring_char(start, n).to_owned();
    let ghost before = pieces@.map_values(|p: String| p@);
    pieces.push(piece);
    assert(pieces@.map_values(|p: String| p@) =~= before.push(s@.subrange(start as int, n as int)));
    assert(s@.skip(n as int) =~= Seq::<char>::empty());
    pieces
}

/// `a` comes no later than `b` in lexicographic order of characters.
pub open spec fn lex_le(a: Seq<char>, b: Seq<char>) -> bool
    decreases a.len(),
{
    if a.len() == 0 {
        true
    } else if b.len() == 0 {
        false
    } else if a[0] < b[0] {
        true
    } else if b[0] < a[0] {
        false
    } else {
        lex_le(a.drop_first(), b.drop_first())
    }
}

/// Whether `a <= b` in lexicographic order of characters (the order of
/// `str`'s comparison operators).
pub fn str_le(a: &str, b: &str) -> (r: bool)
    ensures
        r == lex_le(a@, b@),
{
    let n = a.unicode_len();
    let m = b.unicode_len();
    let mut i: usize = 0;
    assert(a@.skip(0) =~= a@);
    assert(b@.skip(0) =~= b@);
    while i < n && i < m
        invariant
            0 <= i <= n,
            i <= m,
            n == a@.len(),
            m == b@.len(),
            lex_le(a@, b@) == lex_le(a@.skip(i as int), b@.skip(i as int)),
        decreases n - i,
    {
        let x = a.get_char(i);
        let y = b.get_char(i);
        assert(a@.skip(i as int)[0] == x);
        assert(b@.skip(i as int)[0] == y);
        if x < y {
            return true;
        }
        if y < x {
            return false;
        }
        assert(a@.skip(i as int).drop_first() =~= a@.skip(i + 1));
        assert(b@.skip(i as int).drop_first() =~= b@.skip(i + 1));
        i += 1;
    }
    i == n
}

} // verus!
