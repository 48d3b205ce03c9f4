//! Text of search queries: trimming, and escaping for a substring pattern.

use vstd::prelude::*;

verus! {

/// Whether `c` is white space.
pub open spec fn is_space(c: char) -> bool {
    ||| '\u{9}' <= c <= '\u{d}'
    ||| c == ' '
    ||| c == '\u{85}'
    ||| c == '\u{a0}'
    ||| c == '\u{1680}'
    ||| '\u{2000}' <= c <= '\u{200a}'
    ||| c == '\u{2028}'
    ||| c == '\u{2029}'
    ||| c == '\u{202f}'
    ||| c == '\u{205f}'
    ||| c == '\u{3000}'
}

/// `s` without the white space it starts with.
pub open spec fn trim_start(s: Seq<char>) -> Seq<char>
    decreases s.len(),
{
    if s.len() > 0 && is_space(s[0]) {
        trim_start(s.drop_first())
    } else {
        s
    }
}

/// `s` without the white space it ends with.
pub open spec fn trim_end(s: Seq<char>) -> Seq<char>
    decreases s.len(),
{
    if s.len() > 0 && is_space(s.last()) {
        trim_end(s.drop_last())
    } else {
        s
    }
}

/// `s` without the white space at its two ends.
pub open spec fn trimmed(s: Seq<char>) -> Seq<char> {
    trim_end(trim_start(s))
}

/// Whether `c` is white space.
pub fn is_space_char(c: char) -> (r: bool)
    ensures
        r == is_space(c),
{
    ('\u{9}' <= c && c <= '\u{d}') || c == ' ' || c == '\u{85}' || c == '\u{a0}' || c == '\u{1680}'
        || ('\u{2000}' <= c && c <= '\u{200a}') || c == '\u{2028}' || c == '\u{2029}' || c
        == '\u{202f}' || c == '\u{205f}' || c == '\u{3000}'
}

/// `s` without the white space at its two ends.
pub fn trim(s: &str) -> (r: String)
    ensures
        r@ == trimmed(s@),
{
    let n = s.unicode_len();
    let mut a: usize = 0;
    assert(s@.skip(0) =~= s@);
    loop
        invariant
            a <= n,
            n == s@.len(),
            trim_start(s@) == trim_start(s@.skip(a as int)),
        ensures
            a <= n,
            trim_start(s@) == s@.skip(a as int),
        decreases n - a,
    {
        if a >= n {
            break ;
        }
        let c = s.get_char(a);
        assert(s@.skip(a as int)[0] == c);
        if !is_space_char(c) {
            break ;
        }
        assert(s@.skip(a as int).drop_first() =~= s@.skip(a + 1));
        a += 1;
    }
    let ghost t = s@.skip(a as int);
    let mut b: usize = n;
    assert(s@.subrange(a as int, n as int) =~= t);
    loop
        invariant
            a <= b <= n,
            n == s@.len(),
            t == s@.skip(a as int),
            trim_end(t) == trim_end(s@.subrange(a as int, b as int)),
        ensures
            a <= b <= n,
            trim_end(t) == s@.subrange(a as int, b as int),
        decreases b,
    {
        if b <= a {
            break ;
        }
        let c = s.get_char(b - 1);
        assert(s@.subrange(a as int, b as int).last() == c);
        if !is_space_char(c) {
            break ;
        }
        assert(s@.subrange(a as int, b as int).drop_last() =~= s@.subrange(a as int, b - 1));
        b -= 1;
    }
    s.substring_char(a, b).to_owned()
}

/// Whether a query asks for no text: it is empty or all white space.
pub fn is_blank(s: &str) -> (r: bool)
    ensures
        r == (trimmed(s@).len() == 0),
{
    let t = trim(s);
    t.as_str().unicode_len() == 0
}

/// What stands for `c` in a substring pattern: the three characters that a
/// pattern reads as commands get a backslash in front.
pub open spec fn escape_char(c: char) -> Seq<char> {
    if c == '\\' || c == '%' || c == '_' {
        seq!['\\', c]
    } else {
        seq![c]
    }
}

/// `s` with every character that a substring pattern reads as a command
/// escaped.
pub open spec fn escaped(s: Seq<char>) -> Seq<char>
    decreases s.len(),
{
    if s.len() == 0 {
        Seq::empty()
    } else {
        escaped(s.drop_last()) + escape_char(s.last())
    }
}

/// The pattern that matches the texts in which `s` occurs.
pub open spec fn like_pattern(s: Seq<char>) -> Seq<char> {
    seq!['%'] + escaped(s) + seq!['%']
}

/// Escapes `input` for use in a substring pattern whose escape character
/// is the backslash: a backslash goes in front of every backslash, percent
/// sign and underscore.
pub fn escape_like(input: &str) -> (r: String)
    ensures
        r@ == escaped(input@),
{
    let n = input.unicode_len();
    let mut out = String::new();
    let mut i: usize = 0;
    assert(input@.take(0) =~= Seq::<char>::empty());
    while i < n
        invariant
            i <= n,
            n == input@.len(),
            out@ == escaped(input@.take(i as int)),
        decreases n - i,
    {
        let c = input.get_char(i);
        let ghost before = out@;
        if c == '\\' || c == '%' || c == '_' {
            out.append("\\");
        }
        out.append(input.substring_char(i, i + 1));
        proof {
            reveal_strlit("\\");
            let head = input@.take(i + 1);
            assert(head.drop_last() =~= input@.take(i as int));
            assert(head.last() == c);
            assert(input@.subrange(i as int, i + 1) =~= seq![c]);
            assert("\\"@ =~= seq!['\\']);
            assert(out@ =~= before + escape_char(c));
        }
        i += 1;
    }
    assert(input@.take(n as int) =~= input@);
    out
}

/// The pattern that matches the texts in which `query` occurs.
pub fn like_pattern_of(query: &str) -> (r: String)
    ensures
        r@ == like_pattern(query@),
{
    let mut out = String::new();
    out.append("%");
    let middle = escape_like(query);
    out.append(middle.as_str());
    out.append("%");
    proof {
        reveal_strlit("%");
        assert("%"@ =~= seq!['%']);
        assert(out@ =~= like_pattern(query@));
    }
    out
}

} // verus!
