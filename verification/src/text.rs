//! Character-level text operations used to read type names.
use vstd::prelude::*;
use vstd::string::{StrSliceExecFns, StringExecFns};

verus! {

/// `p` is a prefix of `s`.
pub open spec fn has_prefix(s: Seq<char>, p: Seq<char>) -> bool {
    p.len() <= s.len() && s.subrange(0, p.len() as int) == p
}

/// How a character changes the angle-bracket nesting depth.
pub open spec fn bracket_delta(c: char) -> int {
    if c == '<' { 1 } else if c == '>' { -1 } else { 0 }
}

/// The part of `s` before the first `c` that stands outside every angle
/// bracket, `depth` being the nesting depth at the start of `s` (all of `s`
/// if there is none).
pub open spec fn before_top_level(s: Seq<char>, c: char, depth: int) -> Seq<char>
    decreases s.len(),
{
    if s.len() == 0 {
        s
    } else if s[0] == c && depth == 0 {
        Seq::empty()
    } else {
        seq![s[0]].add(before_top_level(s.drop_first(), c, depth + bracket_delta(s[0])))
    }
}

/// `s` without one trailing `c`, if it ends with one.
pub open spec fn without_last(s: Seq<char>, c: char) -> Seq<char> {
    if s.len() > 0 && s.last() == c { s.drop_last() } else { s }
}

/// The characters with the Unicode `White_Space` property.
pub open spec fn is_white_space(c: char) -> bool {
    ||| '\u{9}' <= c <= '\u{d}'
    ||| c == ' '
    ||| c == '\u{85}'
    ||| c == '\u{a0}'
    ||| c == '\u{1680}'
    ||| '\u{2000}' <= c <= '\u{200a}'
    ||| c == '\u{2028}'
    ||| c == '\u{2029}'
    ||| c == '\u{202f}'
    ||| c == '\u{205f}'
    ||| c == '\u{3000}'
}

/// `s` without leading white space.
pub open spec fn trim_start_white(s: Seq<char>) -> Seq<char>
    decreases s.len(),
{
    if s.len() > 0 && is_white_space(s[0]) { trim_start_white(s.drop_first()) } else { s }
}

/// `s` without trailing white space.
pub open spec fn trim_end_white(s: Seq<char>) -> Seq<char>
    decreases s.len(),
{
    if s.len() > 0 && is_white_space(s.last()) { trim_end_white(s.drop_last()) } else { s }
}

/// `s` without leading or trailing white space.
pub open spec fn trim_white(s: Seq<char>) -> Seq<char> {
    trim_end_white(trim_start_white(s))
}

fn white_space(c: char) -> (r: bool)
    ensures
        r == is_white_space(c),
{
    ('\u{9}' <= c && c <= '\u{d}') || c == ' ' || c == '\u{85}' || c == '\u{a0}' || c == '\u{1680}'
        || ('\u{2000}' <= c && c <= '\u{200a}') || c == '\u{2028}' || c == '\u{2029}' || c == '\u{202f}'
        || c == '\u{205f}' || c == '\u{3000}'
}

/// The characters of `s`.
pub fn chars_of(s: &str) -> (r: Vec<char>)
    ensures
        r@ == s@,
{
    let n = s.unicode_len();
    let mut out: Vec<char> = Vec::new();
    let mut i: usize = 0;
    while i < n
        invariant
            n == s@.len(),
            i <= n,
            out@ == s@.subrange(0, i as int),
        decreases n - i,
    {
        out.push(s.get_char(i));
        i = i + 1;
        proof {
            assert(out@ =~= s@.subrange(0, i as int));
        }
    }
    proof {
        assert(s@.subrange(0, n as int) =~= s@);
    }
    out
}

/// Whether `p` occurs in `c` at position `at`.
fn occurs_at(c: &Vec<char>, p: &Vec<char>, at: usize) -> (r: bool)
    requires
        at <= c@.len(),
    ensures
        r == has_prefix(c@.subrange(at as int, c@.len() as int), p@),
{
    if p.len() > c.len() - at {
        return false;
    }
    let mut k: usize = 0;
    while k < p.len()
        invariant
            p.len() <= c.len() - at,
            k <= p.len(),
            forall|j: int| 0 <= j < k ==> c@[at + j] == p@[j],
        decreases p.len() - k,
    {
        if c[at + k] != p[k] {
            proof {
                let t = c@.subrange(at as int, c@.len() as int);
                assert(t.subrange(0, p@.len() as int)[k as int] != p@[k as int]);
            }
            return false;
        }
        k = k + 1;
    }
    proof {
        let t = c@.subrange(at as int, c@.len() as int);
        assert(t.subrange(0, p@.len() as int) =~= p@);
    }
    true
}

/// Whether `s` begins with `p`.
pub fn starts_with(s: &str, p: &str) -> (r: bool)
    ensures
        r == has_prefix(s@, p@),
{
    let c = chars_of(s);
    let q = chars_of(p);
    proof {
        assert(c@.subrange(0, c@.len() as int) =~= c@);
    }
    occurs_at(&c, &q, 0)
}

/// The part of `s` before the first `sep` outside every angle bracket.
pub fn first_top_level_segment(s: &str, sep: char) -> (r: String)
    ensures
        r@ == before_top_level(s@, sep, 0),
{
    let c = chars_of(s);
    let mut i: usize = 0;
    let mut opens: usize = 0;
    let mut closes: usize = 0;
    proof {
        assert(s@.subrange(0, 0) + s@.subrange(0, s@.len() as int) =~= s@);
        assert(s@.subrange(0, s@.len() as int) =~= s@);
    }
    while i < c.len() && !(c[i] == sep && opens == closes)
        invariant
            c@ == s@,
            i <= c@.len(),
            opens <= i,
            closes <= i,
            before_top_level(s@, sep, 0) == s@.subrange(0, i as int) + before_top_level(
                s@.subrange(i as int, s@.len() as int),
                sep,
                opens - closes,
            ),
        decreases c.len() - i,
    {
        proof {
            let t = s@.subrange(i as int, s@.len() as int);
            assert(t.drop_first() =~= s@.subrange(i + 1, s@.len() as int));
            assert(s@.subrange(0, i + 1) =~= s@.subrange(0, i as int) + seq![t[0]]);
            assert(s@.subrange(0, i as int) + (seq![t[0]] + before_top_level(t.drop_first(), sep, opens - closes + bracket_delta(t[0])))
                =~= s@.subrange(0, i + 1) + before_top_level(t.drop_first(), sep, opens - closes + bracket_delta(t[0])));
        }
        if c[i] == '<' {
            opens = opens + 1;
        } else if c[i] == '>' {
            closes = closes + 1;
        }
        i = i + 1;
    }
    proof {
        let t = s@.subrange(i as int, s@.len() as int);
        assert(before_top_level(t, sep, opens - closes) =~= Seq::<char>::empty());
        assert(s@.subrange(0, i as int) + Seq::<char>::empty() =~= s@.subrange(0, i as int));
    }
    String::from_str(s.substring_char(0, i))
}

/// `s` without one trailing `c`, if it ends with one.
pub fn drop_last_char(s: &str, c: char) -> (r: String)
    ensures
        r@ == without_last(s@, c),
{
    let n = s.unicode_len();
    if n > 0 && s.get_char(n - 1) == c {
        String::from_str(s.substring_char(0, n - 1))
    } else {
        proof {
            assert(s@.subrange(0, n as int) =~= s@);
        }
        String::from_str(s.substring_char(0, n))
    }
}

/// `s` without leading or trailing white space.
pub fn trim(s: &str) -> (r: String)
    ensures
        r@ == trim_white(s@),
{
    let c = chars_of(s);
    let mut a: usize = 0;
    proof {
        assert(s@.subrange(0, s@.len() as int) =~= s@);
    }
    while a < c.len() && white_space(c[a])
        invariant
            c@ == s@,
            a <= c@.len(),
            trim_start_white(s@) == trim_start_white(s@.subrange(a as int, s@.len() as int)),
        decreases c.len() - a,
    {
        proof {
            assert(s@.subrange(a as int, s@.len() as int).drop_first() =~= s@.subrange(a + 1, s@.len() as int));
        }
        a = a + 1;
    }
    let ghost t = s@.subrange(a as int, s@.len() as int);
    assert(trim_start_white(s@) == t);
    let mut b: usize = c.len();
    proof {
        assert(s@.subrange(a as int, b as int) =~= t);
    }
    while b > a && white_space(c[b - 1])
        invariant
            c@ == s@,
            a <= b <= c@.len(),
            t == s@.subrange(a as int, s@.len() as int),
            trim_end_white(t) == trim_end_white(s@.subrange(a as int, b as int)),
        decreases b,
    {
        proof {
            assert(s@.subrange(a as int, b as int).drop_last() =~= s@.subrange(a as int, b - 1));
        }
        b = b - 1;
    }
    String::from_str(s.substring_char(a, b))
}

/// Whether two texts are the same.
pub fn same_text(a: &str, b: &str) -> (r: bool)
    ensures
        r == (a@ == b@),
{
    let x = chars_of(a);
    let y = chars_of(b);
    if x.len() != y.len() {
        return false;
    }
    let mut i: usize = 0;
    while i < x.len()
        invariant
            x@ == a@,
            y@ == b@,
            x@.len() == y@.len(),
            i <= x@.len(),
            forall|j: int| 0 <= j < i ==> x@[j] == y@[j],
        decreases x.len() - i,
    {
        if x[i] != y[i] {
            return false;
        }
        i = i + 1;
    }
    proof {
        assert(a@ =~= b@);
    }
    true
}

/// The decimal digit for `d`.
pub open spec fn digit_char(d: nat) -> char {
    if d == 0 { '0' } else if d == 1 { '1' } else if d == 2 { '2' } else if d == 3 { '3' }
    else if d == 4 { '4' } else if d == 5 { '5' } else if d == 6 { '6' } else if d == 7 { '7' }
    else if d == 8 { '8' } else { '9' }
}

/// `n` written in decimal, without leading zeros.
pub open spec fn decimal(n: nat) -> Seq<char>
    decreases n,
{
    if n < 10 {
        seq![digit_char(n)]
    } else {
        decimal(n / 10).push(digit_char(n % 10))
    }
}

fn digit_text(d: u64) -> (r: &'static str)
    requires
        d < 10,
    ensures
        r@ == seq![digit_char(d as nat)],
{
    proof {
        reveal_strlit("0");
        reveal_strlit("1");
        reveal_strlit("2");
        reveal_strlit("3");
        reveal_strlit("4");
        reveal_strlit("5");
        reveal_strlit("6");
        reveal_strlit("7");
        reveal_strlit("8");
        reveal_strlit("9");
    }
    if d == 0 { "0" } else if d == 1 { "1" } else if d == 2 { "2" } else if d == 3 { "3" }
    else if d == 4 { "4" } else if d == 5 { "5" } else if d == 6 { "6" } else if d == 7 { "7" }
    else if d == 8 { "8" } else { "9" }
}

/// `n` written in decimal.
pub fn decimal_text(n: u64) -> (r: String)
    ensures
        r@ == decimal(n as nat),
    decreases n,
{
    if n < 10 {
        String::from_str(digit_text(n))
    } else {
        let front = decimal_text(n / 10);
        let r = front.concat(digit_text(n % 10));
        proof {
            assert(decimal(n as nat) == decimal((n / 10) as nat).push(digit_char((n % 10) as nat)));
            assert(r@ =~= decimal(n as nat));
        }
        r
    }
}

} // verus!
