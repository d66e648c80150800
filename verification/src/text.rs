//! Character-level text operations with their mathematical meaning:
//! substitution of every occurrence of a pattern, whitespace trimming,
//! occurrence search, decimal and hexadecimal numerals.
use vstd::prelude::*;

verus! {

/// `String::push` appends one character at the end of the string.
pub assume_specification[ String::push ](s: &mut String, ch: char)
    ensures
        final(s)@ == old(s)@.push(ch),
;

// ---------------------------------------------------------------------------
// Conversions between strings and character vectors
// ---------------------------------------------------------------------------

/// The characters of `s`, in order.
pub fn chars_of(s: &str) -> (res: Vec<char>)
    ensures
        res@ == s@,
{
    let mut res: Vec<char> = Vec::new();
    for c in it: s.chars()
        invariant
            res@ == it.seq().take(it.index() as int),
            it.seq() == s@,
    {
        res.push(c);
    }
    res
}

/// Appends the characters `cs[lo..hi]` to `out`.
pub fn push_chars(out: &mut String, cs: &Vec<char>, lo: usize, hi: usize)
    requires
        lo <= hi <= cs@.len(),
    ensures
        final(out)@ == old(out)@ + cs@.subrange(lo as int, hi as int),
{
    let ghost start = out@;
    let mut i: usize = lo;
    while i < hi
        invariant
            lo <= i <= hi <= cs@.len(),
            out@ == start + cs@.subrange(lo as int, i as int),
        decreases hi - i,
    {
        out.push(cs[i]);
        i += 1;
        assert(out@ =~= start + cs@.subrange(lo as int, i as int));
    }
}

/// Appends the characters of `s` to `out`.
pub fn push_str(out: &mut String, s: &str)
    ensures
        final(out)@ == old(out)@ + s@,
{
    let cs = chars_of(s);
    push_chars(out, &cs, 0, cs.len());
    assert(cs@.subrange(0, cs@.len() as int) =~= s@);
}

/// The string made of the characters `cs[lo..hi]`.
pub fn string_of(cs: &Vec<char>, lo: usize, hi: usize) -> (res: String)
    requires
        lo <= hi <= cs@.len(),
    ensures
        res@ == cs@.subrange(lo as int, hi as int),
{
    let mut res = String::new();
    push_chars(&mut res, cs, lo, hi);
    assert(res@ =~= cs@.subrange(lo as int, hi as int));
    res
}

/// A fresh copy of `s`.
pub fn owned(s: &str) -> (res: String)
    ensures
        res@ == s@,
{
    let mut res = String::new();
    push_str(&mut res, s);
    assert(res@ =~= s@);
    res
}

// ---------------------------------------------------------------------------
// Occurrences of a pattern
// ---------------------------------------------------------------------------

/// `pat` occurs in `s` starting at position `i`.
pub open spec fn occurs_at(s: Seq<char>, pat: Seq<char>, i: int) -> bool {
    0 <= i && i + pat.len() <= s.len() && s.subrange(i, i + pat.len()) == pat
}

/// Whether `pat` occurs in `s` at position `i`.
pub fn matches_at(s: &Vec<char>, pat: &Vec<char>, i: usize) -> (res: bool)
    ensures
        res == occurs_at(s@, pat@, i as int),
{
    if i > s.len() || pat.len() > s.len() - i {
        return false;
    }
    let mut k: usize = 0;
    while k < pat.len()
        invariant
            i + pat@.len() <= s@.len(),
            s@.len() == s.len(),
            k <= pat@.len(),
            forall|j: int| 0 <= j < k ==> s@[i + j] == pat@[j],
        decreases pat@.len() - k,
    {
        if s[i + k] != pat[k] {
            assert(s@.subrange(i as int, i + pat@.len())[k as int] != pat@[k as int]);
            return false;
        }
        k += 1;
    }
    assert(s@.subrange(i as int, i + pat@.len()) =~= pat@);
    true
}

/// The positions below `n` at which `pat` occurs in `s`.
pub open spec fn occurrences_below(s: Seq<char>, pat: Seq<char>, n: int) -> Seq<int>
    decreases n,
{
    if n <= 0 {
        seq![]
    } else if occurs_at(s, pat, n - 1) {
        occurrences_below(s, pat, n - 1).push(n - 1)
    } else {
        occurrences_below(s, pat, n - 1)
    }
}

/// The positions at which `pat` occurs in `s`, in increasing order.
pub open spec fn occurrences(s: Seq<char>, pat: Seq<char>) -> Seq<int> {
    occurrences_below(s, pat, s.len() as int)
}

/// Up to two positions at which `pat` occurs in `s`, found from the left:
/// the first two entries of the occurrences of `pat`.
pub fn first_two_occurrences(s: &Vec<char>, pat: &Vec<char>) -> (res: Vec<usize>)
    ensures
        res@.len() == if occurrences(s@, pat@).len() < 2 {
            occurrences(s@, pat@).len()
        } else {
            2
        },
        forall|k: int| 0 <= k < res@.len() ==> res@[k] as int == occurrences(s@, pat@)[k],
{
    let mut res: Vec<usize> = Vec::new();
    let mut i: usize = 0;
    while i < s.len()
        invariant
            i <= s@.len(),
            res@.len() <= 2,
            res@.len() == if occurrences_below(s@, pat@, i as int).len() < 2 {
                occurrences_below(s@, pat@, i as int).len()
            } else {
                2
            },
            forall|k: int|
                0 <= k < res@.len() ==> res@[k] as int == occurrences_below(s@, pat@, i as int)[k],
        decreases s@.len() - i,
    {
        if matches_at(s, pat, i) && res.len() < 2 {
            res.push(i);
        }
        i += 1;
    }
    res
}

/// The occurrences below `n` are exactly the positions below `n` where `pat` occurs.
pub proof fn lemma_occurrences_below_members(s: Seq<char>, pat: Seq<char>, n: int)
    ensures
        forall|k: int|
            0 <= k < occurrences_below(s, pat, n).len() ==> {
                let p = #[trigger] occurrences_below(s, pat, n)[k];
                0 <= p < n && occurs_at(s, pat, p)
            },
        forall|p: int|
            0 <= p < n && occurs_at(s, pat, p) ==> occurrences_below(s, pat, n).contains(p),
        forall|k1: int, k2: int|
            0 <= k1 < k2 < occurrences_below(s, pat, n).len() ==> occurrences_below(s, pat, n)[k1]
                < occurrences_below(s, pat, n)[k2],
    decreases n,
{
    if n > 0 {
        lemma_occurrences_below_members(s, pat, n - 1);
        let prev = occurrences_below(s, pat, n - 1);
        if occurs_at(s, pat, n - 1) {
            assert forall|p: int| 0 <= p < n && occurs_at(s, pat, p) implies occurrences_below(
                s,
                pat,
                n,
            ).contains(p) by {
                if p == n - 1 {
                    assert(occurrences_below(s, pat, n)[prev.len() as int] == p);
                } else {
                    let k = choose|k: int| 0 <= k < prev.len() && prev[k] == p;
                    assert(occurrences_below(s, pat, n)[k] == p);
                }
            }
        }
    }
}

// ---------------------------------------------------------------------------
// Substitution of every occurrence of a pattern
// ---------------------------------------------------------------------------

/// `s` with every occurrence of `pat`, found from the left without overlap,
/// replaced by `rep`.
pub open spec fn replace_all(s: Seq<char>, pat: Seq<char>, rep: Seq<char>) -> Seq<char>
    recommends
        pat.len() > 0,
    decreases s.len(),
{
    if s.len() == 0 {
        seq![]
    } else if pat.len() > 0 && pat.len() <= s.len() && s.take(pat.len() as int) == pat {
        rep + replace_all(s.skip(pat.len() as int), pat, rep)
    } else {
        seq![s[0]] + replace_all(s.skip(1), pat, rep)
    }
}

/// Where `pat` does not occur, nothing is replaced.
pub proof fn lemma_replace_all_absent(s: Seq<char>, pat: Seq<char>, rep: Seq<char>)
    requires
        pat.len() > 0,
        occurrences(s, pat).len() == 0,
    ensures
        replace_all(s, pat, rep) == s,
    decreases s.len(),
{
    lemma_occurrences_below_members(s, pat, s.len() as int);
    if s.len() > 0 {
        let t = s.skip(1);
        assert(!occurs_at(s, pat, 0));
        if pat.len() <= s.len() {
            assert(s.take(pat.len() as int) =~= s.subrange(0, pat.len() as int));
        }
        lemma_occurrences_below_members(t, pat, t.len() as int);
        if occurrences(t, pat).len() > 0 {
            let i = occurrences(t, pat)[0];
            assert(occurs_at(t, pat, i));
            assert(t.subrange(i, i + pat.len()) =~= s.subrange(i + 1, i + 1 + pat.len()));
            assert(occurs_at(s, pat, i + 1));
            assert(occurrences(s, pat).contains(i + 1));
        }
        lemma_replace_all_absent(t, pat, rep);
        assert(seq![s[0]] + t =~= s);
    }
}

/// A pattern with a character that `s` lacks does not occur in `s`.
pub proof fn lemma_absent_by_char(s: Seq<char>, pat: Seq<char>, c: char)
    requires
        pat.contains(c),
        !s.contains(c),
    ensures
        occurrences(s, pat).len() == 0,
{
    lemma_occurrences_below_members(s, pat, s.len() as int);
    if occurrences(s, pat).len() > 0 {
        let i = occurrences(s, pat)[0];
        assert(occurs_at(s, pat, i));
        let k = choose|k: int| 0 <= k < pat.len() && pat[k] == c;
        assert(s.subrange(i, i + pat.len())[k] == c);
        assert(s[i + k] == c);
    }
}

/// A character that `pat` lacks splits the replacement: no occurrence of `pat`
/// reaches across it.
pub proof fn lemma_replace_all_split(a: Seq<char>, c: char, b: Seq<char>, pat: Seq<char>, rep: Seq<char>)
    requires
        pat.len() > 0,
        !pat.contains(c),
    ensures
        replace_all(a + seq![c] + b, pat, rep) == replace_all(a, pat, rep) + seq![c] + replace_all(
            b,
            pat,
            rep,
        ),
    decreases a.len(),
{
    let s = a + seq![c] + b;
    let n = pat.len() as int;
    if a.len() == 0 {
        if n <= s.len() && s.take(n) == pat {
            assert(pat[0] == s[0]);
        }
        assert(s.skip(1) =~= b);
        assert(a + seq![c] + b =~= seq![c] + b);
        assert(replace_all(a, pat, rep) =~= Seq::<char>::empty());
        assert(replace_all(a, pat, rep) + seq![c] + replace_all(b, pat, rep) =~= seq![c]
            + replace_all(b, pat, rep));
    } else if n <= s.len() && s.take(n) == pat {
        if n > a.len() {
            assert(s.take(n)[a.len() as int] == c);
            assert(pat[a.len() as int] == c);
        }
        assert(a.take(n) =~= s.take(n));
        assert(s.skip(n) =~= a.skip(n) + seq![c] + b);
        lemma_replace_all_split(a.skip(n), c, b, pat, rep);
        assert(replace_all(s, pat, rep) =~= replace_all(a, pat, rep) + seq![c] + replace_all(
            b,
            pat,
            rep,
        ));
    } else {
        if n <= a.len() && a.take(n) == pat {
            assert(s.take(n) =~= a.take(n));
        }
        assert(s.skip(1) =~= a.skip(1) + seq![c] + b);
        lemma_replace_all_split(a.skip(1), c, b, pat, rep);
        assert(replace_all(s, pat, rep) =~= replace_all(a, pat, rep) + seq![c] + replace_all(
            b,
            pat,
            rep,
        ));
    }
}

/// The pattern alone is replaced by the replacement.
pub proof fn lemma_replace_all_whole(pat: Seq<char>, rep: Seq<char>)
    requires
        pat.len() > 0,
    ensures
        replace_all(pat, pat, rep) == rep,
{
    assert(pat.take(pat.len() as int) =~= pat);
    let rest = pat.skip(pat.len() as int);
    assert(rest.len() == 0);
    assert(replace_all(rest, pat, rep) =~= Seq::<char>::empty());
    assert(replace_all(pat, pat, rep) == rep + replace_all(rest, pat, rep));
    assert(rep + replace_all(rest, pat, rep) =~= rep);
}

/// `s` with every occurrence of `pat` replaced by `rep`, as `str::replace` does.
pub fn replace(s: &str, pat: &str, rep: &str) -> (res: String)
    requires
        pat@.len() > 0,
    ensures
        res@ == replace_all(s@, pat@, rep@),
{
    let cs = chars_of(s);
    let cp = chars_of(pat);
    let mut out = String::new();
    let mut i: usize = 0;
    proof {
        assert(cs@.skip(0) =~= cs@);
    }
    while i < cs.len()
        invariant
            cs@ == s@,
            cp@ == pat@,
            cp@.len() > 0,
            i <= cs@.len(),
            out@ + replace_all(cs@.skip(i as int), cp@, rep@) == replace_all(cs@, cp@, rep@),
        decreases cs@.len() - i,
    {
        let ghost rest = cs@.skip(i as int);
        if matches_at(&cs, &cp, i) {
            proof {
                assert(rest.take(cp@.len() as int) =~= cs@.subrange(i as int, i + cp@.len()));
                assert(rest.skip(cp@.len() as int) =~= cs@.skip(i + cp@.len()));
                assert(out@ + rep@ + replace_all(cs@.skip(i + cp@.len()), cp@, rep@) =~= out@ + (
                rep@ + replace_all(rest.skip(cp@.len() as int), cp@, rep@)));
            }
            push_str(&mut out, rep);
            i = i + cp.len();
        } else {
            proof {
                if cp@.len() <= rest.len() {
                    assert(rest.take(cp@.len() as int) =~= cs@.subrange(i as int, i + cp@.len()));
                }
                assert(rest.skip(1) =~= cs@.skip(i + 1));
                assert(out@.push(cs@[i as int]) + replace_all(cs@.skip(i + 1), cp@, rep@) =~= out@
                    + (seq![rest[0]] + replace_all(rest.skip(1), cp@, rep@)));
            }
            out.push(cs[i]);
            i = i + 1;
        }
    }
    proof {
        assert(cs@.skip(i as int) =~= Seq::<char>::empty());
        assert(out@ + Seq::<char>::empty() =~= out@);
    }
    out
}

// ---------------------------------------------------------------------------
// Whitespace trimming
// ---------------------------------------------------------------------------

/// The characters with the Unicode `White_Space` property, as `char::is_whitespace` has them.
pub open spec fn is_whitespace(c: char) -> bool {
    let u = c as u32;
    ||| 0x09 <= u <= 0x0d
    ||| u == 0x20
    ||| u == 0x85
    ||| u == 0xa0
    ||| u == 0x1680
    ||| 0x2000 <= u <= 0x200a
    ||| u == 0x2028
    ||| u == 0x2029
    ||| u == 0x202f
    ||| u == 0x205f
    ||| u == 0x3000
}

/// Whether `c` is a whitespace character.
pub fn whitespace(c: char) -> (res: bool)
    ensures
        res == is_whitespace(c),
{
    let u = c as u32;
    (0x09 <= u && u <= 0x0d) || u == 0x20 || u == 0x85 || u == 0xa0 || u == 0x1680 || (0x2000 <= u
        && u <= 0x200a) || u == 0x2028 || u == 0x2029 || u == 0x202f || u == 0x205f || u == 0x3000
}

/// `s` without its leading whitespace.
pub open spec fn trim_start(s: Seq<char>) -> Seq<char>
    decreases s.len(),
{
    if s.len() > 0 && is_whitespace(s[0]) {
        trim_start(s.skip(1))
    } else {
        s
    }
}

/// `s` without its trailing whitespace.
pub open spec fn trim_end(s: Seq<char>) -> Seq<char>
    decreases s.len(),
{
    if s.len() > 0 && is_whitespace(s.last()) {
        trim_end(s.drop_last())
    } else {
        s
    }
}

/// `s` without leading and trailing whitespace, as `str::trim` gives it.
pub open spec fn trim(s: Seq<char>) -> Seq<char> {
    trim_end(trim_start(s))
}

/// The bounds `(a, b)` of the trimmed part of `cs[lo..hi]`.
pub fn trim_range(cs: &Vec<char>, lo: usize, hi: usize) -> (res: (usize, usize))
    requires
        lo <= hi <= cs@.len(),
    ensures
        lo <= res.0 <= res.1 <= hi,
        cs@.subrange(res.0 as int, res.1 as int) == trim(cs@.subrange(lo as int, hi as int)),
{
    let mut a: usize = lo;
    while a < hi && whitespace(cs[a])
        invariant
            lo <= a <= hi <= cs@.len(),
            trim_start(cs@.subrange(lo as int, hi as int)) == trim_start(
                cs@.subrange(a as int, hi as int),
            ),
        decreases hi - a,
    {
        assert(cs@.subrange(a as int, hi as int).skip(1) =~= cs@.subrange(a + 1, hi as int));
        a += 1;
    }
    let mut b: usize = hi;
    while b > a && whitespace(cs[b - 1])
        invariant
            lo <= a <= b <= hi <= cs@.len(),
            trim_end(cs@.subrange(a as int, hi as int)) == trim_end(
                cs@.subrange(a as int, b as int),
            ),
        decreases b - a,
    {
        assert(cs@.subrange(a as int, b as int).drop_last() =~= cs@.subrange(a as int, b - 1));
        b -= 1;
    }
    (a, b)
}

/// `s` without leading and trailing whitespace.
pub fn trim_str(s: &str) -> (res: String)
    ensures
        res@ == trim(s@),
{
    let cs = chars_of(s);
    let (a, b) = trim_range(&cs, 0, cs.len());
    assert(cs@.subrange(0, cs@.len() as int) =~= s@);
    string_of(&cs, a, b)
}

// ---------------------------------------------------------------------------
// Searching for a character
// ---------------------------------------------------------------------------

/// The first position of `c` in `cs[lo..hi]`, if any.
pub fn find_char(cs: &Vec<char>, lo: usize, hi: usize, c: char) -> (res: Option<usize>)
    requires
        lo <= hi <= cs@.len(),
    ensures
        match res {
            Some(i) => lo <= i < hi && cs@[i as int] == c && forall|j: int|
                lo <= j < i ==> cs@[j] != c,
            None => forall|j: int| lo <= j < hi ==> cs@[j] != c,
        },
{
    let mut i: usize = lo;
    while i < hi
        invariant
            lo <= i <= hi <= cs@.len(),
            forall|j: int| lo <= j < i ==> cs@[j] != c,
        decreases hi - i,
    {
        if cs[i] == c {
            return Some(i);
        }
        i += 1;
    }
    None
}

// ---------------------------------------------------------------------------
// Numerals
// ---------------------------------------------------------------------------

/// The decimal digit character for `d < 10`.
pub open spec fn digit_char(d: nat) -> char {
    (d + 48) as char
}

/// The lower-case hexadecimal digit character for `d < 16`.
pub open spec fn hex_char(d: nat) -> char {
    if d < 10 {
        (d + 48) as char
    } else {
        (d + 87) as char
    }
}

/// The decimal numeral of `n`, without leading zeros.
pub open spec fn decimal(n: nat) -> Seq<char>
    decreases n,
{
    if n < 10 {
        seq![digit_char(n)]
    } else {
        decimal(n / 10).push(digit_char(n % 10))
    }
}

/// The last `width` lower-case hexadecimal digits of `n`, most significant first.
pub open spec fn hex_digits(n: nat, width: nat) -> Seq<char>
    decreases width,
{
    if width == 0 {
        seq![]
    } else {
        hex_digits(n / 16, (width - 1) as nat).push(hex_char(n % 16))
    }
}

fn digit(d: usize) -> (c: char)
    requires
        d < 10,
    ensures
        c == digit_char(d as nat),
{
    let b: u8 = (d as u8) + 48;
    b as char
}

fn hex_digit(d: u32) -> (c: char)
    requires
        d < 16,
    ensures
        c == hex_char(d as nat),
{
    if d < 10 {
        ((d as u8) + 48) as char
    } else {
        ((d as u8) + 87) as char
    }
}

/// Appends the decimal numeral of `n` to `out`.
pub fn push_decimal(out: &mut String, n: usize)
    ensures
        final(out)@ == old(out)@ + decimal(n as nat),
    decreases n,
{
    if n >= 10 {
        push_decimal(out, n / 10);
    }
    out.push(digit(n % 10));
    proof {
        if n >= 10 {
            assert(old(out)@ + decimal(n as nat) =~= old(out)@ + decimal((n / 10) as nat) + seq![
                digit_char((n % 10) as nat)]);
        } else {
            assert(old(out)@ + decimal(n as nat) =~= old(out)@.push(digit_char(n as nat)));
        }
    }
}

/// Appends the last `width` hexadecimal digits of `n` to `out`.
pub fn push_hex_digits(out: &mut String, n: u32, width: usize)
    ensures
        final(out)@ == old(out)@ + hex_digits(n as nat, width as nat),
    decreases width,
{
    if width == 0 {
        assert(old(out)@ + hex_digits(n as nat, 0) =~= old(out)@);
        return;
    }
    push_hex_digits(out, n / 16, width - 1);
    out.push(hex_digit(n % 16));
    assert(old(out)@ + hex_digits(n as nat, width as nat) =~= old(out)@ + hex_digits(
        (n / 16) as nat,
        (width - 1) as nat,
    ) + seq![hex_char((n % 16) as nat)]);
}

/// Whether `c` is an ASCII decimal digit.
pub open spec fn is_digit(c: char) -> bool {
    '0' <= c <= '9'
}

/// The value of a string of decimal digits.
pub open spec fn digits_value(s: Seq<char>) -> nat
    decreases s.len(),
{
    if s.len() == 0 {
        0
    } else {
        digits_value(s.drop_last()) * 10 + ((s.last() as u32) - 48) as nat
    }
}

/// `s` without a leading `+` sign, if it has one.
pub open spec fn unsigned_digits(s: Seq<char>) -> Seq<char> {
    if s.len() > 0 && s[0] == '+' {
        s.skip(1)
    } else {
        s
    }
}

/// Every character of `s` is an ASCII decimal digit.
pub open spec fn all_digits(s: Seq<char>) -> bool {
    forall|i: int| 0 <= i < s.len() ==> is_digit(#[trigger] s[i])
}

/// What `str::parse::<usize>` gives for `s`: an optional `+` followed by at least one
/// ASCII digit, with a value that fits in `usize`.
pub open spec fn parse_usize_spec(s: Seq<char>) -> Option<usize> {
    let d = unsigned_digits(s);
    if d.len() > 0 && all_digits(d) && digits_value(d) <= usize::MAX {
        Some(digits_value(d) as usize)
    } else {
        None
    }
}

proof fn lemma_digits_value_prefix(s: Seq<char>, k: int)
    requires
        0 <= k <= s.len(),
        all_digits(s),
    ensures
        digits_value(s.take(k)) <= digits_value(s),
    decreases s.len(),
{
    if k < s.len() {
        assert(s.drop_last().take(k) =~= s.take(k));
        lemma_digits_value_prefix(s.drop_last(), k);
    } else {
        assert(s.take(k) =~= s);
    }
}

/// The number written in `cs[lo..hi]`, read as `str::parse::<usize>` reads it.
pub fn parse_usize(cs: &Vec<char>, lo: usize, hi: usize) -> (res: Option<usize>)
    requires
        lo <= hi <= cs@.len(),
    ensures
        res == parse_usize_spec(cs@.subrange(lo as int, hi as int)),
{
    let ghost s = cs@.subrange(lo as int, hi as int);
    let mut start = lo;
    if lo < hi && cs[lo] == '+' {
        start = lo + 1;
    }
    let ghost d = cs@.subrange(start as int, hi as int);
    assert(d =~= unsigned_digits(s));
    if start == hi {
        return None;
    }
    let mut value: usize = 0;
    let mut i: usize = start;
    while i < hi
        invariant
            lo <= start <= i <= hi <= cs@.len(),
            start < hi,
            s == cs@.subrange(lo as int, hi as int),
            d == cs@.subrange(start as int, hi as int),
            d == unsigned_digits(s),
            forall|j: int| start <= j < i ==> is_digit(cs@[j]),
            value == digits_value(cs@.subrange(start as int, i as int)),
        decreases hi - i,
    {
        let c = cs[i];
        if !('0' <= c && c <= '9') {
            assert(!is_digit(d[i - start]));
            assert(!all_digits(d));
            return None;
        }
        let dv: usize = ((c as u32) - 48) as usize;
        let ghost next = cs@.subrange(start as int, i + 1);
        assert(next.drop_last() =~= cs@.subrange(start as int, i as int));
        assert(next.last() == c);
        assert(digits_value(next) == value * 10 + dv);
        match value.checked_mul(10) {
            Some(v10) => match v10.checked_add(dv) {
                Some(v) => {
                    value = v;
                },
                None => {
                    proof {
                        assert(next =~= d.take(i + 1 - start));
                        if all_digits(d) {
                            lemma_digits_value_prefix(d, i + 1 - start);
                        }
                    }
                    return None;
                },
            },
            None => {
                proof {
                    assert(next =~= d.take(i + 1 - start));
                    if all_digits(d) {
                        lemma_digits_value_prefix(d, i + 1 - start);
                    }
                }
                return None;
            },
        }
        i += 1;
    }
    assert(cs@.subrange(start as int, i as int) =~= d);
    Some(value)
}

} // verus!
