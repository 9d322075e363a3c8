//! Character-level text handling: whitespace, trimming, splitting, line
//! breaking and unsigned decimal numbers, each stated over `Seq<char>`.
use vstd::prelude::*;

verus! {

// ---------------------------------------------------------------------------
// Specifications
// ---------------------------------------------------------------------------

/// The Unicode `White_Space` property, which `char::is_whitespace` tests.
pub open spec fn is_ws(c: char) -> bool {
    ||| c == '\t'
    ||| c == '\n'
    ||| c == '\u{0B}'
    ||| c == '\u{0C}'
    ||| c == '\r'
    ||| c == ' '
    ||| c == '\u{85}'
    ||| c == '\u{A0}'
    ||| c == '\u{1680}'
    ||| ('\u{2000}' <= c && c <= '\u{200A}')
    ||| c == '\u{2028}'
    ||| c == '\u{2029}'
    ||| c == '\u{202F}'
    ||| c == '\u{205F}'
    ||| c == '\u{3000}'
}

/// `s` without its leading whitespace.
pub open spec fn trim_start(s: Seq<char>) -> Seq<char>
    decreases s.len(),
{
    if s.len() > 0 && is_ws(s[0]) {
        trim_start(s.drop_first())
    } else {
        s
    }
}

/// `s` without its trailing whitespace.
pub open spec fn trim_end(s: Seq<char>) -> Seq<char>
    decreases s.len(),
{
    if s.len() > 0 && is_ws(s.last()) {
        trim_end(s.drop_last())
    } else {
        s
    }
}

/// `s` without leading and trailing whitespace (`str::trim`).
pub open spec fn trim(s: Seq<char>) -> Seq<char> {
    trim_end(trim_start(s))
}

/// `s` without every leading `c` (`str::trim_start_matches` with a char).
pub open spec fn strip_leading(s: Seq<char>, c: char) -> Seq<char>
    decreases s.len(),
{
    if s.len() > 0 && s[0] == c {
        strip_leading(s.drop_first(), c)
    } else {
        s
    }
}

/// `s` without every trailing `c` (`str::trim_end_matches` with a char).
pub open spec fn strip_trailing(s: Seq<char>, c: char) -> Seq<char>
    decreases s.len(),
{
    if s.len() > 0 && s.last() == c {
        strip_trailing(s.drop_last(), c)
    } else {
        s
    }
}

/// The longest prefix of `s` that holds no whitespace.
pub open spec fn first_word(s: Seq<char>) -> Seq<char>
    decreases s.len(),
{
    if s.len() == 0 || is_ws(s[0]) {
        Seq::empty()
    } else {
        seq![s[0]] + first_word(s.drop_first())
    }
}

/// The maximal runs of non-whitespace characters of `s`, in order
/// (`str::split_whitespace`).
pub open spec fn split_ws(s: Seq<char>) -> Seq<Seq<char>>
    decreases s.len(),
{
    if s.len() == 0 {
        Seq::empty()
    } else if is_ws(s[0]) {
        split_ws(s.drop_first())
    } else {
        let w = first_word(s);
        if 0 < w.len() <= s.len() {
            seq![w] + split_ws(s.skip(w.len() as int))
        } else {
            Seq::empty()
        }
    }
}

/// The pieces of `s` between occurrences of `c` (`str::split` with a char):
/// always at least one piece, empty pieces included.
pub open spec fn split_on(s: Seq<char>, c: char) -> Seq<Seq<char>>
    decreases s.len(),
{
    if s.len() == 0 {
        seq![Seq::empty()]
    } else {
        let rest = split_on(s.drop_first(), c);
        if s[0] == c {
            seq![Seq::<char>::empty()] + rest
        } else {
            rest.update(0, seq![s[0]] + rest[0])
        }
    }
}

/// `s` without one trailing carriage return.
pub open spec fn strip_cr(s: Seq<char>) -> Seq<char> {
    if s.len() > 0 && s.last() == '\r' {
        s.drop_last()
    } else {
        s
    }
}

/// The lines of `s` (`str::lines`): split at `\n`, a `\r` before the `\n`
/// dropped, and no empty last line after a final line ending.
pub open spec fn lines(s: Seq<char>) -> Seq<Seq<char>> {
    let p = split_on(s, '\n');
    let body = Seq::new((p.len() - 1) as nat, |i: int| strip_cr(p[i]));
    if p.last().len() == 0 {
        body
    } else {
        body.push(p.last())
    }
}

/// `p` occurs in `s` at position `i`.
pub open spec fn occurs_at(s: Seq<char>, p: Seq<char>, i: int) -> bool {
    0 <= i && i + p.len() <= s.len() && s.subrange(i, i + p.len()) == p
}

/// `p` occurs somewhere in `s` (`str::contains` with a string).
pub open spec fn has_infix(s: Seq<char>, p: Seq<char>) -> bool {
    exists|i: int| occurs_at(s, p, i)
}

/// `s` begins with `p` (`str::starts_with`).
pub open spec fn has_prefix(s: Seq<char>, p: Seq<char>) -> bool {
    p.len() <= s.len() && s.take(p.len() as int) == p
}

pub open spec fn is_digit(c: char) -> bool {
    48 <= c as u32 && c as u32 <= 57
}

pub open spec fn digit_value(c: char) -> nat {
    (c as u32 - 48) as nat
}

pub open spec fn all_digits(s: Seq<char>) -> bool {
    forall|i: int| 0 <= i < s.len() ==> is_digit(#[trigger] s[i])
}

/// The number that the decimal digits `s` write.
pub open spec fn decimal_value(s: Seq<char>) -> nat
    decreases s.len(),
{
    if s.len() == 0 {
        0
    } else {
        decimal_value(s.drop_last()) * 10 + digit_value(s.last())
    }
}

/// What `str::parse` gives for an unsigned integer type whose largest value
/// is `max`: an optional `+`, then one or more decimal digits, at most `max`.
pub open spec fn parse_unsigned(s: Seq<char>, max: nat) -> Option<nat> {
    let d = if s.len() >= 2 && s[0] == '+' {
        s.drop_first()
    } else {
        s
    };
    if d.len() > 0 && all_digits(d) && decimal_value(d) <= max {
        Some(decimal_value(d))
    } else {
        None
    }
}

/// `s` parsed as a `u16`.
pub open spec fn parse_u16_spec(s: Seq<char>) -> Option<u16> {
    match parse_unsigned(s, 0xffff) {
        Some(v) => Some(v as u16),
        None => None,
    }
}

/// `s` parsed as a `u8`.
pub open spec fn parse_u8_spec(s: Seq<char>) -> Option<u8> {
    match parse_unsigned(s, 0xff) {
        Some(v) => Some(v as u8),
        None => None,
    }
}

/// Every range lies within a text of length `n`.
pub open spec fn ranges_within(r: Seq<(usize, usize)>, n: nat) -> bool {
    forall|i: int| 0 <= i < r.len() ==> #[trigger] r[i].0 <= r[i].1 && r[i].1 <= n
}

/// The pieces of `s` that the ranges `r` select.
pub open spec fn pieces(s: Seq<char>, r: Seq<(usize, usize)>) -> Seq<Seq<char>> {
    Seq::new(r.len(), |i: int| s.subrange(r[i].0 as int, r[i].1 as int))
}

// ---------------------------------------------------------------------------
// Lemmas
// ---------------------------------------------------------------------------

proof fn lemma_first_word(s: Seq<char>, k: int)
    requires
        0 <= k <= s.len(),
        forall|j: int| 0 <= j < k ==> !is_ws(#[trigger] s[j]),
        k == s.len() || is_ws(s[k]),
    ensures
        first_word(s) == s.take(k),
    decreases s.len(),
{
    if s.len() == 0 || k == 0 {
        assert(s.take(k) =~= Seq::<char>::empty());
    } else {
        lemma_first_word(s.drop_first(), k - 1);
        assert(s.take(k) =~= seq![s[0]] + s.drop_first().take(k - 1));
    }
}

pub proof fn lemma_split_on_no_sep(s: Seq<char>, c: char)
    requires
        forall|j: int| 0 <= j < s.len() ==> #[trigger] s[j] != c,
    ensures
        split_on(s, c) == seq![s],
    decreases s.len(),
{
    if s.len() > 0 {
        lemma_split_on_no_sep(s.drop_first(), c);
        assert(seq![s[0]] + s.drop_first() =~= s);
        assert(split_on(s, c) =~= seq![s]);
    } else {
        assert(s =~= Seq::<char>::empty());
    }
}

pub proof fn lemma_split_on_first_sep(s: Seq<char>, c: char, k: int)
    requires
        0 <= k < s.len(),
        s[k] == c,
        forall|j: int| 0 <= j < k ==> #[trigger] s[j] != c,
    ensures
        split_on(s, c) == seq![s.take(k)] + split_on(s.skip(k + 1), c),
    decreases s.len(),
{
    if k == 0 {
        assert(s.drop_first() =~= s.skip(1));
        assert(s.take(0) =~= Seq::<char>::empty());
    } else {
        lemma_split_on_first_sep(s.drop_first(), c, k - 1);
        assert(s.drop_first().skip(k) =~= s.skip(k + 1));
        assert(s.take(k) =~= seq![s[0]] + s.drop_first().take(k - 1));
        let rest = split_on(s.drop_first(), c);
        assert(split_on(s, c) =~= rest.update(0, seq![s[0]] + rest[0]));
        assert(split_on(s, c) =~= seq![s.take(k)] + split_on(s.skip(k + 1), c));
    }
}

/// Splitting never yields an empty list of pieces.
pub proof fn lemma_split_on_nonempty(s: Seq<char>, c: char)
    ensures
        split_on(s, c).len() >= 1,
    decreases s.len(),
{
    if s.len() > 0 {
        lemma_split_on_nonempty(s.drop_first(), c);
    }
}

proof fn lemma_decimal_step(s: Seq<char>, i: int)
    requires
        0 <= i < s.len(),
    ensures
        decimal_value(s.take(i + 1)) == decimal_value(s.take(i)) * 10 + digit_value(s[i]),
{
    assert(s.take(i + 1).drop_last() =~= s.take(i));
}

proof fn lemma_decimal_prefix_le(s: Seq<char>, k: int)
    requires
        0 <= k <= s.len(),
    ensures
        decimal_value(s.take(k)) <= decimal_value(s),
    decreases s.len() - k,
{
    if k < s.len() {
        lemma_decimal_step(s, k);
        lemma_decimal_prefix_le(s, k + 1);
    } else {
        assert(s.take(k) =~= s);
    }
}

// ---------------------------------------------------------------------------
// Executable helpers
// ---------------------------------------------------------------------------

/// The characters of `s`.
pub fn chars_of(s: &str) -> (v: Vec<char>)
    ensures
        v@ == s@,
{
    let mut v: Vec<char> = Vec::new();
    for c in it: s.chars()
        invariant
            v@ == it.seq().take(it.index()),
    {
        v.push(c);
    }
    v
}

/// `char::is_whitespace`.
pub fn is_whitespace(c: char) -> (b: bool)
    ensures
        b == is_ws(c),
{
    c == '\t' || c == '\n' || c == '\u{0B}' || c == '\u{0C}' || c == '\r' || c == ' ' || c
        == '\u{85}' || c == '\u{A0}' || c == '\u{1680}' || ('\u{2000}' <= c && c <= '\u{200A}')
        || c == '\u{2028}' || c == '\u{2029}' || c == '\u{202F}' || c == '\u{205F}' || c
        == '\u{3000}'
}

/// The bounds of `s` without its surrounding whitespace.
pub fn trim_bounds(s: &[char]) -> (r: (usize, usize))
    ensures
        r.0 <= r.1 <= s@.len(),
        s@.subrange(r.0 as int, r.1 as int) == trim(s@),
{
    let mut lo: usize = 0;
    assert(s@.subrange(0, s@.len() as int) =~= s@);
    while lo < s.len() && is_whitespace(s[lo])
        invariant
            lo <= s@.len(),
            trim_start(s@) == trim_start(s@.subrange(lo as int, s@.len() as int)),
        decreases s@.len() - lo,
    {
        assert(s@.subrange(lo as int, s@.len() as int).drop_first() =~= s@.subrange(
            lo + 1,
            s@.len() as int,
        ));
        lo = lo + 1;
    }
    let ghost t = s@.subrange(lo as int, s@.len() as int);
    assert(trim_start(t) == t);
    let mut hi: usize = s.len();
    while hi > lo && is_whitespace(s[hi - 1])
        invariant
            lo <= hi <= s@.len(),
            trim_end(t) == trim_end(s@.subrange(lo as int, hi as int)),
        decreases hi,
    {
        assert(s@.subrange(lo as int, hi as int).drop_last() =~= s@.subrange(
            lo as int,
            hi - 1,
        ));
        hi = hi - 1;
    }
    (lo, hi)
}

/// `s` stripped of every leading `lead` and then of every trailing `trail`.
pub fn strip_bounds(s: &[char], lead: char, trail: char) -> (r: (usize, usize))
    ensures
        r.0 <= r.1 <= s@.len(),
        s@.subrange(r.0 as int, r.1 as int) == strip_trailing(strip_leading(s@, lead), trail),
{
    let mut lo: usize = 0;
    assert(s@.subrange(0, s@.len() as int) =~= s@);
    while lo < s.len() && s[lo] == lead
        invariant
            lo <= s@.len(),
            strip_leading(s@, lead) == strip_leading(s@.subrange(lo as int, s@.len() as int), lead),
        decreases s@.len() - lo,
    {
        assert(s@.subrange(lo as int, s@.len() as int).drop_first() =~= s@.subrange(
            lo + 1,
            s@.len() as int,
        ));
        lo = lo + 1;
    }
    let ghost t = s@.subrange(lo as int, s@.len() as int);
    assert(strip_leading(t, lead) == t);
    let mut hi: usize = s.len();
    while hi > lo && s[hi - 1] == trail
        invariant
            lo <= hi <= s@.len(),
            strip_trailing(t, trail) == strip_trailing(s@.subrange(lo as int, hi as int), trail),
        decreases hi,
    {
        assert(s@.subrange(lo as int, hi as int).drop_last() =~= s@.subrange(
            lo as int,
            hi - 1,
        ));
        hi = hi - 1;
    }
    (lo, hi)
}

/// The ranges of the whitespace-separated words of `s`.
pub fn word_ranges(s: &[char]) -> (r: Vec<(usize, usize)>)
    ensures
        ranges_within(r@, s@.len()),
        pieces(s@, r@) == split_ws(s@),
{
    let mut r: Vec<(usize, usize)> = Vec::new();
    let mut i: usize = 0;
    assert(s@.skip(0) =~= s@);
    while i < s.len()
        invariant
            i <= s@.len(),
            ranges_within(r@, s@.len()),
            pieces(s@, r@) + split_ws(s@.skip(i as int)) == split_ws(s@),
        decreases s@.len() - i,
    {
        if is_whitespace(s[i]) {
            assert(s@.skip(i as int).drop_first() =~= s@.skip(i + 1));
            i = i + 1;
        } else {
            let start = i;
            while i < s.len() && !is_whitespace(s[i])
                invariant
                    start <= i <= s@.len(),
                    forall|j: int| start <= j < i ==> !is_ws(#[trigger] s@[j]),
                decreases s@.len() - i,
            {
                i = i + 1;
            }
            let ghost rest = s@.skip(start as int);
            proof {
                assert forall|j: int| 0 <= j < i - start implies !is_ws(#[trigger] rest[j]) by {
                    assert(rest[j] == s@[start + j]);
                }
                lemma_first_word(rest, i - start);
                assert(rest.take(i - start) =~= s@.subrange(start as int, i as int));
                assert(rest.skip(i - start) =~= s@.skip(i as int));
            }
            let ghost old_r = r@;
            r.push((start, i));
            assert(pieces(s@, r@) =~= pieces(s@, old_r).push(s@.subrange(start as int, i as int)));
        }
    }
    assert(s@.skip(i as int) =~= Seq::<char>::empty());
    assert(pieces(s@, r@) + Seq::<Seq<char>>::empty() =~= pieces(s@, r@));
    r
}

/// The ranges of the pieces of `s` between occurrences of `c`.
pub fn split_ranges(s: &[char], c: char) -> (r: Vec<(usize, usize)>)
    ensures
        ranges_within(r@, s@.len()),
        pieces(s@, r@) == split_on(s@, c),
        r@.len() >= 1,
{
    let mut r: Vec<(usize, usize)> = Vec::new();
    let mut start: usize = 0;
    let mut i: usize = 0;
    assert(s@.skip(0) =~= s@);
    while i < s.len()
        invariant
            start <= i <= s@.len(),
            ranges_within(r@, s@.len()),
            forall|j: int| start <= j < i ==> #[trigger] s@[j] != c,
            pieces(s@, r@) + split_on(s@.skip(start as int), c) == split_on(s@, c),
        decreases s@.len() - i,
    {
        if s[i] == c {
            let ghost rest = s@.skip(start as int);
            proof {
                assert forall|j: int| 0 <= j < i - start implies #[trigger] rest[j] != c by {
                    assert(rest[j] == s@[start + j]);
                }
                lemma_split_on_first_sep(rest, c, i - start);
                assert(rest.take(i - start) =~= s@.subrange(start as int, i as int));
                assert(rest.skip(i - start + 1) =~= s@.skip(i + 1));
            }
            let ghost old_r = r@;
            r.push((start, i));
            assert(pieces(s@, r@) =~= pieces(s@, old_r).push(s@.subrange(start as int, i as int)));
            i = i + 1;
            start = i;
        } else {
            i = i + 1;
        }
    }
    let ghost rest = s@.skip(start as int);
    proof {
        assert forall|j: int| 0 <= j < rest.len() implies #[trigger] rest[j] != c by {
            assert(rest[j] == s@[start + j]);
        }
        lemma_split_on_no_sep(rest, c);
        assert(rest =~= s@.subrange(start as int, s@.len() as int));
    }
    let ghost old_r = r@;
    r.push((start, s.len()));
    assert(pieces(s@, r@) =~= pieces(s@, old_r).push(s@.subrange(start as int, s@.len() as int)));
    r
}

/// The ranges of the lines of `s`.
pub fn line_ranges(s: &[char]) -> (r: Vec<(usize, usize)>)
    ensures
        ranges_within(r@, s@.len()),
        pieces(s@, r@) == lines(s@),
{
    let p = split_ranges(s, '\n');
    let ghost ps = pieces(s@, p@);
    let mut r: Vec<(usize, usize)> = Vec::new();
    let n = p.len() - 1;
    let mut k: usize = 0;
    while k < n
        invariant
            n == p@.len() - 1,
            k <= n,
            ranges_within(p@, s@.len()),
            ps == pieces(s@, p@),
            ranges_within(r@, s@.len()),
            r@.len() == k,
            pieces(s@, r@) == Seq::new(k as nat, |i: int| strip_cr(ps[i])),
        decreases n - k,
    {
        let (a, b) = p[k];
        assert(a <= b && b <= s@.len()) by {
            assert(p@[k as int].0 <= p@[k as int].1);
        }
        let ghost piece = s@.subrange(a as int, b as int);
        assert(ps[k as int] == piece);
        let e = if b > a && s[b - 1] == '\r' {
            assert(piece.drop_last() =~= s@.subrange(a as int, b - 1));
            b - 1
        } else {
            b
        };
        assert(s@.subrange(a as int, e as int) == strip_cr(ps[k as int]));
        let ghost old_r = r@;
        r.push((a, e));
        proof {
            let target = Seq::new((k + 1) as nat, |i: int| strip_cr(ps[i]));
            assert forall|i: int| 0 <= i < k + 1 implies pieces(s@, r@)[i] == target[i] by {
                if i < k {
                    assert(r@[i] == old_r[i]);
                    assert(pieces(s@, old_r)[i] == strip_cr(ps[i]));
                }
            }
            assert(pieces(s@, r@) =~= target);
        }
        k = k + 1;
    }
    let (a, b) = p[n];
    assert(ps.last() == s@.subrange(a as int, b as int));
    if b > a {
        let ghost old_r = r@;
        r.push((a, b));
        assert(pieces(s@, r@) =~= pieces(s@, old_r).push(ps.last()));
    }
    r
}

/// `s` equals `t`.
pub fn chars_eq(s: &[char], t: &[char]) -> (b: bool)
    ensures
        b == (s@ == t@),
{
    if s.len() != t.len() {
        return false;
    }
    let mut i: usize = 0;
    while i < s.len()
        invariant
            s@.len() == t@.len(),
            i <= s@.len(),
            forall|j: int| 0 <= j < i ==> s@[j] == t@[j],
        decreases s@.len() - i,
    {
        if s[i] != t[i] {
            return false;
        }
        i = i + 1;
    }
    assert(s@ =~= t@);
    true
}

/// `p` occurs in `s` at position `i`.
pub fn matches_at(s: &[char], p: &[char], i: usize) -> (b: bool)
    ensures
        b == occurs_at(s@, p@, i as int),
{
    if i > s.len() || p.len() > s.len() - i {
        return false;
    }
    let slen = s.len();
    let mut k: usize = 0;
    while k < p.len()
        invariant
            slen == s@.len(),
            i <= s@.len(),
            i + p@.len() <= s@.len(),
            k <= p@.len(),
            forall|j: int| 0 <= j < k ==> s@[i + j] == p@[j],
        decreases p@.len() - k,
    {
        assert(i + k < s@.len());
        if s[i + k] != p[k] {
            assert(s@.subrange(i as int, i + p@.len())[k as int] != p@[k as int]);
            return false;
        }
        k = k + 1;
    }
    assert(s@.subrange(i as int, i + p@.len()) =~= p@);
    true
}

/// `s` begins with `p`.
pub fn starts_with(s: &[char], p: &[char]) -> (b: bool)
    ensures
        b == has_prefix(s@, p@),
{
    let b = matches_at(s, p, 0);
    assert(s@.subrange(0, p@.len() as int) =~= s@.take(p@.len() as int));
    b
}

/// `p` occurs somewhere in `s`.
pub fn contains_chars(s: &[char], p: &[char]) -> (b: bool)
    ensures
        b == has_infix(s@, p@),
{
    if p.len() > s.len() {
        return false;
    }
    let last = s.len() - p.len();
    let mut i: usize = 0;
    while i < last
        invariant
            i <= last,
            last == s@.len() - p@.len(),
            forall|j: int| 0 <= j < i ==> !occurs_at(s@, p@, j),
        decreases last - i,
    {
        if matches_at(s, p, i) {
            return true;
        }
        i = i + 1;
    }
    matches_at(s, p, last)
}

/// The first position of `c` in `s`.
pub fn find_char(s: &[char], c: char) -> (r: Option<usize>)
    ensures
        match r {
            Some(i) => i < s@.len() && s@[i as int] == c && forall|j: int|
                0 <= j < i ==> s@[j] != c,
            None => !s@.contains(c),
        },
{
    let mut i: usize = 0;
    while i < s.len()
        invariant
            i <= s@.len(),
            forall|j: int| 0 <= j < i ==> s@[j] != c,
        decreases s@.len() - i,
    {
        if s[i] == c {
            return Some(i);
        }
        i = i + 1;
    }
    None
}

/// The last position of `c` in `s`.
pub fn rfind_char(s: &[char], c: char) -> (r: Option<usize>)
    ensures
        match r {
            Some(i) => i < s@.len() && s@[i as int] == c && forall|j: int|
                i < j < s@.len() ==> s@[j] != c,
            None => !s@.contains(c),
        },
{
    let mut i: usize = s.len();
    while i > 0
        invariant
            i <= s@.len(),
            forall|j: int| i <= j < s@.len() ==> s@[j] != c,
        decreases i,
    {
        if s[i - 1] == c {
            return Some(i - 1);
        }
        i = i - 1;
    }
    None
}

/// `c` occurs in `s`.
pub fn has_char(s: &[char], c: char) -> (b: bool)
    ensures
        b == s@.contains(c),
{
    match find_char(s, c) {
        Some(_) => true,
        None => false,
    }
}

/// The value of the unsigned decimal text `s` when it is at most `max`.
fn parse_unsigned_bounded(s: &[char], max: u32) -> (r: Option<u32>)
    requires
        max >= 9,
    ensures
        match r {
            Some(v) => parse_unsigned(s@, max as nat) == Some(v as nat),
            None => parse_unsigned(s@, max as nat) is None,
        },
{
    let start: usize = if s.len() >= 2 && s[0] == '+' {
        1
    } else {
        0
    };
    let ghost d = s@.skip(start as int);
    assert(start == 1 ==> d =~= s@.drop_first());
    assert(start == 0 ==> d =~= s@);
    if start == s.len() {
        return None;
    }
    let mut acc: u32 = 0;
    let mut i: usize = start;
    assert(d.take(0) =~= Seq::<char>::empty());
    while i < s.len()
        invariant
            start <= i <= s@.len(),
            start < s@.len(),
            max >= 9,
            start == (if s@.len() >= 2 && s@[0] == '+' { 1usize } else { 0usize }),
            d == s@.skip(start as int),
            d == (if s@.len() >= 2 && s@[0] == '+' { s@.drop_first() } else { s@ }),
            acc <= max,
            acc as nat == decimal_value(d.take(i - start)),
            forall|j: int| 0 <= j < i - start ==> is_digit(#[trigger] d[j]),
        decreases s@.len() - i,
    {
        let cu = s[i] as u32;
        if cu < 48 || cu > 57 {
            assert(!is_digit(d[i - start]));
            assert(!all_digits(d));
            return None;
        }
        proof {
            lemma_decimal_step(d, i - start);
            assert(d[i - start] == s@[i as int]);
        }
        let dv: u32 = cu - 48;
        assert(digit_value(d[i - start]) == dv);
        if acc > (max - dv) / 10 {
            proof {
                assert(acc * 10 + dv > max) by (nonlinear_arith)
                    requires
                        acc > (max - dv) / 10,
                        dv <= max,
                ;
                lemma_decimal_prefix_le(d, i - start + 1);
            }
            return None;
        }
        proof {
            assert(acc * 10 + dv <= max) by (nonlinear_arith)
                requires
                    acc <= (max - dv) / 10,
                    dv <= max,
            ;
        }
        acc = acc * 10 + dv;
        i = i + 1;
    }
    assert(d.take(i - start) =~= d);
    Some(acc)
}

/// `str::parse::<u16>`.
pub fn parse_u16(s: &[char]) -> (r: Option<u16>)
    ensures
        r == parse_u16_spec(s@),
{
    match parse_unsigned_bounded(s, 0xffff) {
        Some(v) => Some(v as u16),
        None => None,
    }
}

/// `str::parse::<u8>`.
pub fn parse_u8(s: &[char]) -> (r: Option<u8>)
    ensures
        r == parse_u8_spec(s@),
{
    match parse_unsigned_bounded(s, 0xff) {
        Some(v) => Some(v as u8),
        None => None,
    }
}

/// `s[a..b]` as a new string.
pub fn substring(s: &str, a: usize, b: usize) -> (r: String)
    requires
        a <= b <= s@.len(),
    ensures
        r@ == s@.subrange(a as int, b as int),
{
    String::from_str(s.substring_char(a, b))
}

/// The character of the decimal digit `d`.
pub open spec fn digit_char(d: nat) -> char {
    (48 + d) as char
}

/// The decimal numeral of `n`, without leading zeros.
pub open spec fn decimal_text(n: nat) -> Seq<char>
    decreases n,
{
    if n < 10 {
        seq![digit_char(n)]
    } else {
        decimal_text(n / 10).push(digit_char(n % 10))
    }
}

/// The characters of the digits `ds`, last digit first.
pub open spec fn reversed_digits(ds: Seq<u8>) -> Seq<char> {
    Seq::new(ds.len(), |k: int| digit_char(ds[ds.len() - 1 - k] as nat))
}

/// The one-character text of the decimal digit `d`.
fn digit_str(d: u8) -> (s: &'static str)
    requires
        d < 10,
    ensures
        s@ == seq![digit_char(d as nat)],
{
    proof {
        reveal_strlit("0");
        reveal_strlit("1");
        reveal_strlit("2");
        reveal_strlit("3");
        reveal_strlit("4");
        reveal_strlit("5");
        reveal_strlit("6");
        reveal_strlit("7");
        reveal_strlit("8");
        reveal_strlit("9");
    }
    match d {
        0 => "0",
        1 => "1",
        2 => "2",
        3 => "3",
        4 => "4",
        5 => "5",
        6 => "6",
        7 => "7",
        8 => "8",
        _ => "9",
    }
}

/// The decimal numeral of `n`, as `u64::to_string` writes it.
pub fn decimal_string(n: u64) -> (s: String)
    ensures
        s@ == decimal_text(n as nat),
{
    // The digits below the leading one, least significant first.
    let mut digits: Vec<u8> = Vec::new();
    let mut m: u64 = n;
    let ghost mut suffix: Seq<char> = Seq::empty();
    while m >= 10
        invariant
            decimal_text(n as nat) == decimal_text(m as nat) + suffix,
            suffix.len() == digits@.len(),
            forall|i: int| 0 <= i < digits@.len() ==> #[trigger] digits@[i] < 10,
            suffix == reversed_digits(digits@),
        decreases m,
    {
        let d = (m % 10) as u8;
        let ghost old_suffix = suffix;
        let ghost old_digits = digits@;
        assert(decimal_text(m as nat) == decimal_text((m / 10) as nat).push(
            digit_char((m % 10) as nat),
        ));
        digits.push(d);
        proof {
            suffix = seq![digit_char(d as nat)] + old_suffix;
            assert(decimal_text((m / 10) as nat).push(digit_char(d as nat)) + old_suffix
                =~= decimal_text((m / 10) as nat) + suffix);
            assert(suffix =~= reversed_digits(digits@));
        }
        m = m / 10;
    }
    let mut s = String::from_str(digit_str(m as u8));
    let ghost head = s@;
    assert(head == decimal_text(m as nat));
    let mut j: usize = digits.len();
    assert(suffix.take(0) =~= Seq::<char>::empty());
    while j > 0
        invariant
            j <= digits@.len(),
            head == decimal_text(m as nat),
            decimal_text(n as nat) == head + suffix,
            suffix.len() == digits@.len(),
            forall|i: int| 0 <= i < digits@.len() ==> #[trigger] digits@[i] < 10,
            suffix == reversed_digits(digits@),
            s@ == head + suffix.take(digits@.len() - j),
        decreases j,
    {
        let d = digits[j - 1];
        assert(suffix[digits@.len() - j] == digit_char(d as nat));
        let ghost before = s@;
        s.append(digit_str(d));
        assert(suffix.take(digits@.len() - (j - 1)) =~= suffix.take(digits@.len() - j).push(
            digit_char(d as nat),
        ));
        assert(s@ =~= head + suffix.take(digits@.len() - (j - 1)));
        j = j - 1;
    }
    assert(suffix.take(digits@.len() as int) =~= suffix);
    s
}

} // verus!
