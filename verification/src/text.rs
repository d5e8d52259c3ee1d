//! Character-level text handling shared by the library: decimal numbers,
//! splitting, trimming, upper-casing and searching, each stated over the
//! `Seq<char>` view of a string.
use vstd::prelude::*;
use vstd::utf8::is_scalar;

verus! {

/// The characters of a string slice, in order.
pub fn chars_of(s: &str) -> (v: Vec<char>)
    ensures
        v@ == s@,
{
    let mut v: Vec<char> = Vec::new();
    for c in it: s.chars()
        invariant
            v@ == it.seq().take(it.index() as int),
            it.seq() == s@,
    {
        v.push(c);
    }
    v
}

/// Appends one character to a string (`String::push`).
#[verifier::external_body]
pub(crate) fn push_char(s: &mut String, c: char)
    ensures
        final(s)@ == old(s)@.push(c),
{
    s.push(c);
}

/// Appends the characters `v[from..to]` to `out`.
pub fn push_chars(out: &mut String, v: &Vec<char>, from: usize, to: usize)
    requires
        from <= to <= v@.len(),
    ensures
        final(out)@ == old(out)@ + v@.subrange(from as int, to as int),
{
    let mut i = from;
    while i < to
        invariant
            from <= i <= to <= v@.len(),
            out@ == old(out)@ + v@.subrange(from as int, i as int),
        decreases to - i,
    {
        push_char(out, v[i]);
        assert(v@.subrange(from as int, i + 1) =~= v@.subrange(from as int, i as int).push(v@[i as int]));
        i += 1;
    }
}

/// A string holding exactly the characters `v[from..to]`.
pub fn string_of(v: &Vec<char>, from: usize, to: usize) -> (s: String)
    requires
        from <= to <= v@.len(),
    ensures
        s@ == v@.subrange(from as int, to as int),
{
    let mut s = String::new();
    push_chars(&mut s, v, from, to);
    s
}

// ---------------------------------------------------------------------------
// Decimal numbers

/// The ASCII digit for `d` (`d < 10`).
pub open spec fn digit_char(d: nat) -> char {
    ((d + 48) as u32) as char
}

/// `c` is one of `'0'..='9'`.
pub open spec fn is_ascii_digit(c: char) -> bool {
    '0' <= c <= '9'
}

/// The value of an ASCII digit.
pub open spec fn digit_value(c: char) -> nat {
    ((c as u32) - 48) as nat
}

/// The shortest decimal representation of `n`, as `Display` writes it.
pub open spec fn decimal(n: nat) -> Seq<char>
    decreases n,
{
    if n < 10 {
        seq![digit_char(n)]
    } else {
        decimal(n / 10).push(digit_char(n % 10))
    }
}

/// The number written by a sequence of decimal digits (0 for the empty sequence).
pub open spec fn digits_value(s: Seq<char>) -> nat
    decreases s.len(),
{
    if s.len() == 0 {
        0
    } else {
        digits_value(s.drop_last()) * 10 + digit_value(s.last())
    }
}

/// Every character of `s` is an ASCII digit.
pub open spec fn all_digits(s: Seq<char>) -> bool {
    forall|i: int| 0 <= i < s.len() ==> #[trigger] is_ascii_digit(s[i])
}

/// What `str::parse::<u64>` gives: an optional `+`, then at least one
/// decimal digit, and a value that fits in 64 bits.
pub open spec fn parse_u64_spec(s: Seq<char>) -> Option<u64> {
    let d = if s.len() > 0 && s[0] == '+' { s.drop_first() } else { s };
    if d.len() > 0 && all_digits(d) && digits_value(d) <= u64::MAX {
        Some(digits_value(d) as u64)
    } else {
        None
    }
}

/// Appends the decimal representation of `n` to `out`.
pub fn push_decimal(out: &mut String, n: u64)
    ensures
        final(out)@ == old(out)@ + decimal(n as nat),
    decreases n,
{
    if n >= 10 {
        push_decimal(out, n / 10);
    }
    let d = n % 10;
    let c = char_of_digit(d);
    push_char(out, c);
    proof {
        if n >= 10 {
            assert(decimal(n as nat) == decimal((n / 10) as nat).push(digit_char((n % 10) as nat)));
        }
    }
}

fn char_of_digit(d: u64) -> (c: char)
    requires
        d < 10,
    ensures
        c == digit_char(d as nat),
{
    if d == 0 { '0' }
    else if d == 1 { '1' }
    else if d == 2 { '2' }
    else if d == 3 { '3' }
    else if d == 4 { '4' }
    else if d == 5 { '5' }
    else if d == 6 { '6' }
    else if d == 7 { '7' }
    else if d == 8 { '8' }
    else { '9' }
}

/// The decimal representation of `n`.
pub fn decimal_string(n: u64) -> (s: String)
    ensures
        s@ == decimal(n as nat),
{
    let mut s = String::new();
    push_decimal(&mut s, n);
    s
}

proof fn lemma_digits_value_prefix_le(s: Seq<char>, k: int)
    requires
        0 <= k <= s.len(),
    ensures
        digits_value(s.take(k)) <= digits_value(s),
    decreases s.len(),
{
    if k < s.len() {
        assert(s.drop_last().take(k) =~= s.take(k));
        lemma_digits_value_prefix_le(s.drop_last(), k);
    } else {
        assert(s.take(k) =~= s);
    }
}

proof fn lemma_digit_char(d: nat)
    requires
        d < 10,
    ensures
        digit_value(digit_char(d)) == d,
        is_ascii_digit(digit_char(d)),
{
    let u = (d + 48) as u32;
    assert(is_scalar(u));
    assert((u as char) as u32 == u);
}

/// The decimal representation is a non-empty run of digits whose value is the number.
pub proof fn lemma_decimal_digits(n: nat)
    ensures
        decimal(n).len() > 0,
        all_digits(decimal(n)),
        digits_value(decimal(n)) == n,
    decreases n,
{
    lemma_digit_char(n % 10);
    if n < 10 {
        lemma_digit_char(n);
        let s = seq![digit_char(n)];
        assert(s.drop_last() =~= Seq::<char>::empty());
        assert(digits_value(s) == digits_value(s.drop_last()) * 10 + digit_value(s.last()));
    }
    if n >= 10 {
        lemma_decimal_digits(n / 10);
        let s = decimal(n);
        assert(s.drop_last() =~= decimal(n / 10));
        assert(s.last() == digit_char(n % 10));
        assert((n / 10) * 10 + n % 10 == n) by (nonlinear_arith);
        assert(digits_value(s) == digits_value(s.drop_last()) * 10 + digit_value(s.last()));
        assert forall|i: int| 0 <= i < s.len() implies #[trigger] is_ascii_digit(s[i]) by {
            if i < s.len() - 1 {
                assert(s[i] == decimal(n / 10)[i]);
            }
        }
    }
}

/// Parsing the decimal representation of a number gives the number back.
pub proof fn lemma_parse_decimal(n: u64)
    ensures
        parse_u64_spec(decimal(n as nat)) == Some(n),
{
    lemma_decimal_digits(n as nat);
    assert(is_ascii_digit(decimal(n as nat)[0]));
}

/// A run of digits holds no character that is not a digit.
pub proof fn lemma_digits_exclude(s: Seq<char>, c: char)
    requires
        all_digits(s),
        !is_ascii_digit(c),
    ensures
        !s.contains(c),
{
    if s.contains(c) {
        let i = choose|i: int| 0 <= i < s.len() && s[i] == c;
        assert(is_ascii_digit(s[i]));
    }
}

/// The decimal parse of `v[from..to]` as `str::parse::<u64>` does it.
pub fn parse_u64(v: &Vec<char>, from: usize, to: usize) -> (r: Option<u64>)
    requires
        from <= to <= v@.len(),
    ensures
        r == parse_u64_spec(v@.subrange(from as int, to as int)),
{
    let ghost s = v@.subrange(from as int, to as int);
    let mut start = from;
    if from < to && v[from] == '+' {
        start = from + 1;
    }
    let ghost d = v@.subrange(start as int, to as int);
    assert(d =~= (if s.len() > 0 && s[0] == '+' { s.drop_first() } else { s }));
    if start == to {
        return None;
    }
    let mut acc: u64 = 0;
    let mut i = start;
    while i < to
        invariant
            from <= start < to <= v@.len(),
            start <= i <= to,
            d == v@.subrange(start as int, to as int),
            s == v@.subrange(from as int, to as int),
            d == (if s.len() > 0 && s[0] == '+' { s.drop_first() } else { s }),
            acc as nat == digits_value(d.take(i - start)),
            all_digits(d.take(i - start)),
        decreases to - i,
    {
        let c = v[i];
        assert(d.take(i - start + 1).drop_last() =~= d.take(i - start));
        assert(d.take(i - start + 1).last() == c);
        if !('0' <= c && c <= '9') {
            assert(!is_ascii_digit(d[i - start]));
            return None;
        }
        let dv = (c as u32 - 48) as u64;
        if acc > (u64::MAX - dv) / 10 {
            proof {
                assert(acc * 10 + dv > u64::MAX) by (nonlinear_arith)
                    requires acc > (u64::MAX - dv) / 10, dv <= 9;
                lemma_digits_value_prefix_le(d, i - start + 1);
            }
            return None;
        }
        assert(acc * 10 + dv <= u64::MAX) by (nonlinear_arith)
            requires acc <= (u64::MAX - dv) / 10, dv <= 9;
        acc = acc * 10 + dv;
        assert(all_digits(d.take(i - start + 1))) by {
            assert forall|j: int| 0 <= j < i - start + 1 implies #[trigger] is_ascii_digit(d.take(i - start + 1)[j]) by {
                if j < i - start {
                    assert(d.take(i - start + 1)[j] == d.take(i - start)[j]);
                }
            }
        }
        i += 1;
    }
    assert(d.take(to - start) =~= d);
    Some(acc)
}


// ---------------------------------------------------------------------------
// Splitting at a separator

/// `s.splitn(2, c)` when it yields two parts: the text before the first `c`
/// and the text after it; `None` when `c` does not occur.
pub open spec fn split_once(s: Seq<char>, c: char) -> Option<(Seq<char>, Seq<char>)>
    decreases s.len(),
{
    if s.len() == 0 {
        None
    } else if s[0] == c {
        Some((Seq::<char>::empty(), s.drop_first()))
    } else {
        match split_once(s.drop_first(), c) {
            Some((a, b)) => Some((seq![s[0]] + a, b)),
            None => None,
        }
    }
}

/// `split_once` in terms of the first position of the separator.
pub proof fn lemma_split_once_at(s: Seq<char>, c: char, i: int)
    requires
        0 <= i < s.len(),
        s[i] == c,
        forall|j: int| 0 <= j < i ==> s[j] != c,
    ensures
        split_once(s, c) == Some((s.take(i), s.skip(i + 1))),
    decreases s.len(),
{
    if i == 0 {
        assert(s.take(0) =~= Seq::<char>::empty());
        assert(s.skip(1) =~= s.drop_first());
    } else {
        let t = s.drop_first();
        assert forall|j: int| 0 <= j < i - 1 implies t[j] != c by {
            assert(t[j] == s[j + 1]);
        }
        lemma_split_once_at(t, c, i - 1);
        assert(seq![s[0]] + t.take(i - 1) =~= s.take(i));
        assert(t.skip(i) =~= s.skip(i + 1));
    }
}

/// `split_once` is `None` exactly when the separator does not occur.
pub proof fn lemma_split_once_none(s: Seq<char>, c: char)
    requires
        forall|j: int| 0 <= j < s.len() ==> s[j] != c,
    ensures
        split_once(s, c) is None,
    decreases s.len(),
{
    if s.len() > 0 {
        let t = s.drop_first();
        assert forall|j: int| 0 <= j < t.len() implies t[j] != c by {
            assert(t[j] == s[j + 1]);
        }
        lemma_split_once_none(t, c);
    }
}

/// The first index in `v[from..to]` holding `c`.
pub fn find_char(v: &Vec<char>, from: usize, to: usize, c: char) -> (r: Option<usize>)
    requires
        from <= to <= v@.len(),
    ensures
        match r {
            Some(i) => from <= i < to && v@[i as int] == c && forall|j: int| from <= j < i ==> v@[j] != c,
            None => forall|j: int| from <= j < to ==> v@[j] != c,
        },
{
    let mut i = from;
    while i < to
        invariant
            from <= i <= to <= v@.len(),
            forall|j: int| from <= j < i ==> v@[j] != c,
        decreases to - i,
    {
        if v[i] == c {
            return Some(i);
        }
        i += 1;
    }
    None
}

/// Splits `v[from..to]` at the first `c`: the end of the first part and the
/// start of the second.
pub fn split_once_at(v: &Vec<char>, from: usize, to: usize, c: char) -> (r: Option<(usize, usize)>)
    requires
        from <= to <= v@.len(),
    ensures
        match split_once(v@.subrange(from as int, to as int), c) {
            Some((a, b)) => r matches Some((e, s)) && from <= e && e + 1 == s && s <= to
                && a == v@.subrange(from as int, e as int) && b == v@.subrange(s as int, to as int),
            None => r is None,
        },
{
    let ghost t = v@.subrange(from as int, to as int);
    match find_char(v, from, to, c) {
        Some(i) => {
            proof {
                assert forall|j: int| 0 <= j < i - from implies t[j] != c by {
                    assert(t[j] == v@[from + j]);
                }
                lemma_split_once_at(t, c, i - from);
                assert(t.take(i - from) =~= v@.subrange(from as int, i as int));
                assert(t.skip(i - from + 1) =~= v@.subrange(i + 1, to as int));
            }
            Some((i, i + 1))
        },
        None => {
            proof {
                assert forall|j: int| 0 <= j < t.len() implies t[j] != c by {
                    assert(t[j] == v@[from + j]);
                }
                lemma_split_once_none(t, c);
            }
            None
        },
    }
}

// ---------------------------------------------------------------------------
// Whitespace and trimming

/// `char::is_whitespace`: the Unicode `White_Space` property.
pub open spec fn is_whitespace(c: char) -> bool {
    ||| '\u{9}' <= c <= '\u{d}'
    ||| c == ' '
    ||| c == '\u{85}'
    ||| c == '\u{a0}'
    ||| c == '\u{1680}'
    ||| '\u{2000}' <= c <= '\u{200a}'
    ||| c == '\u{2028}'
    ||| c == '\u{2029}'
    ||| c == '\u{202f}'
    ||| c == '\u{205f}'
    ||| c == '\u{3000}'
}

/// Executable `is_whitespace`.
pub fn whitespace(c: char) -> (b: bool)
    ensures
        b == is_whitespace(c),
{
    ('\u{9}' <= c && c <= '\u{d}') || c == ' ' || c == '\u{85}' || c == '\u{a0}' || c == '\u{1680}'
        || ('\u{2000}' <= c && c <= '\u{200a}') || c == '\u{2028}' || c == '\u{2029}'
        || c == '\u{202f}' || c == '\u{205f}' || c == '\u{3000}'
}

/// `str::trim_start`.
pub open spec fn trim_start(s: Seq<char>) -> Seq<char>
    decreases s.len(),
{
    if s.len() > 0 && is_whitespace(s[0]) {
        trim_start(s.drop_first())
    } else {
        s
    }
}

/// `str::trim_end`.
pub open spec fn trim_end(s: Seq<char>) -> Seq<char>
    decreases s.len(),
{
    if s.len() > 0 && is_whitespace(s.last()) {
        trim_end(s.drop_last())
    } else {
        s
    }
}

/// `str::trim`: whitespace removed from both ends.
pub open spec fn trim(s: Seq<char>) -> Seq<char> {
    trim_end(trim_start(s))
}

proof fn lemma_trim_start_at(s: Seq<char>, k: int)
    requires
        0 <= k <= s.len(),
        forall|j: int| 0 <= j < k ==> is_whitespace(#[trigger] s[j]),
        k == s.len() || !is_whitespace(s[k]),
    ensures
        trim_start(s) == s.skip(k),
    decreases s.len(),
{
    if k == 0 {
        assert(s.skip(0) =~= s);
    } else {
        let t = s.drop_first();
        assert forall|j: int| 0 <= j < k - 1 implies is_whitespace(#[trigger] t[j]) by {
            assert(t[j] == s[j + 1]);
        }
        lemma_trim_start_at(t, k - 1);
        assert(t.skip(k - 1) =~= s.skip(k));
    }
}

proof fn lemma_trim_end_at(s: Seq<char>, k: int)
    requires
        0 <= k <= s.len(),
        forall|j: int| k <= j < s.len() ==> is_whitespace(#[trigger] s[j]),
        k == 0 || !is_whitespace(s[k - 1]),
    ensures
        trim_end(s) == s.take(k),
    decreases s.len(),
{
    if k == s.len() {
        assert(s.take(k) =~= s);
    } else {
        let t = s.drop_last();
        lemma_trim_end_at(t, k);
        assert(t.take(k) =~= s.take(k));
    }
}

/// The start of `trim_start(v[from..to])` within `v`.
pub fn trim_start_index(v: &Vec<char>, from: usize, to: usize) -> (lo: usize)
    requires
        from <= to <= v@.len(),
    ensures
        from <= lo <= to,
        trim_start(v@.subrange(from as int, to as int)) == v@.subrange(lo as int, to as int),
{
    let ghost t = v@.subrange(from as int, to as int);
    let mut lo = from;
    while lo < to && whitespace(v[lo])
        invariant
            from <= lo <= to <= v@.len(),
            forall|j: int| from <= j < lo ==> is_whitespace(#[trigger] v@[j]),
        decreases to - lo,
    {
        lo += 1;
    }
    proof {
        assert forall|j: int| 0 <= j < lo - from implies is_whitespace(#[trigger] t[j]) by {
            assert(t[j] == v@[from + j]);
        }
        lemma_trim_start_at(t, lo - from);
        assert(t.skip(lo - from) =~= v@.subrange(lo as int, to as int));
    }
    lo
}

/// The bounds of `trim(v[from..to])` within `v`.
pub fn trim_bounds(v: &Vec<char>, from: usize, to: usize) -> (r: (usize, usize))
    requires
        from <= to <= v@.len(),
    ensures
        from <= r.0 <= r.1 <= to,
        trim(v@.subrange(from as int, to as int)) == v@.subrange(r.0 as int, r.1 as int),
{
    let ghost t = v@.subrange(from as int, to as int);
    let mut lo = from;
    while lo < to && whitespace(v[lo])
        invariant
            from <= lo <= to <= v@.len(),
            forall|j: int| from <= j < lo ==> is_whitespace(#[trigger] v@[j]),
        decreases to - lo,
    {
        lo += 1;
    }
    proof {
        assert forall|j: int| 0 <= j < lo - from implies is_whitespace(#[trigger] t[j]) by {
            assert(t[j] == v@[from + j]);
        }
        lemma_trim_start_at(t, lo - from);
        assert(t.skip(lo - from) =~= v@.subrange(lo as int, to as int));
    }
    let ghost u = v@.subrange(lo as int, to as int);
    let mut hi = to;
    while hi > lo && whitespace(v[hi - 1])
        invariant
            lo <= hi <= to <= v@.len(),
            forall|j: int| hi <= j < to ==> is_whitespace(#[trigger] v@[j]),
        decreases hi - lo,
    {
        hi -= 1;
    }
    proof {
        assert forall|j: int| hi - lo <= j < u.len() implies is_whitespace(#[trigger] u[j]) by {
            assert(u[j] == v@[lo + j]);
        }
        lemma_trim_end_at(u, hi - lo);
        assert(u.take(hi - lo) =~= v@.subrange(lo as int, hi as int));
    }
    (lo, hi)
}

// ---------------------------------------------------------------------------
// Upper case

/// What `char::to_uppercase` yields for `c`: Unicode's full upper-case mapping.
pub uninterp spec fn uppercase_of(c: char) -> Seq<char>;

/// `char::to_uppercase`, collected. Its contract: the result is `uppercase_of(c)`,
/// one to three characters long; for ASCII it is `to_ascii_uppercase`. The
/// mapping outside ASCII (Unicode's tables) is left unstated.
#[verifier::external_body]
fn char_uppercase(c: char) -> (r: Vec<char>)
    ensures
        r@ == uppercase_of(c),
        1 <= r@.len() <= 3,
        'a' <= c <= 'z' ==> r@ == seq![((c as u32) - 32) as char],
        (c as u32) < 128 && !('a' <= c <= 'z') ==> r@ == seq![c],
{
    c.to_uppercase().collect()
}

/// ASCII upper case of `c`: `'a'..='z'` shifted to `'A'..='Z'`, anything else as it is.
pub open spec fn ascii_upper(c: char) -> char {
    if 'a' <= c <= 'z' { ((c as u32) - 32) as char } else { c }
}

/// The upper-case mapping of one character: the ASCII one for ASCII
/// characters, Unicode's (`uppercase_of`) for the others.
pub open spec fn upper_char(c: char) -> Seq<char> {
    if (c as u32) < 128 { seq![ascii_upper(c)] } else { uppercase_of(c) }
}

/// `str::to_uppercase`: each character replaced by its upper-case mapping.
pub open spec fn upper(s: Seq<char>) -> Seq<char>
    decreases s.len(),
{
    if s.len() == 0 {
        Seq::<char>::empty()
    } else {
        upper(s.drop_last()) + upper_char(s.last())
    }
}

/// Text made of ASCII characters only.
pub open spec fn is_ascii_text(s: Seq<char>) -> bool {
    forall|i: int| 0 <= i < s.len() ==> (s[i] as u32) < 128
}

/// Upper-casing ASCII text maps it character by character to its ASCII upper case.
pub proof fn lemma_upper_ascii(s: Seq<char>)
    requires
        is_ascii_text(s),
    ensures
        upper(s) == s.map_values(|c: char| ascii_upper(c)),
    decreases s.len(),
{
    if s.len() > 0 {
        lemma_upper_ascii(s.drop_last());
        assert(upper(s) =~= s.map_values(|c: char| ascii_upper(c)));
    } else {
        assert(upper(s) =~= s.map_values(|c: char| ascii_upper(c)));
    }
}

/// `upper(v[from..to])`.
pub fn upper_chars(v: &Vec<char>, from: usize, to: usize) -> (r: Vec<char>)
    requires
        from <= to <= v@.len(),
    ensures
        r@ == upper(v@.subrange(from as int, to as int)),
{
    let mut r: Vec<char> = Vec::new();
    let mut i = from;
    while i < to
        invariant
            from <= i <= to <= v@.len(),
            r@ == upper(v@.subrange(from as int, i as int)),
        decreases to - i,
    {
        let u = char_uppercase(v[i]);
        assert(u@ == upper_char(v@[i as int]));
        let mut k: usize = 0;
        let ghost r0 = r@;
        while k < u.len()
            invariant
                k <= u@.len(),
                r@ == r0 + u@.take(k as int),
            decreases u@.len() - k,
        {
            r.push(u[k]);
            assert(u@.take(k + 1) =~= u@.take(k as int).push(u@[k as int]));
            k += 1;
        }
        proof {
            let s1 = v@.subrange(from as int, i + 1);
            assert(s1.drop_last() =~= v@.subrange(from as int, i as int));
            assert(u@.take(u@.len() as int) =~= u@);
        }
        i += 1;
    }
    r
}

// ---------------------------------------------------------------------------
// Searching

/// `p` occurs in `s` starting at position `k`.
pub open spec fn occurs_at(s: Seq<char>, p: Seq<char>, k: int) -> bool {
    0 <= k && k + p.len() <= s.len() && s.subrange(k, k + p.len()) == p
}

/// `s` begins with `p`.
pub open spec fn starts_with(s: Seq<char>, p: Seq<char>) -> bool {
    occurs_at(s, p, 0)
}

/// Position of the first occurrence of `p` in `s` (`str::find`, counted in characters).
pub open spec fn find_first(s: Seq<char>, p: Seq<char>) -> Option<int>
    decreases s.len(),
{
    if s.len() < p.len() {
        None
    } else if occurs_at(s, p, 0) {
        Some(0)
    } else if s.len() == 0 {
        None
    } else {
        match find_first(s.drop_first(), p) {
            Some(k) => Some(k + 1),
            None => None,
        }
    }
}

/// Position of the last occurrence of `p` in `s` (`str::rfind`, counted in characters).
pub open spec fn find_last(s: Seq<char>, p: Seq<char>) -> Option<int>
    decreases s.len(),
{
    if s.len() < p.len() {
        None
    } else if occurs_at(s, p, s.len() - p.len()) {
        Some(s.len() - p.len())
    } else if s.len() == 0 {
        None
    } else {
        find_last(s.drop_last(), p)
    }
}

proof fn lemma_occurs_drop_first(s: Seq<char>, p: Seq<char>, k: int)
    requires
        s.len() > 0,
        0 <= k,
    ensures
        occurs_at(s.drop_first(), p, k) == occurs_at(s, p, k + 1),
{
    if 0 <= k && k + p.len() <= s.len() - 1 {
        assert(s.drop_first().subrange(k, k + p.len()) =~= s.subrange(k + 1, k + 1 + p.len()));
    }
}

proof fn lemma_occurs_drop_last(s: Seq<char>, p: Seq<char>, k: int)
    requires
        s.len() > 0,
        k + p.len() <= s.len() - 1,
    ensures
        occurs_at(s.drop_last(), p, k) == occurs_at(s, p, k),
{
    if 0 <= k {
        assert(s.drop_last().subrange(k, k + p.len()) =~= s.subrange(k, k + p.len()));
    }
}

/// `find_first` is the least position where `p` occurs.
pub proof fn lemma_find_first(s: Seq<char>, p: Seq<char>)
    ensures
        match find_first(s, p) {
            Some(k) => occurs_at(s, p, k) && forall|j: int| 0 <= j < k ==> !occurs_at(s, p, j),
            None => forall|j: int| !occurs_at(s, p, j),
        },
    decreases s.len(),
{
    if p.len() == 0 {
        assert(s.subrange(0, 0) =~= p);
    }
    if s.len() < p.len() {
    } else if occurs_at(s, p, 0) {
    } else {
        let t = s.drop_first();
        lemma_find_first(t, p);
        assert forall|j: int| #![trigger occurs_at(t, p, j)] 0 <= j implies occurs_at(t, p, j) == occurs_at(s, p, j + 1) by {
            lemma_occurs_drop_first(s, p, j);
        }
        match find_first(t, p) {
            Some(k) => {
                assert forall|j: int| 0 <= j < k + 1 implies !occurs_at(s, p, j) by {
                    if j > 0 {
                        assert(occurs_at(t, p, j - 1) == occurs_at(s, p, j));
                    }
                }
            },
            None => {
                assert forall|j: int| !occurs_at(s, p, j) by {
                    if j > 0 {
                        assert(occurs_at(t, p, j - 1) == occurs_at(s, p, j));
                    }
                }
            },
        }
    }
}

/// `find_last` is the greatest position where `p` occurs.
pub proof fn lemma_find_last(s: Seq<char>, p: Seq<char>)
    ensures
        match find_last(s, p) {
            Some(k) => occurs_at(s, p, k) && forall|j: int| k < j ==> !occurs_at(s, p, j),
            None => forall|j: int| !occurs_at(s, p, j),
        },
    decreases s.len(),
{
    if p.len() == 0 {
        assert(s.subrange(s.len() as int, s.len() as int) =~= p);
    }
    if s.len() < p.len() {
    } else if occurs_at(s, p, s.len() - p.len()) {
    } else {
        let t = s.drop_last();
        lemma_find_last(t, p);
        assert forall|j: int| j + p.len() <= s.len() - 1 implies occurs_at(t, p, j) == occurs_at(s, p, j) by {
            lemma_occurs_drop_last(s, p, j);
        }
    }
}

/// Equality of `v[from..from + p.len()]` with `p`, when it fits.
pub fn occurs_at_exec(v: &Vec<char>, p: &Vec<char>, k: usize) -> (b: bool)
    ensures
        b == occurs_at(v@, p@, k as int),
{
    let vl = v.len();
    if k > vl || p.len() > vl - k {
        return false;
    }
    let mut i: usize = 0;
    while i < p.len()
        invariant
            vl == v@.len(),
            k + p@.len() <= v@.len(),
            k <= v@.len(),
            i <= p@.len(),
            forall|j: int| 0 <= j < i ==> v@[k + j] == p@[j],
        decreases p@.len() - i,
    {
        let vk = v[k + i];
        if vk != p[i] {
            assert(v@.subrange(k as int, k + p@.len())[i as int] != p@[i as int]);
            return false;
        }
        i += 1;
    }
    assert(v@.subrange(k as int, k + p@.len()) =~= p@);
    true
}

/// `str::find` on `v`, counted in characters.
pub fn find_first_exec(v: &Vec<char>, p: &Vec<char>) -> (r: Option<usize>)
    ensures
        r == (match find_first(v@, p@) { Some(k) => Some(k as usize), None => None::<usize> }),
{
    proof { lemma_find_first(v@, p@); }
    if p.len() > v.len() {
        return None;
    }
    let last = v.len() - p.len();
    let mut k: usize = 0;
    loop
        invariant
            p@.len() <= v@.len(),
            last == v@.len() - p@.len(),
            k <= last,
            forall|j: int| 0 <= j < k ==> !occurs_at(v@, p@, j),
            match find_first(v@, p@) {
                Some(k) => occurs_at(v@, p@, k) && forall|j: int| 0 <= j < k ==> !occurs_at(v@, p@, j),
                None => forall|j: int| !occurs_at(v@, p@, j),
            },
        decreases last - k,
    {
        if occurs_at_exec(v, p, k) {
            return Some(k);
        }
        if k == last {
            proof {
                assert forall|j: int| !occurs_at(v@, p@, j) by {
                    if 0 <= j && j < k {
                    }
                }
            }
            return None;
        }
        k += 1;
    }
}

/// `str::rfind` on `v`, counted in characters.
pub fn find_last_exec(v: &Vec<char>, p: &Vec<char>) -> (r: Option<usize>)
    ensures
        r == (match find_last(v@, p@) { Some(k) => Some(k as usize), None => None::<usize> }),
{
    proof { lemma_find_last(v@, p@); }
    if p.len() > v.len() {
        return None;
    }
    let mut k: usize = v.len() - p.len();
    loop
        invariant
            p@.len() <= v@.len(),
            k <= v@.len() - p@.len(),
            forall|j: int| k < j ==> !occurs_at(v@, p@, j),
            match find_last(v@, p@) {
                Some(k) => occurs_at(v@, p@, k) && forall|j: int| k < j ==> !occurs_at(v@, p@, j),
                None => forall|j: int| !occurs_at(v@, p@, j),
            },
        decreases k,
    {
        if occurs_at_exec(v, p, k) {
            return Some(k);
        }
        if k == 0 {
            proof {
                assert forall|j: int| !occurs_at(v@, p@, j) by {
                    if 0 <= j && j <= k {
                    }
                }
            }
            return None;
        }
        k -= 1;
    }
}

// ---------------------------------------------------------------------------
// Joining and comparing

/// The views of a sequence of strings.
pub open spec fn views(v: Seq<String>) -> Seq<Seq<char>> {
    Seq::new(v.len(), |i: int| v[i]@)
}

/// `parts` joined with `sep` between each two (`[String]::join`).
pub open spec fn join(parts: Seq<Seq<char>>, sep: Seq<char>) -> Seq<char>
    decreases parts.len(),
{
    if parts.len() == 0 {
        Seq::<char>::empty()
    } else if parts.len() == 1 {
        parts[0]
    } else {
        join(parts.drop_last(), sep) + sep + parts.last()
    }
}

/// `parts.join(sep)`.
pub fn join_strings(parts: &Vec<String>, sep: &str) -> (r: String)
    ensures
        r@ == join(views(parts@), sep@),
{
    let mut r = String::new();
    let n = parts.len();
    let mut i: usize = 0;
    while i < n
        invariant
            n == parts@.len(),
            i <= n,
            r@ == join(views(parts@).take(i as int), sep@),
        decreases n - i,
    {
        proof {
            let t = views(parts@).take(i + 1);
            assert(t.drop_last() =~= views(parts@).take(i as int));
            assert(t.last() == parts@[i as int]@);
            if i == 0 {
                assert(views(parts@).take(0) =~= Seq::<Seq<char>>::empty());
            }
        }
        if i > 0 {
            r.append(sep);
        }
        r.append(parts[i].as_str());
        i += 1;
    }
    assert(views(parts@).take(n as int) =~= views(parts@));
    r
}

/// Whether two strings hold the same characters.
pub fn same_text(a: &str, b: &str) -> (r: bool)
    ensures
        r == (a@ == b@),
{
    let x = chars_of(a);
    let y = chars_of(b);
    if x.len() != y.len() {
        return false;
    }
    let mut i: usize = 0;
    while i < x.len()
        invariant
            x@ == a@,
            y@ == b@,
            x@.len() == y@.len(),
            i <= x@.len(),
            forall|j: int| 0 <= j < i ==> x@[j] == y@[j],
        decreases x@.len() - i,
    {
        if x[i] != y[i] {
            return false;
        }
        i += 1;
    }
    assert(x@ =~= y@);
    true
}

/// `char::to_ascii_lowercase`.
pub open spec fn ascii_lower(c: char) -> char {
    if 'A' <= c <= 'Z' { ((c as u32) + 32) as char } else { c }
}

/// `str::eq_ignore_ascii_case`.
pub open spec fn eq_ignore_ascii_case(a: Seq<char>, b: Seq<char>) -> bool {
    a.len() == b.len() && forall|i: int| 0 <= i < a.len() ==> ascii_lower(#[trigger] a[i]) == ascii_lower(b[i])
}

fn lower_char(c: char) -> (r: char)
    ensures
        r == ascii_lower(c),
{
    if 'A' <= c && c <= 'Z' {
        let b = (c as u8) + 32;
        b as char
    } else {
        c
    }
}

/// Whether `a` and `b` are equal ignoring ASCII case.
pub fn same_text_ignoring_ascii_case(a: &str, b: &str) -> (r: bool)
    ensures
        r == eq_ignore_ascii_case(a@, b@),
{
    let x = chars_of(a);
    let y = chars_of(b);
    if x.len() != y.len() {
        return false;
    }
    let mut i: usize = 0;
    while i < x.len()
        invariant
            x@ == a@,
            y@ == b@,
            x@.len() == y@.len(),
            i <= x@.len(),
            forall|j: int| 0 <= j < i ==> ascii_lower(#[trigger] x@[j]) == ascii_lower(y@[j]),
        decreases x@.len() - i,
    {
        if lower_char(x[i]) != lower_char(y[i]) {
            return false;
        }
        i += 1;
    }
    true
}

/// Whether `p` occurs in `s` (`str::contains`).
pub fn contains_text(s: &str, p: &str) -> (r: bool)
    ensures
        r == (find_first(s@, p@) is Some),
{
    let v = chars_of(s);
    let w = chars_of(p);
    find_first_exec(&v, &w).is_some()
}

// ---------------------------------------------------------------------------
// Byte offsets

/// The number of bytes of `c` in UTF-8.
pub open spec fn char_width(c: char) -> nat {
    if (c as u32) < 0x80 {
        1
    } else if (c as u32) < 0x800 {
        2
    } else if (c as u32) < 0x10000 {
        3
    } else {
        4
    }
}

/// The number of bytes of `s` in UTF-8.
pub open spec fn byte_len(s: Seq<char>) -> nat
    decreases s.len(),
{
    if s.len() == 0 {
        0
    } else {
        byte_len(s.drop_last()) + char_width(s.last())
    }
}

/// The character position at byte offset `b` of `s`: the `j` whose prefix
/// `s[..j]` takes `b` bytes; `None` when `b` is past the end or inside a
/// character (where slicing a `str` panics).
pub open spec fn boundary_index(s: Seq<char>, b: int) -> Option<int> {
    if exists|j: int| 0 <= j <= s.len() && byte_len(#[trigger] s.take(j)) == b {
        Some(choose|j: int| 0 <= j <= s.len() && byte_len(#[trigger] s.take(j)) == b)
    } else {
        None
    }
}

proof fn lemma_byte_len_step(s: Seq<char>, j: int)
    requires
        0 <= j < s.len(),
    ensures
        byte_len(s.take(j + 1)) == byte_len(s.take(j)) + char_width(s[j]),
{
    assert(s.take(j + 1).drop_last() =~= s.take(j));
}

proof fn lemma_byte_len_increasing(s: Seq<char>, i: int, j: int)
    requires
        0 <= i < j <= s.len(),
    ensures
        byte_len(s.take(i)) < byte_len(s.take(j)),
    decreases j - i,
{
    lemma_byte_len_step(s, j - 1);
    if i < j - 1 {
        lemma_byte_len_increasing(s, i, j - 1);
    }
}

/// In ASCII text every character is one byte: a prefix of `j` characters
/// takes `j` bytes, and every byte offset up to the end is a boundary.
pub proof fn lemma_ascii_bytes(s: Seq<char>)
    requires
        is_ascii_text(s),
    ensures
        forall|j: int| 0 <= j <= s.len() ==> byte_len(#[trigger] s.take(j)) == j,
        forall|b: int| 0 <= b <= s.len() ==> #[trigger] boundary_index(s, b) == Some(b),
{
    assert forall|j: int| 0 <= j <= s.len() implies byte_len(#[trigger] s.take(j)) == j by {
        lemma_ascii_prefix_bytes(s, j);
    }
    assert forall|b: int| 0 <= b <= s.len() implies #[trigger] boundary_index(s, b) == Some(b) by {
        lemma_ascii_prefix_bytes(s, b);
        assert(byte_len(s.take(b)) == b);
        let j = choose|j: int| 0 <= j <= s.len() && byte_len(#[trigger] s.take(j)) == b;
        lemma_ascii_prefix_bytes(s, j);
    }
}

proof fn lemma_ascii_prefix_bytes(s: Seq<char>, j: int)
    requires
        is_ascii_text(s),
        0 <= j <= s.len(),
    ensures
        byte_len(s.take(j)) == j,
    decreases j,
{
    if j > 0 {
        lemma_ascii_prefix_bytes(s, j - 1);
        lemma_byte_len_step(s, j - 1);
    }
}

fn char_width_exec(c: char) -> (w: u128)
    ensures
        w == char_width(c),
{
    let u = c as u32;
    if u < 0x80 {
        1
    } else if u < 0x800 {
        2
    } else if u < 0x10000 {
        3
    } else {
        4
    }
}

/// The number of bytes of `v[..k]` in UTF-8.
pub fn byte_len_exec(v: &Vec<char>, k: usize) -> (b: u128)
    requires
        k <= v@.len(),
    ensures
        b == byte_len(v@.take(k as int)),
        b <= 4 * k,
{
    let mut b: u128 = 0;
    let mut j: usize = 0;
    while j < k
        invariant
            k <= v@.len(),
            j <= k,
            b == byte_len(v@.take(j as int)),
            b <= 4 * j,
        decreases k - j,
    {
        proof { lemma_byte_len_step(v@, j as int); }
        b = b + char_width_exec(v[j]);
        j += 1;
    }
    b
}

/// The character position at byte offset `b` of `v[from..]`.
pub fn boundary_index_exec(v: &Vec<char>, from: usize, b: u128) -> (r: Option<usize>)
    requires
        from <= v@.len(),
    ensures
        r == (match boundary_index(v@.skip(from as int), b as int) {
            Some(j) => Some(j as usize),
            None => None::<usize>,
        }),
        r matches Some(j) ==> from + j <= v@.len(),
{
    let ghost s = v@.skip(from as int);
    let vl = v.len();
    let n = vl - from;
    let mut acc: u128 = 0;
    let mut j: usize = 0;
    while j < n && acc < b
        invariant
            n == s.len(),
            vl == v@.len(),
            n == vl - from,
            s == v@.skip(from as int),
            from <= v@.len(),
            j <= n,
            acc == byte_len(s.take(j as int)),
            acc <= 4 * j,
            forall|k: int| 0 <= k < j ==> byte_len(#[trigger] s.take(k)) < b,
        decreases n - j,
    {
        proof {
            lemma_byte_len_step(s, j as int);
            assert forall|k: int| 0 <= k < j + 1 implies byte_len(#[trigger] s.take(k)) < b by {
                if k < j {
                } else {
                    assert(k == j);
                }
            }
        }
        assert(from + j < v@.len());
        let w = char_width_exec(v[from + j]);
        assert(acc + w <= 4 * j + 4);
        acc = acc + w;
        assert(s[j as int] == v@[from + j]);
        j += 1;
    }
    if acc == b {
        proof {
            let w = choose|k: int| 0 <= k <= s.len() && byte_len(#[trigger] s.take(k)) == b as int;
            if w < j {
                lemma_byte_len_increasing(s, w, j as int);
            } else if w > j {
                lemma_byte_len_increasing(s, j as int, w);
            }
        }
        Some(j)
    } else {
        proof {
            assert forall|k: int| 0 <= k <= s.len() implies byte_len(#[trigger] s.take(k)) != b as int by {
                if k > j {
                    lemma_byte_len_increasing(s, j as int, k);
                }
            }
        }
        None
    }
}

} // verus!
