//! Character-level text handling shared by the wire protocol: splitting on a
//! separator, trimming whitespace, and reading and writing decimal integers,
//! all with the semantics of the corresponding `str` / `i32` operations.
use vstd::prelude::*;

verus! {

// ---------------------------------------------------------------------------
// Specifications
// ---------------------------------------------------------------------------

/// `char::is_whitespace`: the Unicode `White_Space` property.
pub open spec fn is_ws(c: char) -> bool {
    ||| ('\u{9}' <= c && c <= '\u{d}')
    ||| c == ' '
    ||| c == '\u{85}'
    ||| c == '\u{a0}'
    ||| c == '\u{1680}'
    ||| ('\u{2000}' <= c && c <= '\u{200a}')
    ||| c == '\u{2028}'
    ||| c == '\u{2029}'
    ||| c == '\u{202f}'
    ||| c == '\u{205f}'
    ||| c == '\u{3000}'
}

/// `str::trim_start`.
pub open spec fn trim_start(s: Seq<char>) -> Seq<char>
    decreases s.len(),
{
    if s.len() > 0 && is_ws(s[0]) {
        trim_start(s.drop_first())
    } else {
        s
    }
}

/// `str::trim_end`.
pub open spec fn trim_end(s: Seq<char>) -> Seq<char>
    decreases s.len(),
{
    if s.len() > 0 && is_ws(s.last()) {
        trim_end(s.drop_last())
    } else {
        s
    }
}

/// `str::trim`.
pub open spec fn trim(s: Seq<char>) -> Seq<char> {
    trim_end(trim_start(s))
}

/// The pieces of `s` between occurrences of `sep`, as `str::split(sep)` yields
/// them: one more piece than there are separators, empty pieces included.
pub open spec fn split(s: Seq<char>, sep: char) -> Seq<Seq<char>>
    decreases s.len(),
{
    if s.len() == 0 {
        seq![Seq::<char>::empty()]
    } else {
        let p = split(s.drop_last(), sep);
        if s.last() == sep {
            p.push(Seq::<char>::empty())
        } else {
            p.update(p.len() - 1, p.last().push(s.last()))
        }
    }
}

pub open spec fn is_digit(c: char) -> bool {
    '0' <= c && c <= '9'
}

pub open spec fn all_digits(s: Seq<char>) -> bool {
    forall|i: int| 0 <= i < s.len() ==> #[trigger] is_digit(s[i])
}

pub open spec fn digit_value(c: char) -> int {
    c as int - '0' as int
}

/// The number that a string of decimal digits denotes.
pub open spec fn digits_value(s: Seq<char>) -> int
    decreases s.len(),
{
    if s.len() == 0 {
        0
    } else {
        digits_value(s.drop_last()) * 10 + digit_value(s.last())
    }
}

/// The integer that `s` spells: an optional `+` or `-` followed by one or
/// more decimal digits, nothing else.
pub open spec fn parse_int(s: Seq<char>) -> Option<int> {
    if s.len() == 0 {
        None
    } else if s[0] == '-' || s[0] == '+' {
        let r = s.drop_first();
        if r.len() > 0 && all_digits(r) {
            if s[0] == '-' {
                Some(-digits_value(r))
            } else {
                Some(digits_value(r))
            }
        } else {
            None
        }
    } else if all_digits(s) {
        Some(digits_value(s))
    } else {
        None
    }
}

pub open spec fn fits_i32(v: int) -> bool {
    i32::MIN <= v <= i32::MAX
}

/// `s.parse::<i32>()`: the spelled integer, where it fits in an `i32`.
pub open spec fn parse_i32_spec(s: Seq<char>) -> Option<i32> {
    match parse_int(s) {
        Some(v) => if fits_i32(v) {
            Some(v as i32)
        } else {
            None
        },
        None => None,
    }
}

/// `s.parse::<bool>()`.
pub open spec fn parse_bool_spec(s: Seq<char>) -> Option<bool> {
    if s == seq!['t', 'r', 'u', 'e'] {
        Some(true)
    } else if s == seq!['f', 'a', 'l', 's', 'e'] {
        Some(false)
    } else {
        None
    }
}

pub open spec fn digit_char(d: nat) -> char {
    if d == 0 {
        '0'
    } else if d == 1 {
        '1'
    } else if d == 2 {
        '2'
    } else if d == 3 {
        '3'
    } else if d == 4 {
        '4'
    } else if d == 5 {
        '5'
    } else if d == 6 {
        '6'
    } else if d == 7 {
        '7'
    } else if d == 8 {
        '8'
    } else {
        '9'
    }
}

/// The decimal digits of `n`, without leading zeros.
pub open spec fn decimal(n: nat) -> Seq<char>
    decreases n,
{
    if n < 10 {
        seq![digit_char(n)]
    } else {
        decimal(n / 10).push(digit_char(n % 10))
    }
}

/// How `Display` writes an integer: a `-` for negatives, then the digits.
pub open spec fn format_int(n: int) -> Seq<char> {
    if n < 0 {
        seq!['-'] + decimal((-n) as nat)
    } else {
        decimal(n as nat)
    }
}

pub open spec fn contains_char(s: Seq<char>, c: char) -> bool {
    exists|i: int| 0 <= i < s.len() && s[i] == c
}

pub open spec fn has_no_ws(s: Seq<char>) -> bool {
    forall|i: int| 0 <= i < s.len() ==> !is_ws(#[trigger] s[i])
}

// ---------------------------------------------------------------------------
// Lemmas
// ---------------------------------------------------------------------------

pub proof fn lemma_split_len(s: Seq<char>, sep: char)
    ensures
        split(s, sep).len() >= 1,
    decreases s.len(),
{
    if s.len() > 0 {
        lemma_split_len(s.drop_last(), sep);
    }
}

/// A piece without separators splits into itself.
/// The first piece of a split begins with the text's first character when
/// that character is not the separator.
pub proof fn lemma_split_first(s: Seq<char>, sep: char)
    requires
        s.len() > 0,
        s[0] != sep,
    ensures
        split(s, sep)[0].len() >= 1,
        split(s, sep)[0][0] == s[0],
    decreases s.len(),
{
    lemma_split_len(s, sep);
    let d = s.drop_last();
    lemma_split_len(d, sep);
    if s.len() == 1 {
        assert(d.len() == 0);
        assert(split(d, sep) == seq![Seq::<char>::empty()]);
        assert(s.last() == s[0]);
    } else {
        lemma_split_first(d, sep);
        assert(d[0] == s[0]);
    }
}

pub proof fn lemma_split_no_sep(s: Seq<char>, sep: char)
    requires
        !contains_char(s, sep),
    ensures
        split(s, sep) == seq![s],
    decreases s.len(),
{
    if s.len() > 0 {
        let t = s.drop_last();
        assert(!contains_char(t, sep)) by {
            if contains_char(t, sep) {
                let i = choose|i: int| 0 <= i < t.len() && t[i] == sep;
                assert(s[i] == sep);
            }
        }
        lemma_split_no_sep(t, sep);
        assert(s.last() != sep) by {
            assert(s[s.len() - 1] == s.last());
        }
        assert(t.push(s.last()) =~= s);
        assert(split(t, sep) == seq![t]);
        assert(seq![t].update(0, t.push(s.last())) =~= seq![s]);
    } else {
        assert(s =~= Seq::<char>::empty());
    }
}

/// Splitting a concatenation joined by the separator splits each side.
pub proof fn lemma_split_join(a: Seq<char>, b: Seq<char>, sep: char)
    ensures
        split(a + seq![sep] + b, sep) == split(a, sep) + split(b, sep),
    decreases b.len(),
{
    lemma_split_len(a, sep);
    lemma_split_len(b, sep);
    if b.len() == 0 {
        let s = a + seq![sep];
        assert(s.drop_last() =~= a);
        assert(a + seq![sep] + b =~= s);
        assert(split(a, sep).push(Seq::<char>::empty()) =~= split(a, sep) + seq![
            Seq::<char>::empty(),
        ]);
    } else {
        let b1 = b.drop_last();
        let s = a + seq![sep] + b;
        assert(s.drop_last() =~= a + seq![sep] + b1);
        assert(s.last() == b.last());
        lemma_split_join(a, b1, sep);
        lemma_split_len(b1, sep);
        let pa = split(a, sep);
        let pb = split(b1, sep);
        if b.last() == sep {
            assert((pa + pb).push(Seq::<char>::empty()) =~= pa + pb.push(Seq::<char>::empty()));
        } else {
            let q = pa + pb;
            assert(q.last() == pb.last());
            assert(q.update(q.len() - 1, q.last().push(b.last())) =~= pa + pb.update(
                pb.len() - 1,
                pb.last().push(b.last()),
            ));
        }
    }
}

/// A string without whitespace is its own trim.
pub proof fn lemma_trim_no_ws(s: Seq<char>)
    requires
        has_no_ws(s),
    ensures
        trim(s) == s,
{
    if s.len() > 0 {
        assert(!is_ws(s[0]));
        assert(!is_ws(s[s.len() - 1]));
    }
}

pub proof fn lemma_decimal_shape(n: nat)
    ensures
        decimal(n).len() >= 1,
        all_digits(decimal(n)),
        digits_value(decimal(n)) == n,
        decimal(n)[0] != '-',
        decimal(n)[0] != '+',
        has_no_ws(decimal(n)),
        !contains_char(decimal(n), ' '),
    decreases n,
{
    if n < 10 {
        let d = decimal(n);
        assert(d.drop_last() =~= Seq::<char>::empty());
        assert(d.last() == digit_char(n));
        assert(digits_value(Seq::<char>::empty()) == 0);
        assert(digit_value(digit_char(n)) == n);
        assert(digits_value(d) == digits_value(d.drop_last()) * 10 + digit_value(d.last()));
        assert(digits_value(d) == n);
    } else {
        lemma_decimal_shape(n / 10);
        let p = decimal(n / 10);
        let d = decimal(n);
        assert(d == p.push(digit_char(n % 10)));
        assert(d.drop_last() =~= p);
        assert(digit_value(digit_char(n % 10)) == n % 10);
        assert(digits_value(d) == digits_value(p) * 10 + n % 10);
        assert((n / 10) * 10 + n % 10 == n);
        assert(digits_value(d) == n);
        assert(all_digits(d)) by {
            assert forall|i: int| 0 <= i < d.len() implies #[trigger] is_digit(d[i]) by {
                if i < p.len() {
                    assert(d[i] == p[i]);
                    assert(is_digit(p[i]));
                }
            }
        }
        assert(d[0] == p[0]);
    }
    let d = decimal(n);
    assert(has_no_ws(d)) by {
        assert forall|i: int| 0 <= i < d.len() implies !is_ws(#[trigger] d[i]) by {
            assert(is_digit(d[i]));
        }
    }
    assert(!contains_char(d, ' ')) by {
        if contains_char(d, ' ') {
            let i = choose|i: int| 0 <= i < d.len() && d[i] == ' ';
            assert(is_digit(d[i]));
        }
    }
}

/// Reading back a written integer gives the integer.
pub proof fn lemma_parse_format(n: int)
    ensures
        parse_int(format_int(n)) == Some(n),
        has_no_ws(format_int(n)),
        !contains_char(format_int(n), ' '),
        format_int(n).len() >= 1,
{
    if n < 0 {
        let m = (-n) as nat;
        lemma_decimal_shape(m);
        let f = format_int(n);
        assert(f[0] == '-');
        assert(f.drop_first() =~= decimal(m));
        assert(has_no_ws(f)) by {
            assert forall|i: int| 0 <= i < f.len() implies !is_ws(#[trigger] f[i]) by {
                if i > 0 {
                    assert(f[i] == decimal(m)[i - 1]);
                }
            }
        }
        assert(!contains_char(f, ' ')) by {
            if contains_char(f, ' ') {
                let i = choose|i: int| 0 <= i < f.len() && f[i] == ' ';
                assert(!is_ws(f[i]));
            }
        }
    } else {
        lemma_decimal_shape(n as nat);
    }
}

/// `i32` values survive a write followed by a read.
pub proof fn lemma_parse_format_i32(n: i32)
    ensures
        parse_i32_spec(format_int(n as int)) == Some(n),
        trim(format_int(n as int)) == format_int(n as int),
{
    lemma_parse_format(n as int);
    lemma_trim_no_ws(format_int(n as int));
}

proof fn lemma_digits_value_nonneg(s: Seq<char>)
    requires
        all_digits(s),
    ensures
        digits_value(s) >= 0,
    decreases s.len(),
{
    if s.len() > 0 {
        assert(is_digit(s[s.len() - 1]));
        assert(all_digits(s.drop_last())) by {
            assert forall|i: int| 0 <= i < s.drop_last().len() implies #[trigger] is_digit(
                s.drop_last()[i],
            ) by {
                assert(s.drop_last()[i] == s[i]);
            }
        }
        lemma_digits_value_nonneg(s.drop_last());
    }
}

// ---------------------------------------------------------------------------
// Executable operations
// ---------------------------------------------------------------------------

/// Appends one character to a `String` (`String::push`).
#[verifier::external_body]
fn string_push(s: &mut String, c: char)
    ensures
        final(s)@ == old(s)@.push(c),
{
    s.push(c);
}

/// The characters of `s`, in order.
pub fn chars_of(s: &str) -> (out: Vec<char>)
    ensures
        out@ == s@,
{
    let mut out: Vec<char> = Vec::new();
    for c in it: s.chars()
        invariant
            out@ == it.seq().take(it.index() as int),
    {
        out.push(c);
    }
    out
}

/// A `String` holding exactly the characters of `cs`.
pub fn string_of(cs: &[char]) -> (out: String)
    ensures
        out@ == cs@,
{
    let mut out = String::new();
    let mut i: usize = 0;
    while i < cs.len()
        invariant
            i <= cs@.len(),
            out@ == cs@.take(i as int),
        decreases cs@.len() - i,
    {
        string_push(&mut out, cs[i]);
        i = i + 1;
        assert(out@ =~= cs@.take(i as int));
    }
    assert(cs@.take(cs@.len() as int) =~= cs@);
    out
}

/// Appends the characters of `cs` to `s`.
pub fn push_chars(s: &mut String, cs: &[char])
    ensures
        final(s)@ == old(s)@ + cs@,
{
    let ghost start = s@;
    let mut i: usize = 0;
    while i < cs.len()
        invariant
            i <= cs@.len(),
            s@ == start + cs@.take(i as int),
        decreases cs@.len() - i,
    {
        string_push(s, cs[i]);
        i = i + 1;
        assert(s@ =~= start + cs@.take(i as int));
    }
    assert(cs@.take(cs@.len() as int) =~= cs@);
}

/// Appends the characters of `t` to `s`.
pub fn push_str(s: &mut String, t: &str)
    ensures
        final(s)@ == old(s)@ + t@,
{
    let cs = chars_of(t);
    push_chars(s, cs.as_slice());
}

/// `char::is_whitespace`.
pub fn char_is_ws(c: char) -> (b: bool)
    ensures
        b == is_ws(c),
{
    ('\u{9}' <= c && c <= '\u{d}') || c == ' ' || c == '\u{85}' || c == '\u{a0}' || c
        == '\u{1680}' || ('\u{2000}' <= c && c <= '\u{200a}') || c == '\u{2028}' || c
        == '\u{2029}' || c == '\u{202f}' || c == '\u{205f}' || c == '\u{3000}'
}

proof fn lemma_trim_start_skip(s: Seq<char>, i: int)
    requires
        0 <= i <= s.len(),
        forall|k: int| 0 <= k < i ==> is_ws(#[trigger] s[k]),
    ensures
        trim_start(s) == trim_start(s.skip(i)),
    decreases i,
{
    if i > 0 {
        assert(is_ws(s[0]));
        let t = s.drop_first();
        assert forall|k: int| 0 <= k < i - 1 implies is_ws(#[trigger] t[k]) by {
            assert(t[k] == s[k + 1]);
        }
        lemma_trim_start_skip(t, i - 1);
        assert(t.skip(i - 1) =~= s.skip(i));
    } else {
        assert(s.skip(0) =~= s);
    }
}

proof fn lemma_trim_end_take(s: Seq<char>, j: int)
    requires
        0 <= j <= s.len(),
        forall|k: int| j <= k < s.len() ==> is_ws(#[trigger] s[k]),
    ensures
        trim_end(s) == trim_end(s.take(j)),
    decreases s.len() - j,
{
    if j < s.len() {
        assert(is_ws(s[s.len() - 1]));
        let t = s.drop_last();
        assert forall|k: int| j <= k < t.len() implies is_ws(#[trigger] t[k]) by {
            assert(t[k] == s[k]);
        }
        lemma_trim_end_take(t, j);
        assert(t.take(j) =~= s.take(j));
    } else {
        assert(s.take(j) =~= s);
    }
}

/// `str::trim` on a character sequence.
pub fn trim_chars(s: &[char]) -> (out: Vec<char>)
    ensures
        out@ == trim(s@),
{
    let n = s.len();
    let mut i: usize = 0;
    while i < n && char_is_ws(s[i])
        invariant
            i <= n,
            n == s@.len(),
            forall|k: int| 0 <= k < i ==> is_ws(#[trigger] s@[k]),
        decreases n - i,
    {
        i = i + 1;
    }
    proof {
        lemma_trim_start_skip(s@, i as int);
    }
    let ghost rest = s@.skip(i as int);
    assert(trim_start(rest) == rest);
    let mut j: usize = n;
    while j > i && char_is_ws(s[j - 1])
        invariant
            i <= j <= n,
            n == s@.len(),
            forall|k: int| j <= k < n ==> is_ws(#[trigger] s@[k]),
        decreases j,
    {
        j = j - 1;
    }
    proof {
        let r = rest;
        assert forall|k: int| j - i <= k < r.len() implies is_ws(#[trigger] r[k]) by {
            assert(r[k] == s@[k + i]);
        }
        lemma_trim_end_take(r, j - i);
        let t = r.take(j - i);
        if t.len() > 0 {
            assert(t.last() == s@[j - 1]);
        }
    }
    let mut out: Vec<char> = Vec::new();
    let mut k: usize = i;
    while k < j
        invariant
            i <= k <= j <= n,
            n == s@.len(),
            out@ == s@.subrange(i as int, k as int),
        decreases j - k,
    {
        out.push(s[k]);
        k = k + 1;
        assert(out@ =~= s@.subrange(i as int, k as int));
    }
    assert(out@ =~= rest.take(j - i));
    out
}

/// `s.split(sep)`: the pieces between separators, as owned character vectors.
pub fn split_chars(s: &[char], sep: char) -> (out: Vec<Vec<char>>)
    ensures
        out@.len() == split(s@, sep).len(),
        forall|k: int| 0 <= k < out@.len() ==> #[trigger] out@[k]@ == split(s@, sep)[k],
{
    let mut done: Vec<Vec<char>> = Vec::new();
    let mut cur: Vec<char> = Vec::new();
    let mut i: usize = 0;
    while i < s.len()
        invariant
            i <= s@.len(),
            done@.len() + 1 == split(s@.take(i as int), sep).len(),
            forall|k: int|
                0 <= k < done@.len() ==> #[trigger] done@[k]@ == split(s@.take(i as int), sep)[k],
            cur@ == split(s@.take(i as int), sep).last(),
        decreases s@.len() - i,
    {
        let ghost p = split(s@.take(i as int), sep);
        proof {
            lemma_split_len(s@.take(i as int), sep);
            assert(s@.take(i + 1).drop_last() =~= s@.take(i as int));
            assert(s@.take(i + 1).last() == s@[i as int]);
        }
        let c = s[i];
        if c == sep {
            let finished = cur;
            done.push(finished);
            cur = Vec::new();
        } else {
            cur.push(c);
        }
        i = i + 1;
        proof {
            let q = split(s@.take(i as int), sep);
            if c == sep {
                assert(q == p.push(Seq::<char>::empty()));
            } else {
                assert(q == p.update(p.len() - 1, p.last().push(c)));
            }
            assert forall|k: int| 0 <= k < done@.len() implies #[trigger] done@[k]@ == q[k] by {
            }
        }
    }
    assert(s@.take(s@.len() as int) =~= s@);
    done.push(cur);
    done
}

/// The value of a decimal digit character.
fn digit_of(c: char) -> (d: u32)
    requires
        is_digit(c),
    ensures
        d as int == digit_value(c),
        d < 10,
{
    (c as u32) - ('0' as u32)
}

/// `s.parse::<i32>()`.
pub fn parse_i32_chars(s: &[char]) -> (out: Option<i32>)
    ensures
        out == parse_i32_spec(s@),
{
    let n = s.len();
    if n == 0 {
        return None;
    }
    let negative = s[0] == '-';
    let start: usize = if s[0] == '-' || s[0] == '+' {
        1
    } else {
        0
    };
    if start == n {
        return None;
    }
    let ghost r = s@.skip(start as int);
    proof {
        if start == 1 {
            assert(r =~= s@.drop_first());
        } else {
            assert(r =~= s@);
        }
    }
    // Reject anything that is not a digit first.
    let mut i: usize = start;
    while i < n
        invariant
            start <= i <= n,
            n == s@.len(),
            r == s@.skip(start as int),
            0 < n,
            start < n,
            start == 1 <==> (s@[0] == '-' || s@[0] == '+'),
            start == 0 || start == 1,
            forall|k: int| start <= k < i ==> #[trigger] is_digit(s@[k]),
        decreases n - i,
    {
        if !('0' <= s[i] && s[i] <= '9') {
            proof {
                assert(r[i - start] == s@[i as int]);
                assert(!is_digit(r[i - start]));
                assert(!all_digits(r));
            }
            return None;
        }
        i = i + 1;
    }
    assert(all_digits(r)) by {
        assert forall|k: int| 0 <= k < r.len() implies #[trigger] is_digit(r[k]) by {
            assert(r[k] == s@[k + start]);
        }
    }
    // Accumulate, remembering only whether the magnitude grew past 2^31.
    let limit: u64 = 0x8000_0000;
    let mut acc: u64 = 0;
    let mut over = false;
    let mut k: usize = start;
    while k < n
        invariant
            start <= k <= n,
            n == s@.len(),
            r == s@.skip(start as int),
            0 < n,
            start < n,
            start == 1 <==> (s@[0] == '-' || s@[0] == '+'),
            start == 0 || start == 1,
            negative == (s@[0] == '-'),
            all_digits(r),
            !over ==> acc as int == digits_value(r.take(k - start)),
            !over ==> acc <= limit,
            over ==> digits_value(r.take(k - start)) > limit,
            limit == 0x8000_0000,
        decreases n - k,
    {
        let ghost prev = r.take(k - start);
        let ghost next = r.take(k - start + 1);
        proof {
            assert(next.drop_last() =~= prev);
            assert(next.last() == s@[k as int]);
            assert(is_digit(r[k - start]));
            assert(all_digits(prev)) by {
                assert forall|q: int| 0 <= q < prev.len() implies #[trigger] is_digit(prev[q]) by {
                    assert(prev[q] == r[q]);
                }
            }
            lemma_digits_value_nonneg(prev);
        }
        let d = digit_of(s[k]);
        if !over {
            let v = acc * 10 + d as u64;
            if v > limit {
                over = true;
            } else {
                acc = v;
            }
        }
        k = k + 1;
    }
    assert(r.take(n - start) =~= r);
    if over {
        return None;
    }
    if negative {
        assert(s@[0] == '-');
        Some((0i64 - acc as i64) as i32)
    } else if acc == limit {
        None
    } else {
        Some(acc as i32)
    }
}

/// `s.parse::<bool>()`.
pub fn parse_bool_chars(s: &[char]) -> (out: Option<bool>)
    ensures
        out == parse_bool_spec(s@),
{
    if s.len() == 4 && s[0] == 't' && s[1] == 'r' && s[2] == 'u' && s[3] == 'e' {
        assert(s@ =~= seq!['t', 'r', 'u', 'e']);
        Some(true)
    } else if s.len() == 5 && s[0] == 'f' && s[1] == 'a' && s[2] == 'l' && s[3] == 's' && s[4]
        == 'e' {
        assert(s@ =~= seq!['f', 'a', 'l', 's', 'e']);
        Some(false)
    } else {
        proof {
            if s@ == seq!['t', 'r', 'u', 'e'] {
                assert(s@[1] == 'r');
            }
            if s@ == seq!['f', 'a', 'l', 's', 'e'] {
                assert(s@[1] == 'a');
            }
        }
        None
    }
}

fn digit_char_exec(d: u32) -> (c: char)
    requires
        d < 10,
    ensures
        c == digit_char(d as nat),
{
    if d == 0 {
        '0'
    } else if d == 1 {
        '1'
    } else if d == 2 {
        '2'
    } else if d == 3 {
        '3'
    } else if d == 4 {
        '4'
    } else if d == 5 {
        '5'
    } else if d == 6 {
        '6'
    } else if d == 7 {
        '7'
    } else if d == 8 {
        '8'
    } else {
        '9'
    }
}

fn decimal_u64(n: u64) -> (out: Vec<char>)
    ensures
        out@ == decimal(n as nat),
    decreases n,
{
    if n < 10 {
        let mut v: Vec<char> = Vec::new();
        v.push(digit_char_exec(n as u32));
        v
    } else {
        let mut v = decimal_u64(n / 10);
        v.push(digit_char_exec((n % 10) as u32));
        v
    }
}

/// The characters that `n.to_string()` yields.
pub fn format_i64_chars(n: i64) -> (out: Vec<char>)
    ensures
        out@ == format_int(n as int),
{
    if n < 0 {
        let m: u64 = if n == i64::MIN {
            0x8000_0000_0000_0000u64
        } else {
            (0 - n) as u64
        };
        let d = decimal_u64(m);
        let mut v: Vec<char> = Vec::new();
        v.push('-');
        let mut i: usize = 0;
        while i < d.len()
            invariant
                i <= d@.len(),
                v@ == seq!['-'] + d@.take(i as int),
            decreases d@.len() - i,
        {
            v.push(d[i]);
            i = i + 1;
            assert(v@ =~= seq!['-'] + d@.take(i as int));
        }
        assert(d@.take(d@.len() as int) =~= d@);
        v
    } else {
        decimal_u64(n as u64)
    }
}

/// `n.to_string()` for an `i32`.
pub fn format_i32(n: i32) -> (out: String)
    ensures
        out@ == format_int(n as int),
{
    let cs = format_i64_chars(n as i64);
    string_of(cs.as_slice())
}

/// `s.parse::<i32>()`.
pub fn parse_i32(s: &str) -> (out: Option<i32>)
    ensures
        out == parse_i32_spec(s@),
{
    let cs = chars_of(s);
    parse_i32_chars(cs.as_slice())
}

/// A `String` with the characters of `s`.
pub fn string_from(s: &str) -> (out: String)
    ensures
        out@ == s@,
{
    let cs = chars_of(s);
    string_of(cs.as_slice())
}

/// Whether `tok` is the one-character string `c`.
pub fn is_single(tok: &[char], c: char) -> (r: bool)
    ensures
        r == (tok@ == seq![c]),
{
    if tok.len() == 1 && tok[0] == c {
        assert(tok@ =~= seq![c]);
        true
    } else {
        proof {
            if tok@ == seq![c] {
                assert(tok@[0] == c);
            }
        }
        false
    }
}

/// Appending a newline to a text without spaces adds none.
pub proof fn lemma_no_space_nl(s: Seq<char>)
    requires
        !contains_char(s, ' '),
    ensures
        !contains_char(s + seq!['\n'], ' '),
{
    let u = s + seq!['\n'];
    if contains_char(u, ' ') {
        let i = choose|i: int| 0 <= i < u.len() && u[i] == ' ';
        if i < s.len() {
            assert(u[i] == s[i]);
        }
    }
}

/// Trimming a line of a non-empty text without whitespace gives the text.
pub proof fn lemma_trim_nl(s: Seq<char>)
    requires
        has_no_ws(s),
        s.len() >= 1,
    ensures
        trim(s + seq!['\n']) == s,
{
    let u = s + seq!['\n'];
    assert(!is_ws(s[0]));
    assert(u[0] == s[0]);
    assert(trim_start(u) == u);
    assert(u.drop_last() =~= s);
    assert(is_ws(u.last()));
    assert(trim_end(u) == trim_end(s));
    lemma_trim_no_ws(s);
    assert(trim_start(s) == s);
}

} // verus!
