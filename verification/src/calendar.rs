//! The date stamp that the server puts on a new file entry: today's local
//! date as `YYYYMMDD`.
use vstd::prelude::*;

use crate::text::all_digits;
use crate::text::chars_of;
use crate::text::is_digit;
use crate::text::string_of;

verus! {

/// The characters a date with its UTC offset is written with.
pub open spec fn is_date_char(c: char) -> bool {
    ('0' <= c && c <= '9') || c == '-' || c == '+' || c == ':'
}

pub open spec fn is_ascii_text(s: Seq<char>) -> bool {
    forall|i: int| 0 <= i < s.len() ==> (#[trigger] s[i] as int) < 128
}

/// The layout of a date whose year is written with four digits:
/// `YYYY-MM-DD` followed by the sign of the UTC offset.
pub open spec fn four_digit_year_layout(s: Seq<char>) -> bool {
    &&& s.len() >= 11
    &&& s[4] == '-'
    &&& s[7] == '-'
    &&& (s[10] == '+' || s[10] == '-')
    &&& forall|i: int| 0 <= i < 10 && i != 4 && i != 7 ==> #[trigger] is_digit(s[i])
}

/// What `chrono::Local::today().to_string()` can give: at least 16
/// characters, each a digit or one of `-+:`, and, where the text starts with
/// a digit (a year in `0..=9999`), the layout `YYYY-MM-DD` and the offset's
/// sign.
pub open spec fn is_local_date_text(s: Seq<char>) -> bool {
    &&& s.len() >= 16
    &&& forall|i: int| 0 <= i < s.len() ==> is_date_char(#[trigger] s[i])
    &&& is_digit(s[0]) ==> four_digit_year_layout(s)
}

/// `chrono::Local::today().to_string()`: today's local date followed by the
/// local UTC offset. chrono 0.4 writes a year in `0..=9999` as four digits
/// and any other year with its sign (`-0001`, `+10000`), then `-`, two-digit
/// month, `-`, two-digit day; the offset follows as a sign, two-digit hours,
/// `:` and two-digit minutes (`:` and seconds after that where they are not
/// zero). Which date and offset come back depends on the clock and the time
/// zone, and is not stated.
#[verifier::external_body]
#[allow(deprecated)]
fn local_today_text() -> (s: String)
    ensures
        is_local_date_text(s@),
{
    chrono::Local::today().to_string()
}

/// What `truncate(10)`, `remove(7)` and `remove(4)` leave of an ASCII text:
/// the first ten characters without those at 7 and at 4.
pub open spec fn compact_date_spec(s: Seq<char>) -> Seq<char> {
    let t = if s.len() > 10 {
        s.take(10)
    } else {
        s
    };
    t.remove(7).remove(4)
}

/// Dropping the separators of a date `YYYY-MM-DD...` leaves its year,
/// month and day: the characters at 0 to 3, 5 and 6, 8 and 9.
pub proof fn lemma_compact_date_keeps_ymd(s: Seq<char>)
    requires
        s.len() >= 10,
    ensures
        compact_date_spec(s) == seq![s[0], s[1], s[2], s[3], s[5], s[6], s[8], s[9]],
{
    assert(compact_date_spec(s) =~= seq![s[0], s[1], s[2], s[3], s[5], s[6], s[8], s[9]]);
}

/// Drops the separators from a date written `YYYY-MM-DD...`.
pub fn compact_date(s: &str) -> (r: String)
    requires
        s@.len() >= 8,
        is_ascii_text(s@),
    ensures
        r@ == compact_date_spec(s@),
{
    let cs = chars_of(s);
    let n: usize = if cs.len() > 10 {
        10
    } else {
        cs.len()
    };
    let mut out: Vec<char> = Vec::new();
    let mut i: usize = 0;
    let ghost t = if s@.len() > 10 {
        s@.take(10)
    } else {
        s@
    };
    assert(t.len() == n);
    while i < n
        invariant
            i <= n,
            n <= cs@.len(),
            cs@ == s@,
            t.len() == n,
            forall|k: int| 0 <= k < n ==> #[trigger] t[k] == s@[k],
            n >= 8,
            out@ == t.remove(7).remove(4).take(
                if i <= 4 {
                    i as int
                } else if i <= 7 {
                    i - 1
                } else {
                    i - 2
                },
            ),
        decreases n - i,
    {
        if i != 4 && i != 7 {
            out.push(cs[i]);
        }
        i = i + 1;
        proof {
            let u = t.remove(7).remove(4);
            let len = if i <= 4 {
                i as int
            } else if i <= 7 {
                i - 1
            } else {
                i - 2
            };
            assert(out@ =~= u.take(len)) by {
                assert forall|k: int| 0 <= k < len implies out@[k] == u[k] by {
                    if k < 4 {
                        assert(u[k] == t[k]);
                    } else if k < 6 {
                        assert(u[k] == t[k + 1]);
                    } else {
                        assert(u[k] == t[k + 2]);
                    }
                }
            }
        }
    }
    let r = string_of(out.as_slice());
    assert(t.remove(7).remove(4).take(n - 2) =~= t.remove(7).remove(4));
    r
}

/// Today's local date as `YYYYMMDD` (eight characters), the stamp a new
/// file entry gets: the year, month and day of the clock's date text with
/// the separators dropped. Where the year has four digits, all eight
/// characters are digits.
pub fn today_stamp() -> (r: String)
    ensures
        r@.len() == 8,
        exists|s: Seq<char>| is_local_date_text(s) && r@ == compact_date_spec(s),
        is_digit(r@[0]) ==> all_digits(r@),
{
    let s = local_today_text();
    assert(is_ascii_text(s@)) by {
        assert forall|i: int| 0 <= i < s@.len() implies (#[trigger] s@[i] as int) < 128 by {
            assert(is_date_char(s@[i]));
        }
    }
    let r = compact_date(s.as_str());
    proof {
        let c = compact_date_spec(s@);
        assert(c[0] == s@[0]);
        if is_digit(r@[0]) {
            assert forall|i: int| 0 <= i < r@.len() implies #[trigger] is_digit(r@[i]) by {
                if i < 4 {
                    assert(c[i] == s@[i]);
                } else if i < 6 {
                    assert(c[i] == s@[i + 1]);
                } else {
                    assert(c[i] == s@[i + 2]);
                }
            }
        }
    }
    r
}

} // verus!
