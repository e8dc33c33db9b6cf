//! Integer time model: milliseconds, `HH:MM:SS.mmm` rendering, and parsing
//! of plain decimal seconds text.

use vstd::prelude::*;
use crate::MAX_TIME_MS;

verus! {

// ---------------------------------------------------------------------------
// Decimal rendering
// ---------------------------------------------------------------------------

/// The character for one decimal digit value.
pub open spec fn digit_char(d: int) -> char {
    if d == 0 {
        '0'
    } else if d == 1 {
        '1'
    } else if d == 2 {
        '2'
    } else if d == 3 {
        '3'
    } else if d == 4 {
        '4'
    } else if d == 5 {
        '5'
    } else if d == 6 {
        '6'
    } else if d == 7 {
        '7'
    } else if d == 8 {
        '8'
    } else {
        '9'
    }
}

/// Decimal digits of `n`, most significant first, without leading zeros.
pub open spec fn dec_chars(n: nat) -> Seq<char>
    decreases n,
{
    if n < 10 {
        seq![digit_char(n as int)]
    } else {
        dec_chars(n / 10).push(digit_char((n % 10) as int))
    }
}

/// `n` rendered with at least two digits.
pub open spec fn pad2_chars(n: nat) -> Seq<char> {
    if n < 10 {
        seq!['0'] + dec_chars(n)
    } else {
        dec_chars(n)
    }
}

/// `n` rendered with at least three digits.
pub open spec fn pad3_chars(n: nat) -> Seq<char> {
    if n < 10 {
        seq!['0', '0'] + dec_chars(n)
    } else if n < 100 {
        seq!['0'] + dec_chars(n)
    } else {
        dec_chars(n)
    }
}

/// `HH:MM:SS.mmm` for a time in milliseconds. Every field is floor-based;
/// the hour field widens beyond two digits when the time asks for it.
pub open spec fn timestamp_chars(ms: nat) -> Seq<char> {
    pad2_chars(ms / 3600000) + seq![':'] + pad2_chars((ms % 3600000) / 60000) + seq![':']
        + pad2_chars((ms % 60000) / 1000) + seq!['.'] + pad3_chars(ms % 1000)
}

/// Seconds with exactly three decimals (`12.050`), the form handed to the
/// media tool as a trim point.
pub open spec fn seconds_chars(ms: nat) -> Seq<char> {
    dec_chars(ms / 1000) + seq!['.'] + pad3_chars(ms % 1000)
}

fn digit_str(d: u64) -> (r: &'static str)
    requires
        d < 10,
    ensures
        r@ =~= seq![digit_char(d as int)],
{
    proof {
        reveal_strlit("0");
        reveal_strlit("1");
        reveal_strlit("2");
        reveal_strlit("3");
        reveal_strlit("4");
        reveal_strlit("5");
        reveal_strlit("6");
        reveal_strlit("7");
        reveal_strlit("8");
        reveal_strlit("9");
    }
    if d == 0 {
        "0"
    } else if d == 1 {
        "1"
    } else if d == 2 {
        "2"
    } else if d == 3 {
        "3"
    } else if d == 4 {
        "4"
    } else if d == 5 {
        "5"
    } else if d == 6 {
        "6"
    } else if d == 7 {
        "7"
    } else if d == 8 {
        "8"
    } else {
        "9"
    }
}

/// Decimal rendering of `n`.
pub fn dec_string(n: u64) -> (r: String)
    ensures
        r@ == dec_chars(n as nat),
    decreases n,
{
    if n < 10 {
        let r = digit_str(n).to_owned();
        proof {
            assert(r@ =~= dec_chars(n as nat));
        }
        r
    } else {
        let mut r = dec_string(n / 10);
        r.append(digit_str(n % 10));
        proof {
            assert(r@ =~= dec_chars(n as nat));
        }
        r
    }
}

/// Decimal rendering of `n`, zero-padded to at least two digits.
pub fn pad2_string(n: u64) -> (r: String)
    ensures
        r@ == pad2_chars(n as nat),
{
    if n < 10 {
        proof {
            reveal_strlit("0");
        }
        let mut r = "0".to_owned();
        r.append(digit_str(n));
        proof {
            assert(r@ =~= pad2_chars(n as nat));
        }
        r
    } else {
        dec_string(n)
    }
}

/// Decimal rendering of `n`, zero-padded to at least three digits.
pub fn pad3_string(n: u64) -> (r: String)
    ensures
        r@ == pad3_chars(n as nat),
{
    if n < 10 {
        proof {
            reveal_strlit("00");
        }
        let mut r = "00".to_owned();
        r.append(digit_str(n));
        proof {
            assert(r@ =~= pad3_chars(n as nat));
        }
        r
    } else if n < 100 {
        proof {
            reveal_strlit("0");
        }
        let mut r = "0".to_owned();
        let rest = dec_string(n);
        r.append(rest.as_str());
        proof {
            assert(r@ =~= pad3_chars(n as nat));
        }
        r
    } else {
        dec_string(n)
    }
}

/// Renders a time in milliseconds as `HH:MM:SS.mmm`, extracting every field
/// by floor division, with the milliseconds floor-truncated rather than
/// rounded.
pub fn format_timestamp(ms: u64) -> (r: String)
    ensures
        r@ == timestamp_chars(ms as nat),
{
    proof {
        reveal_strlit(":");
        reveal_strlit(".");
    }
    let hours: u64 = ms / 3600000;
    let minutes: u64 = (ms % 3600000) / 60000;
    let secs: u64 = (ms % 60000) / 1000;
    let millis: u64 = ms % 1000;
    let mut r = pad2_string(hours);
    r.append(":");
    let m = pad2_string(minutes);
    r.append(m.as_str());
    r.append(":");
    let s = pad2_string(secs);
    r.append(s.as_str());
    r.append(".");
    let f = pad3_string(millis);
    r.append(f.as_str());
    proof {
        assert(r@ =~= timestamp_chars(ms as nat));
    }
    r
}

/// Renders a time in milliseconds as seconds with three decimals, the trim
/// point form for the media tool.
pub fn format_seconds(ms: u64) -> (r: String)
    ensures
        r@ == seconds_chars(ms as nat),
{
    proof {
        reveal_strlit(".");
    }
    let mut r = dec_string(ms / 1000);
    r.append(".");
    let f = pad3_string(ms % 1000);
    r.append(f.as_str());
    proof {
        assert(r@ =~= seconds_chars(ms as nat));
    }
    r
}

// ---------------------------------------------------------------------------
// Parsing plain decimal seconds
// ---------------------------------------------------------------------------

/// Is `b` an ASCII decimal digit?
pub open spec fn is_digit_byte(b: u8) -> bool {
    48 <= b && b <= 57
}

/// The value of an ASCII decimal digit.
pub open spec fn digit_byte_val(b: u8) -> nat {
    (b - 48) as nat
}

pub open spec fn all_digit_bytes(s: Seq<u8>) -> bool {
    forall|i: int| 0 <= i < s.len() ==> is_digit_byte(#[trigger] s[i])
}

/// The number spelled by a string of decimal digits; 0 for the empty string.
pub open spec fn digits_val(s: Seq<u8>) -> nat
    decreases s.len(),
{
    if s.len() == 0 {
        0
    } else {
        digits_val(s.drop_last()) * 10 + digit_byte_val(s.last())
    }
}

/// Index of the first occurrence of `b` in `s`, or `s.len()` when there is
/// none.
pub open spec fn first_byte_index(s: Seq<u8>, b: u8) -> int
    decreases s.len(),
{
    if s.len() == 0 {
        0
    } else if s[0] == b {
        0
    } else {
        1 + first_byte_index(s.drop_first(), b)
    }
}

/// Index of the first `.` in `s`, or `s.len()` when there is none.
pub open spec fn dot_index(s: Seq<u8>) -> int {
    first_byte_index(s, 46)
}

/// Fractional digits scaled to milliseconds: the first three fractional
/// digits, floor-truncated beyond the third.
pub open spec fn frac_ms(f: Seq<u8>) -> nat {
    if f.len() >= 3 {
        digits_val(f.take(3))
    } else if f.len() == 2 {
        digits_val(f) * 10
    } else if f.len() == 1 {
        digits_val(f) * 100
    } else {
        0
    }
}

/// Does `s` spell a plain non-negative decimal seconds value: decimal digits
/// with at most one `.`, and at least one digit?
pub open spec fn seconds_text_valid(s: Seq<u8>) -> bool {
    let d = dot_index(s);
    if d == s.len() {
        s.len() > 0 && all_digit_bytes(s)
    } else {
        all_digit_bytes(s.take(d)) && all_digit_bytes(s.skip(d + 1)) && s.len() > 1
    }
}

/// The milliseconds spelled by a valid decimal seconds text.
pub open spec fn seconds_text_ms(s: Seq<u8>) -> nat {
    let d = dot_index(s);
    if d == s.len() {
        digits_val(s) * 1000
    } else {
        digits_val(s.take(d)) * 1000 + frac_ms(s.skip(d + 1))
    }
}

/// What parsing a byte text as decimal seconds yields: the spelled time in
/// milliseconds when the text is well-formed and the value within range,
/// nothing otherwise.
pub open spec fn seconds_parse(s: Seq<u8>) -> Option<u64> {
    if seconds_text_valid(s) && seconds_text_ms(s) <= MAX_TIME_MS {
        Some(seconds_text_ms(s) as u64)
    } else {
        None
    }
}

/// The first occurrence of a byte is wherever a scan says it is.
pub proof fn lemma_first_byte_index_of(s: Seq<u8>, b: u8, j: int)
    requires
        0 <= j <= s.len(),
        forall|k: int| 0 <= k < j ==> s[k] != b,
        j == s.len() || s[j] == b,
    ensures
        first_byte_index(s, b) == j,
    decreases s.len(),
{
    if s.len() == 0 {
    } else if s[0] == b {
        assert(j == 0);
    } else {
        assert(j >= 1);
        let t = s.drop_first();
        assert forall|k: int| 0 <= k < j - 1 implies t[k] != b by {
            assert(t[k] == s[k + 1]);
        }
        if j == s.len() {
            lemma_first_byte_index_of(t, b, j - 1);
        } else {
            assert(t[j - 1] == s[j]);
            lemma_first_byte_index_of(t, b, j - 1);
        }
    }
}

/// Appending a digit multiplies the spelled value by ten and adds the digit.
proof fn lemma_digits_val_push(s: Seq<u8>, b: u8)
    ensures
        digits_val(s.push(b)) == digits_val(s) * 10 + digit_byte_val(b),
{
    assert(s.push(b).drop_last() =~= s);
    assert(s.push(b).last() == b);
}

/// Scans `s[from..to)` as decimal digits, accumulating the value and
/// saturating once it passes `MAX_TIME_MS`. Reports a non-digit byte.
pub(crate) fn scan_digits(s: &[u8], from: usize, to: usize) -> (r: Option<u64>)
    requires
        0 <= from <= to <= s@.len(),
    ensures
        match r {
            Some(v) => {
                &&& all_digit_bytes(s@.subrange(from as int, to as int))
                &&& (digits_val(s@.subrange(from as int, to as int)) <= MAX_TIME_MS ==> v
                    == digits_val(s@.subrange(from as int, to as int)))
                &&& (digits_val(s@.subrange(from as int, to as int)) > MAX_TIME_MS ==> v
                    == MAX_TIME_MS + 1)
            },
            None => !all_digit_bytes(s@.subrange(from as int, to as int)),
        },
{
    let mut acc: u64 = 0;
    let mut k: usize = from;
    while k < to
        invariant
            from <= k <= to <= s@.len(),
            all_digit_bytes(s@.subrange(from as int, k as int)),
            digits_val(s@.subrange(from as int, k as int)) <= MAX_TIME_MS ==> acc == digits_val(
                s@.subrange(from as int, k as int),
            ),
            digits_val(s@.subrange(from as int, k as int)) > MAX_TIME_MS ==> acc == MAX_TIME_MS
                + 1,
            acc <= MAX_TIME_MS + 1,
        decreases to - k,
    {
        let b: u8 = s[k];
        if !(48 <= b && b <= 57) {
            proof {
                assert(s@.subrange(from as int, to as int)[k - from] == b);
            }
            return None;
        }
        let d: u64 = (b - 48) as u64;
        let next: u64 = acc * 10 + d;
        proof {
            let pref = s@.subrange(from as int, k as int);
            let pref2 = s@.subrange(from as int, k as int + 1);
            assert(pref2 =~= pref.push(s@[k as int]));
            lemma_digits_val_push(pref, s@[k as int]);
        }
        if next > MAX_TIME_MS {
            acc = MAX_TIME_MS + 1;
        } else {
            acc = next;
        }
        k = k + 1;
    }
    Some(acc)
}

/// Parses a byte text as plain non-negative decimal seconds (`7`, `3.5`,
/// `.25`, `120.`) into whole milliseconds, floor-truncating past the third
/// fractional digit. Yields nothing for any other shape of text, or when the
/// value passes `MAX_TIME_MS`.
pub fn parse_seconds_ms(s: &[u8]) -> (r: Option<u64>)
    ensures
        r == seconds_parse(s@),
{
    let n: usize = s.len();
    // Find the first dot.
    let mut j: usize = 0;
    while j < n && s[j] != 46
        invariant
            0 <= j <= n == s@.len(),
            forall|k: int| 0 <= k < j ==> s@[k] != 46,
        decreases n - j,
    {
        j = j + 1;
    }
    proof {
        lemma_first_byte_index_of(s@, 46, j as int);
    }
    if j == n {
        // No dot: all digits, at least one.
        if n == 0 {
            return None;
        }
        let int_part: u64 = match scan_digits(s, 0, n) {
            Some(v) => v,
            None => {
                return None;
            },
        };
        proof {
            assert(s@.subrange(0, n as int) =~= s@);
        }
        if int_part > MAX_TIME_MS / 1000 {
            proof {
                if digits_val(s@) <= MAX_TIME_MS {
                    assert(int_part == digits_val(s@));
                }
            }
            return None;
        }
        Some(int_part * 1000)
    } else {
        // A dot at j: digits on both sides, at least one digit in all.
        if n <= 1 {
            return None;
        }
        let int_part: u64 = match scan_digits(s, 0, j) {
            Some(v) => v,
            None => {
                return None;
            },
        };
        // Validate the whole fraction and take its first three digits.
        let mut frac: u64 = 0;
        let mut cnt: usize = 0;
        let mut k: usize = j + 1;
        while k < n
            invariant
                j + 1 <= k <= n == s@.len(),
                j < n,
                dot_index(s@) == j as int,
                all_digit_bytes(s@.subrange(j + 1, k as int)),
                cnt == if k - (j + 1) < 3 {
                    k - (j + 1)
                } else {
                    3
                },
                frac == digits_val(s@.subrange(j + 1, k as int).take(cnt as int)),
                cnt == 0 ==> frac == 0,
                cnt == 1 ==> frac < 10,
                cnt == 2 ==> frac < 100,
                frac < 1000,
            decreases n - k,
        {
            let b: u8 = s[k];
            if !(48 <= b && b <= 57) {
                proof {
                    assert(s@.subrange(j + 1, n as int)[k - (j + 1)] == b);
                }
                return None;
            }
            proof {
                let pref = s@.subrange(j + 1, k as int);
                let pref2 = s@.subrange(j + 1, k as int + 1);
                assert(pref2 =~= pref.push(s@[k as int]));
                if cnt < 3 {
                    assert(pref2.take(cnt + 1) =~= pref.take(cnt as int).push(s@[k as int]));
                    lemma_digits_val_push(pref.take(cnt as int), s@[k as int]);
                } else {
                    assert(pref2.take(cnt as int) =~= pref.take(cnt as int));
                }
            }
            if cnt < 3 {
                frac = frac * 10 + ((b - 48) as u64);
                cnt = cnt + 1;
            }
            k = k + 1;
        }
        // Scale a short fraction up to milliseconds.
        let f_ms: u64 = if cnt == 0 {
            0
        } else if cnt == 1 {
            frac * 100
        } else if cnt == 2 {
            frac * 10
        } else {
            frac
        };
        proof {
            let fseq = s@.subrange(j + 1, n as int);
            if fseq.len() < 3 {
                assert(fseq.take(cnt as int) =~= fseq);
            }
            assert(f_ms == frac_ms(fseq));
        }
        if int_part > MAX_TIME_MS / 1000 {
            proof {
                let iseq = s@.subrange(0, j as int);
                if digits_val(iseq) <= MAX_TIME_MS {
                    assert(int_part == digits_val(iseq));
                }
            }
            return None;
        }
        let v: u64 = int_part * 1000 + f_ms;
        if v > MAX_TIME_MS {
            return None;
        }
        proof {
            assert(s@.take(j as int) =~= s@.subrange(0, j as int));
            assert(s@.skip(j + 1) =~= s@.subrange(j + 1, n as int));
        }
        Some(v)
    }
}

} // verus!
