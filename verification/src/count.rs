//! The declared atom count: reading the header line as a signed integer.
use crate::text::chars_of;
use vstd::prelude::*;

verus! {

pub open spec fn is_digit(c: char) -> bool {
    '0' <= c && c <= '9'
}

pub open spec fn digit_val(c: char) -> int {
    c as u32 - '0' as u32
}

pub open spec fn all_digits(s: Seq<char>) -> bool {
    forall|i: int| 0 <= i < s.len() ==> is_digit(s[i])
}

/// The value of a run of decimal digits, most significant first.
pub open spec fn digits_val(s: Seq<char>) -> int
    decreases s.len(),
{
    if s.len() == 0 {
        0
    } else {
        digits_val(s.drop_last()) * 10 + digit_val(s.last())
    }
}

/// The signed value of a digit run under an optional leading minus, if the
/// run is one or more digits and the value lies in the 64-bit signed range.
pub open spec fn signed_digits_val(mag: Seq<char>, neg: bool) -> Option<int> {
    if mag.len() > 0 && all_digits(mag) {
        if neg && digits_val(mag) <= 0x8000_0000_0000_0000 {
            Some(-digits_val(mag))
        } else if !neg && digits_val(mag) <= 0x7fff_ffff_ffff_ffff {
            Some(digits_val(mag))
        } else {
            None
        }
    } else {
        None
    }
}

/// What parsing `s` as a 64-bit signed integer yields: an optional sign, one
/// or more decimal digits, nothing else, and a value within the 64-bit range.
pub open spec fn int_of(s: Seq<char>) -> Option<int> {
    if s.len() > 0 && (s[0] == '+' || s[0] == '-') {
        signed_digits_val(s.drop_first(), s[0] == '-')
    } else {
        signed_digits_val(s, false)
    }
}

pub open spec fn has_char(s: Seq<char>, c: char) -> bool {
    exists|i: int| 0 <= i < s.len() && s[i] == c
}

/// The atom count declared by a trimmed header: rejected when the text holds
/// a decimal point, does not read as a 64-bit signed integer, is negative,
/// or does not fit the machine's word.
pub open spec fn count_of_header(h: Seq<char>) -> Option<int> {
    if has_char(h, '.') {
        None
    } else {
        match int_of(h) {
            Some(v) => if 0 <= v <= usize::MAX {
                Some(v)
            } else {
                None
            },
            None => None,
        }
    }
}

proof fn lemma_digits_val_bounds(s: Seq<char>)
    requires
        all_digits(s),
    ensures
        digits_val(s) >= 0,
        s.len() > 0 && digit_val(s[0]) > 0 ==> digits_val(s) >= digit_val(s[0]),
    decreases s.len(),
{
    if s.len() == 0 {
    } else {
        let t = s.drop_last();
        assert(all_digits(t));
        lemma_digits_val_bounds(t);
        assert(digit_val(s.last()) >= 0);
    }
}

/// Once the accumulated magnitude has left the range of a 64-bit word,
/// further digits keep it out.
proof fn lemma_digits_val_grows(s: Seq<char>, b: int)
    requires
        all_digits(s),
        digits_val(s) > b,
        b >= 0,
    ensures
        forall|c: char| is_digit(c) ==> digits_val(s.push(c)) > b,
{
    assert forall|c: char| is_digit(c) implies digits_val(s.push(c)) > b by {
        let e = s.push(c);
        assert(e.drop_last() =~= s);
        assert(digits_val(e) == digits_val(s) * 10 + digit_val(c));
        lemma_digits_val_bounds(s);
    }
}

/// The declared atom count of a trimmed, nonempty header line, or `None`
/// where the header is not a well-formed non-negative count.
#[verifier::loop_isolation(false)]
pub fn parse_count(h: &str) -> (r: Option<usize>)
    ensures
        match r {
            Some(n) => count_of_header(h@) == Some(n as int),
            None => count_of_header(h@) is None,
        },
{
    let c = chars_of(h);
    let n = c.len();
    let mut i: usize = 0;
    while i < n
        invariant
            i <= n,
            n == h@.len(),
            c@ == h@,
            forall|k: int| 0 <= k < i ==> h@[k] != '.',
        decreases n - i,
    {
        if c[i] == '.' {
            assert(has_char(h@, '.'));
            return None;
        }
        i = i + 1;
    }
    assert(!has_char(h@, '.'));
    let neg = n > 0 && c[0] == '-';
    let start: usize = if n > 0 && (c[0] == '+' || c[0] == '-') {
        1
    } else {
        0
    };
    let ghost mag = if h@.len() > 0 && (h@[0] == '+' || h@[0] == '-') {
        h@.drop_first()
    } else {
        h@
    };
    assert(mag.len() == n - start);
    assert(forall|k: int| 0 <= k < mag.len() ==> mag[k] == h@[start + k]);
    if start >= n {
        assert(mag.len() == 0);
        return None;
    }
    let mut acc: u64 = 0;
    let mut too_big = false;
    let mut j: usize = start;
    while j < n
        invariant
            start <= j <= n,
            n == h@.len(),
            c@ == h@,
            mag.len() == n - start,
            forall|k: int| 0 <= k < mag.len() ==> mag[k] == h@[start + k],
            all_digits(mag.subrange(0, j - start)),
            !too_big ==> acc == digits_val(mag.subrange(0, j - start)),
            too_big ==> digits_val(mag.subrange(0, j - start)) > u64::MAX,
        decreases n - j,
    {
        let ch = c[j];
        if !('0' <= ch && ch <= '9') {
            assert(!is_digit(mag[j - start]));
            assert(!all_digits(mag));
            return None;
        }
        let d: u64 = (ch as u32 as u64) - 48;
        let ghost pre = mag.subrange(0, j - start);
        let ghost post = mag.subrange(0, j + 1 - start);
        proof {
            assert(post.drop_last() =~= pre);
            assert(post.last() == mag[j - start]);
            assert(digits_val(post) == digits_val(pre) * 10 + digit_val(mag[j - start]));
            assert(digit_val(mag[j - start]) == d);
        }
        if too_big {
            proof {
                lemma_digits_val_grows(pre, u64::MAX as int);
                assert(pre.push(mag[j - start]) =~= post);
            }
        } else {
            if acc > (u64::MAX - d) / 10 {
                proof {
                    lemma_digits_val_bounds(pre);
                    assert(digits_val(post) > u64::MAX) by (nonlinear_arith)
                        requires
                            digits_val(post) == digits_val(pre) * 10 + digit_val(mag[j - start]),
                            digits_val(pre) == acc,
                            acc > (u64::MAX - d) / 10,
                            digit_val(mag[j - start]) == d,
                            0 <= d <= 9,
                            acc <= u64::MAX,
                    ;
                }
                too_big = true;
            } else {
                proof {
                    assert(acc * 10 + d <= u64::MAX) by (nonlinear_arith)
                        requires
                            acc <= (u64::MAX - d) / 10,
                            0 <= d <= 9,
                            0 <= acc,
                    ;
                }
                acc = acc * 10 + d;
            }
        }
        j = j + 1;
    }
    assert(mag.subrange(0, n - start) =~= mag);
    assert(all_digits(mag));
    if neg {
        if !too_big && acc == 0 {
            assert(int_of(h@) == Some(0int));
            Some(0)
        } else {
            proof {
                if too_big {
                    assert(digits_val(mag) > u64::MAX);
                } else {
                    assert(digits_val(mag) == acc > 0);
                }
            }
            None
        }
    } else {
        if too_big {
            assert(digits_val(mag) > u64::MAX >= 0x7fff_ffff_ffff_ffff);
            None
        } else if acc > 0x7fff_ffff_ffff_ffff {
            assert(int_of(h@) is None);
            None
        } else if acc > usize::MAX as u64 {
            assert(int_of(h@) == Some(acc as int));
            None
        } else {
            assert(int_of(h@) == Some(acc as int));
            Some(acc as usize)
        }
    }
}

} // verus!
