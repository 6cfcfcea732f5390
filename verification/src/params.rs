use vstd::prelude::*;

use crate::rdp::EPSILON_LIMIT;

verus! {

pub open spec fn is_digit(c: char) -> bool {
    48 <= c as u32 <= 57
}

pub open spec fn digit_val(c: char) -> int {
    c as u32 - 48
}

pub open spec fn all_digits(s: Seq<char>) -> bool {
    forall|i: int| 0 <= i < s.len() ==> is_digit(#[trigger] s[i])
}

/// Numeric value of a digit string, empty meaning zero.
pub open spec fn digits_val(s: Seq<char>) -> int
    decreases s.len(),
{
    if s.len() == 0 {
        0
    } else {
        digits_val(s.drop_last()) * 10 + digit_val(s[s.len() - 1])
    }
}

/// Value in thousandths contributed by up to three fraction digits.
pub open spec fn frac_scaled(s: Seq<char>) -> int {
    if s.len() == 0 {
        0
    } else if s.len() == 1 {
        digits_val(s) * 100
    } else if s.len() == 2 {
        digits_val(s) * 10
    } else {
        digits_val(s)
    }
}

/// Index of the first '.' in s, or -1 when there is none.
pub open spec fn first_dot(s: Seq<char>) -> int
    decreases s.len(),
{
    if s.len() == 0 {
        -1
    } else if s[0] == '.' {
        0
    } else {
        let r = first_dot(s.drop_first());
        if r < 0 {
            -1
        } else {
            r + 1
        }
    }
}

/// The accepted tolerance grammar: digits, optionally followed by a
/// dot and at most three fraction digits, with at least one digit
/// somewhere.
pub open spec fn eps_text_valid(s: Seq<char>) -> bool {
    let d = first_dot(s);
    if d < 0 {
        s.len() >= 1 && all_digits(s)
    } else {
        &&& s.len() >= 2
        &&& all_digits(s.take(d))
        &&& all_digits(s.skip(d + 1))
        &&& s.len() - d - 1 <= 3
    }
}

/// The value of a valid tolerance text, in thousandths of a unit.
pub open spec fn eps_text_value(s: Seq<char>) -> int {
    let d = first_dot(s);
    if d < 0 {
        digits_val(s) * 1000
    } else {
        digits_val(s.take(d)) * 1000 + frac_scaled(s.skip(d + 1))
    }
}

/// What parsing returns: the scaled value for a valid text within
/// the accepted range, nothing otherwise.
pub open spec fn eps_parse(s: Seq<char>) -> Option<i64> {
    if eps_text_valid(s) && eps_text_value(s) <= EPSILON_LIMIT as int {
        Some(eps_text_value(s) as i64)
    } else {
        None
    }
}

proof fn lemma_digits_val_nonneg(s: Seq<char>)
    requires
        all_digits(s),
    ensures
        digits_val(s) >= 0,
    decreases s.len(),
{
    if s.len() > 0 {
        assert(all_digits(s.drop_last()));
        lemma_digits_val_nonneg(s.drop_last());
    }
}

proof fn lemma_first_dot_at(s: Seq<char>, k: int)
    requires
        0 <= k < s.len(),
        s[k] == '.',
        forall|i: int| 0 <= i < k ==> s[i] != '.',
    ensures
        first_dot(s) == k,
    decreases s.len(),
{
    if k == 0 {
    } else {
        assert forall|i: int| 0 <= i < k - 1 implies s.drop_first()[i] != '.' by {
            assert(s.drop_first()[i] == s[i + 1]);
        }
        assert(s.drop_first()[k - 1] == s[k]);
        lemma_first_dot_at(s.drop_first(), k - 1);
    }
}

proof fn lemma_first_dot_none(s: Seq<char>)
    requires
        forall|i: int| 0 <= i < s.len() ==> s[i] != '.',
    ensures
        first_dot(s) < 0,
    decreases s.len(),
{
    if s.len() > 0 {
        assert forall|i: int| 0 <= i < s.len() - 1 implies s.drop_first()[i] != '.' by {
            assert(s.drop_first()[i] == s[i + 1]);
        }
        lemma_first_dot_none(s.drop_first());
    }
}

/// Scan the digit run s[from..to]; the run's value when every
/// character is a digit and the value stays within cap.
fn parse_digits(s: &str, from: usize, to: usize, cap: i64) -> (r: Option<i64>)
    requires
        from <= to <= s@.len(),
        0 <= cap <= 900_000_000_000_000_000,
    ensures
        ({
            let run = s@.subrange(from as int, to as int);
            match r {
                Some(v) => all_digits(run) && v as int == digits_val(run) && 0 <= v <= cap,
                None => !all_digits(run) || digits_val(run) > cap,
            }
        }),
{
    let ghost run = s@.subrange(from as int, to as int);
    let mut acc: i64 = 0;
    let mut over: bool = false;
    let mut i: usize = from;
    while i < to
        invariant
            from <= i <= to <= s@.len(),
            0 <= cap <= 900_000_000_000_000_000,
            run == s@.subrange(from as int, to as int),
            all_digits(run.take(i - from)),
            !over ==> acc as int == digits_val(run.take(i - from)) && 0 <= acc <= cap,
            over ==> digits_val(run.take(i - from)) > cap,
        decreases to - i,
    {
        let c = s.get_char(i);
        let cv = c as u32;
        proof {
            assert(run[i - from] == s@[i as int]);
        }
        if cv < 48 || cv > 57 {
            proof {
                assert(!is_digit(run[i - from]));
            }
            return None;
        }
        let d: i64 = (cv - 48) as i64;
        proof {
            assert(run.take(i - from + 1).drop_last() =~= run.take(i - from));
            assert(digits_val(run.take(i - from + 1)) == digits_val(run.take(i - from)) * 10
                + digit_val(run[i - from]));
            if over {
                lemma_digits_val_nonneg(run.take(i - from));
            }
        }
        if !over {
            let next = acc * 10 + d;
            if next > cap {
                over = true;
            } else {
                acc = next;
            }
        }
        i += 1;
        proof {
            if !over {
                assert(acc as int == digits_val(run.take(i - from)));
            } else {
                assert(digits_val(run.take(i - from)) > cap);
            }
        }
    }
    proof {
        assert(run.take(to - from) =~= run);
    }
    if over {
        None
    } else {
        Some(acc)
    }
}

/// Parse a tolerance typed as free text.  The result is the exact
/// value of `eps_parse` on the text: the scaled fixed-point value
/// for `digits[.digits]` with at most three fraction digits and a
/// value within `EPSILON_LIMIT`, and nothing for any other text.
pub fn parse_epsilon(s: &str) -> (r: Option<i64>)
    ensures
        r == eps_parse(s@),
        r matches Some(v) ==> 0 <= v <= EPSILON_LIMIT,
{
    let len = s.unicode_len();
    let mut dot: usize = 0;
    let mut has_dot: bool = false;
    let mut i: usize = 0;
    while i < len && !has_dot
        invariant
            0 <= i <= len == s@.len(),
            !has_dot ==> forall|j: int| 0 <= j < i ==> s@[j] != '.',
            has_dot ==> dot < i && s@[dot as int] == '.' && forall|j: int|
                0 <= j < dot ==> s@[j] != '.',
        decreases len - i,
    {
        let c = s.get_char(i);
        if c == '.' {
            dot = i;
            has_dot = true;
        }
        i += 1;
    }
    proof {
        if has_dot {
            lemma_first_dot_at(s@, dot as int);
        } else {
            lemma_first_dot_none(s@);
        }
    }
    if !has_dot {
        if len == 0 {
            return None;
        }
        match parse_digits(s, 0, len, 1_000_000) {
            Some(v) => {
                proof {
                    assert(s@.subrange(0, len as int) =~= s@);
                }
                Some(v * 1000)
            },
            None => {
                proof {
                    assert(s@.subrange(0, len as int) =~= s@);
                    if all_digits(s@) {
                        assert(digits_val(s@) > 1_000_000);
                        assert(eps_text_value(s@) > EPSILON_LIMIT as int);
                    }
                }
                None
            },
        }
    } else {
        if len < 2 {
            return None;
        }
        let frac_len = len - dot - 1;
        if frac_len > 3 {
            return None;
        }
        let ghost ip = s@.take(dot as int);
        let ghost fp = s@.skip(dot as int + 1);
        proof {
            assert(ip =~= s@.subrange(0, dot as int));
            assert(fp =~= s@.subrange(dot as int + 1, len as int));
        }
        let int_part = match parse_digits(s, 0, dot, 1_000_000) {
            Some(v) => v,
            None => {
                proof {
                    if all_digits(ip) {
                        assert(digits_val(ip) > 1_000_000);
                        if all_digits(fp) {
                            lemma_digits_val_nonneg(fp);
                            assert(frac_scaled(fp) >= 0);
                            assert(eps_text_value(s@) > EPSILON_LIMIT as int);
                        }
                    }
                }
                return None;
            },
        };
        let frac_part = match parse_digits(s, dot + 1, len, 999) {
            Some(v) => v,
            None => {
                proof {
                    if all_digits(fp) {
                        lemma_digits_val_bound(fp);
                    }
                }
                return None;
            },
        };
        let scaled: i64 = if frac_len == 1 {
            frac_part * 100
        } else if frac_len == 2 {
            frac_part * 10
        } else {
            frac_part
        };
        let value = int_part * 1000 + scaled;
        if value > EPSILON_LIMIT {
            None
        } else {
            proof {
                lemma_digits_val_nonneg(ip);
                lemma_digits_val_nonneg(fp);
            }
            Some(value)
        }
    }
}

/// Three digits or fewer value at most 999.
proof fn lemma_digits_val_bound(s: Seq<char>)
    requires
        all_digits(s),
        s.len() <= 3,
    ensures
        0 <= digits_val(s) <= 999,
{
    lemma_digits_val_nonneg(s);
    if s.len() > 0 {
        let t = s.drop_last();
        assert(all_digits(t));
        if s.len() == 1 {
            assert(digits_val(t) == 0);
        } else if s.len() == 2 {
            let u = t.drop_last();
            assert(all_digits(u));
            assert(digits_val(u) == 0);
            assert(digits_val(t) <= 9);
        } else {
            let u = t.drop_last();
            assert(all_digits(u));
            let w = u.drop_last();
            assert(all_digits(w));
            assert(digits_val(w) == 0);
            assert(digits_val(u) <= 9);
            assert(digits_val(t) <= 99);
        }
    }
}

} // verus!
