//! Frequency parsing: maps a free-form frequency string either to "as needed"
//! (no recurrence) or to a positive number of days between doses.

use vstd::prelude::*;
use crate::text::{
    all_digits, eq_ignore_case, is_digit, is_space, is_space_char, lemma_ws_prefix_len_is,
    lemma_word_len_is, lower, lower_char, parse_u32_spec, parse_u32_str, spec_starts_with,
    starts_with_ignore_case, trim, trim_str, word_len, ws_prefix_len,
};

verus! {

/// The vocabulary that means "take as needed": no recurrence interval.
pub open spec fn is_as_needed(t: Seq<char>) -> bool {
    t == "prn"@ || t == "as needed"@ || t == "as-needed"@ || t == "asneeded"@
        || t == "when needed"@
}

/// Case folding touches no whitespace character.
pub proof fn lemma_lower_keeps_space(s: Seq<char>)
    ensures
        forall|k: int| 0 <= k < s.len() ==> is_space(lower(s)[k]) == is_space(s[k]),
{
    assert forall|k: int| 0 <= k < s.len() implies is_space(lower(s)[k]) == is_space(s[k]) by {
        assert(lower(s)[k] == lower_char(s[k]));
    }
}

/// Case folding touches no digit and no sign, so numbers parse the same.
pub proof fn lemma_parse_u32_lower(s: Seq<char>)
    ensures
        parse_u32_spec(lower(s)) == parse_u32_spec(s),
{
    let y = lower(s);
    assert(y.len() == s.len());
    if s.len() > 0 {
        assert(y[0] == lower_char(s[0]));
        assert((y[0] == '+') == (s[0] == '+'));
    }
    let tx = if s.len() > 0 && s[0] == '+' {
        s.drop_first()
    } else {
        s
    };
    let ty = if y.len() > 0 && y[0] == '+' {
        y.drop_first()
    } else {
        y
    };
    assert(ty =~= lower(tx));
    assert forall|i: int| 0 <= i < tx.len() implies is_digit(ty[i]) == is_digit(tx[i]) by {
        assert(ty[i] == lower_char(tx[i]));
    }
    if all_digits(tx) {
        assert forall|i: int| 0 <= i < tx.len() implies ty[i] == tx[i] by {
            assert(is_digit(tx[i]));
            assert(ty[i] == lower_char(tx[i]));
        }
        assert(ty =~= tx);
    } else {
        assert(!all_digits(ty));
    }
}

/// The `every <count> <unit>` form, applied to what follows `every `: the
/// second and third word of the frequency string. The unit may be days or
/// weeks; a missing word, an unparsable or zero count, a weekly count whose
/// day total exceeds `u32::MAX`, or an unknown unit yields `None` (and the
/// caller then falls back to daily).
pub open spec fn spec_every_interval(r: Seq<char>) -> Option<u32> {
    let a1 = ws_prefix_len(r);
    let l1 = word_len(r.skip(a1));
    let w1 = r.subrange(a1, a1 + l1);
    let r2 = r.skip(a1 + l1);
    let a2 = ws_prefix_len(r2);
    let l2 = word_len(r2.skip(a2));
    let w2 = r2.subrange(a2, a2 + l2);
    if l1 > 0 && l2 > 0 {
        match parse_u32_spec(w1) {
            Some(n) => if n >= 1 {
                if spec_starts_with(w2, "week"@) {
                    if n <= 613566756 {
                        Some((n * 7) as u32)
                    } else {
                        None
                    }
                } else if spec_starts_with(w2, "day"@) {
                    Some(n)
                } else {
                    None
                }
            } else {
                None
            },
            None => None,
        }
    } else {
        None
    }
}

/// What `parse_interval_to_days` returns, on the view of its input.
///
/// Resolution order: the as-needed vocabulary; the named intervals; the
/// `every <count> <unit>` form; and a fail-safe daily default for everything
/// else, so that an unrecognised frequency over-reminds rather than never
/// reminding.
pub open spec fn spec_parse_interval(s: Seq<char>) -> Option<u32> {
    let t = lower(trim(s));
    if is_as_needed(t) {
        None
    } else if t == "daily"@ || t == "every day"@ {
        Some(1u32)
    } else if t == "weekly"@ || t == "every week"@ {
        Some(7u32)
    } else if t == "monthly"@ || t == "every month"@ {
        Some(30u32)
    } else if spec_starts_with(t, "every "@) && spec_every_interval(t.skip(6)) is Some {
        spec_every_interval(t.skip(6))
    } else {
        Some(1u32)
    }
}

/// The parser never returns a zero interval, and it returns `None` exactly
/// on the as-needed vocabulary (case-insensitive, surrounding whitespace
/// ignored): every other input resolves to a positive day count.
pub proof fn lemma_parse_interval_total(s: Seq<char>)
    ensures
        spec_parse_interval(s) matches Some(d) ==> d >= 1,
        (spec_parse_interval(s) is None) <==> is_as_needed(lower(trim(s))),
{
}

/// Parses a medication frequency into days between doses; `None` means the
/// medication is taken as needed and has no schedule.
pub fn parse_interval_to_days(interval: &str) -> (r: Option<u32>)
    ensures
        r == spec_parse_interval(interval@),
{
    let t = trim_str(interval);
    let ghost tl = lower(t@);
    if eq_ignore_case(t, "prn") || eq_ignore_case(t, "as needed") || eq_ignore_case(
        t,
        "as-needed",
    ) || eq_ignore_case(t, "asneeded") || eq_ignore_case(t, "when needed") {
        return None;
    }
    if eq_ignore_case(t, "daily") || eq_ignore_case(t, "every day") {
        return Some(1);
    }
    if eq_ignore_case(t, "weekly") || eq_ignore_case(t, "every week") {
        return Some(7);
    }
    if eq_ignore_case(t, "monthly") || eq_ignore_case(t, "every month") {
        return Some(30);
    }
    if starts_with_ignore_case(t, "every ") {
        proof {
            reveal_strlit("every ");
        }
        let n = t.unicode_len();
        let ghost r = tl.skip(6);
        // skip whitespace before the count
        let mut i1: usize = 6;
        while i1 < n && is_space_char(t.get_char(i1))
            invariant
                n == t@.len(),
                6 <= i1 <= n,
                forall|k: int| 6 <= k < i1 ==> is_space(t@[k]),
            decreases n - i1,
        {
            i1 = i1 + 1;
        }
        // the count word
        let mut j1: usize = i1;
        while j1 < n && !is_space_char(t.get_char(j1))
            invariant
                n == t@.len(),
                i1 <= j1 <= n,
                forall|k: int| i1 <= k < j1 ==> !is_space(t@[k]),
            decreases n - j1,
        {
            j1 = j1 + 1;
        }
        // whitespace before the unit
        let mut i2: usize = j1;
        while i2 < n && is_space_char(t.get_char(i2))
            invariant
                n == t@.len(),
                j1 <= i2 <= n,
                forall|k: int| j1 <= k < i2 ==> is_space(t@[k]),
            decreases n - i2,
        {
            i2 = i2 + 1;
        }
        // the unit word
        let mut j2: usize = i2;
        while j2 < n && !is_space_char(t.get_char(j2))
            invariant
                n == t@.len(),
                i2 <= j2 <= n,
                forall|k: int| i2 <= k < j2 ==> !is_space(t@[k]),
            decreases n - j2,
        {
            j2 = j2 + 1;
        }
        proof {
            lemma_lower_keeps_space(t@);
            assert(r =~= tl.skip(6));
            assert forall|k: int| 0 <= k < r.len() implies is_space(r[k]) == is_space(
                t@[k + 6],
            ) by {
                assert(r[k] == tl[k + 6]);
            }
            lemma_ws_prefix_len_is(r, i1 - 6);
            assert(r.skip(i1 - 6) =~= tl.skip(i1 as int));
            lemma_word_len_is(r.skip(i1 - 6), j1 - i1);
            let r2 = r.skip(i1 - 6 + (j1 - i1));
            assert(r2 =~= tl.skip(j1 as int));
            lemma_ws_prefix_len_is(r2, i2 - j1);
            assert(r2.skip(i2 - j1) =~= tl.skip(i2 as int));
            lemma_word_len_is(r2.skip(i2 - j1), j2 - i2);
        }
        if j1 > i1 && j2 > i2 {
            let w1 = t.substring_char(i1, j1);
            let w2 = t.substring_char(i2, j2);
            proof {
                assert(lower(w1@) =~= lower(t@).subrange(i1 as int, j1 as int));
                assert(lower(w2@) =~= lower(t@).subrange(i2 as int, j2 as int));
                lemma_parse_u32_lower(w1@);
                assert(tl.skip(6).subrange(i1 - 6, i1 - 6 + (j1 - i1)) =~= tl.subrange(
                    i1 as int,
                    j1 as int,
                ));
                assert(tl.skip(j1 as int).subrange(i2 - j1, i2 - j1 + (j2 - i2)) =~= tl.subrange(
                    i2 as int,
                    j2 as int,
                ));
            }
            if let Some(num) = parse_u32_str(w1) {
                if num >= 1 {
                    if starts_with_ignore_case(w2, "week") {
                        if num <= 613566756 {
                            return Some(num * 7);
                        }
                    } else if starts_with_ignore_case(w2, "day") {
                        return Some(num);
                    }
                }
            }
        }
    }
    Some(1)
}

} // verus!

