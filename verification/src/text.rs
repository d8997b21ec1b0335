//! Text helpers of the record decoder: reading an address number as an
//! unsigned 32-bit integer, and splitting a name list on commas.

use vstd::prelude::*;

verus! {

/// An ASCII decimal digit.
pub open spec fn is_digit(c: char) -> bool {
    '0' <= c <= '9'
}

/// The value of a digit character.
pub open spec fn digit_val(c: char) -> int {
    c as int - '0' as int
}

/// Every character of `s` is a digit.
pub open spec fn all_digits(s: Seq<char>) -> bool {
    forall|i: int| 0 <= i < s.len() ==> is_digit(s[i])
}

/// The base-ten value of a digit string.
pub open spec fn digits_val(s: Seq<char>) -> int
    decreases s.len(),
{
    if s.len() == 0 {
        0
    } else {
        digits_val(s.drop_last()) * 10 + digit_val(s.last())
    }
}

/// The digit part of a decimal string: what stands after an optional
/// leading `+`.
pub open spec fn parse_body(s: Seq<char>) -> Seq<char> {
    if s.len() > 0 && s[0] == '+' {
        s.skip(1)
    } else {
        s
    }
}

/// What parsing `s` as a `u32` yields: an optional leading `+`, then one or
/// more ASCII digits whose value fits in 32 bits; anything else is refused.
pub open spec fn parse_u32_spec(s: Seq<char>) -> Option<u32> {
    let body = parse_body(s);
    if body.len() > 0 && all_digits(body) && digits_val(body) <= u32::MAX {
        Some(digits_val(body) as u32)
    } else {
        None
    }
}

/// A digit string's value never shrinks as digits are appended.
proof fn lemma_digits_val_grows(s: Seq<char>, k: int)
    requires
        0 <= k <= s.len(),
        all_digits(s),
    ensures
        digits_val(s) >= digits_val(s.take(k)),
        digits_val(s) >= 0,
    decreases s.len() - k,
{
    if k == s.len() {
        assert(s.take(k) =~= s);
        lemma_digits_val_nonneg(s);
    } else {
        lemma_digits_val_grows(s, k + 1);
        lemma_digits_val_nonneg(s.take(k));
        assert(s.take(k + 1).drop_last() =~= s.take(k));
        assert(digits_val(s.take(k + 1)) == digits_val(s.take(k)) * 10 + digit_val(s.take(k + 1).last()));
        assert(digits_val(s.take(k)) * 10 >= digits_val(s.take(k))) by (nonlinear_arith)
            requires
                digits_val(s.take(k)) >= 0,
        ;
    }
}

/// A digit string's value is never negative.
proof fn lemma_digits_val_nonneg(s: Seq<char>)
    requires
        all_digits(s),
    ensures
        digits_val(s) >= 0,
    decreases s.len(),
{
    if s.len() > 0 {
        assert(all_digits(s.drop_last()));
        lemma_digits_val_nonneg(s.drop_last());
        assert(digits_val(s.drop_last()) * 10 >= 0) by (nonlinear_arith)
            requires
                digits_val(s.drop_last()) >= 0,
        ;
    }
}

/// Parse a string as an unsigned 32-bit integer, exactly as the standard
/// decimal grammar has it.
pub fn parse_u32(s: &str) -> (r: Option<u32>)
    ensures
        r == parse_u32_spec(s@),
{
    let n = s.unicode_len();
    let mut start: usize = 0;
    if n > 0 && s.get_char(0) == '+' {
        start = 1;
    }
    let ghost body = parse_body(s@);
    assert(body =~= s@.subrange(start as int, n as int));
    if start >= n {
        return None;
    }
    let mut val: u64 = 0;
    let mut i: usize = start;
    while i < n
        invariant
            start <= i <= n,
            n == s@.len(),
            start <= 1,
            body == parse_body(s@),
            body == s@.subrange(start as int, n as int),
            all_digits(s@.subrange(start as int, i as int)),
            val == digits_val(s@.subrange(start as int, i as int)),
            val <= u32::MAX,
        decreases n - i,
    {
        let c = s.get_char(i);
        proof {
            assert(body.take(i - start) =~= s@.subrange(start as int, i as int));
            assert(body.take(i + 1 - start) =~= s@.subrange(start as int, i + 1 as int));
            assert(body.take(i + 1 - start).drop_last() =~= body.take(i - start));
        }
        if !('0' <= c && c <= '9') {
            assert(!all_digits(body)) by {
                assert(body[i - start] == c);
            }
            return None;
        }
        let d = (c as u64) - 48;
        assert(d == digit_val(c));
        let next = val * 10 + d;
        assert(next == digits_val(s@.subrange(start as int, i + 1 as int)));
        if next > 0xFFFF_FFFF {
            assert(parse_u32_spec(s@) is None) by {
                if all_digits(body) {
                    lemma_digits_val_grows(body, i + 1 - start);
                }
            }
            return None;
        }
        val = next;
        i += 1;
    }
    proof {
        assert(s@.subrange(start as int, n as int) =~= body);
    }
    Some(val as u32)
}

/// The decimal rendering of an unsigned number: most significant digit
/// first, no sign, no leading zero but for the number zero itself.
pub open spec fn u32_dec(v: int) -> Seq<char>
    decreases v,
{
    if v < 0 {
        Seq::empty()
    } else if v < 10 {
        seq!["0123456789"@[v]]
    } else {
        u32_dec(v / 10).push("0123456789"@[v % 10])
    }
}

/// Render an unsigned 32-bit number as its decimal text, as an address
/// number is shown.
pub fn u32_to_string(v: u32) -> (r: String)
    ensures
        r@ == u32_dec(v as int),
    decreases v,
{
    let digits = "0123456789";
    proof {
        reveal_strlit("0123456789");
    }
    if v < 10 {
        let piece = digits.substring_ascii(v as usize, v as usize + 1);
        proof {
            assert(piece@ =~= seq!["0123456789"@[v as int]]);
        }
        piece.to_owned()
    } else {
        let mut s = u32_to_string(v / 10);
        let d = (v % 10) as usize;
        let piece = digits.substring_ascii(d, d + 1);
        proof {
            assert(piece@ =~= seq!["0123456789"@[v as int % 10]]);
        }
        s.append(piece);
        proof {
            assert(s@ =~= u32_dec(v as int / 10).push("0123456789"@[v as int % 10]));
        }
        s
    }
}

/// Where the first comma of `s` stands.
pub open spec fn first_comma(s: Seq<char>) -> int
    decreases s.len(),
{
    if s.len() == 0 {
        0
    } else if s[0] == ',' {
        0
    } else {
        1 + first_comma(s.skip(1))
    }
}

/// The pieces of `s` between its commas, in order, empty pieces kept: one
/// piece when there is no comma at all.
pub open spec fn split_commas(s: Seq<char>) -> Seq<Seq<char>>
    decreases s.len(),
{
    if !s.contains(',') {
        seq![s]
    } else {
        let i = first_comma(s);
        if 0 <= i < s.len() {
            seq![s.take(i)] + split_commas(s.skip(i + 1))
        } else {
            seq![s]
        }
    }
}

/// `first_comma` points at the first comma when there is one.
proof fn lemma_first_comma(s: Seq<char>)
    requires
        s.contains(','),
    ensures
        0 <= first_comma(s) < s.len(),
        s[first_comma(s)] == ',',
        forall|j: int| 0 <= j < first_comma(s) ==> s[j] != ',',
    decreases s.len(),
{
    if s.len() > 0 && s[0] != ',' {
        assert(s.skip(1).contains(',')) by {
            let i = choose|i: int| 0 <= i < s.len() && s[i] == ',';
            assert(s.skip(1)[i - 1] == ',');
        }
        lemma_first_comma(s.skip(1));
        assert forall|j: int| 0 <= j < first_comma(s) implies s[j] != ',' by {
            if j > 0 {
                assert(s.skip(1)[j - 1] == s[j]);
            }
        }
    }
}

/// Splitting steps over the piece before the first comma.
proof fn lemma_split_step(s: Seq<char>, i: int)
    requires
        0 <= i < s.len(),
        s[i] == ',',
        forall|j: int| 0 <= j < i ==> s[j] != ',',
    ensures
        split_commas(s) == seq![s.take(i)] + split_commas(s.skip(i + 1)),
{
    assert(s.contains(','));
    lemma_first_comma(s);
    let f = first_comma(s);
    assert(f == i) by {
        if f < i {
            assert(s[f] != ',');
        }
        if i < f {
            assert(s[i] != ',');
        }
    }
}

/// Split a string on commas, keeping empty pieces, as the name list of a
/// record is split.
pub fn split_commas_exec(s: &str) -> (r: Vec<String>)
    ensures
        r@.map_values(|t: String| t@) =~= split_commas(s@),
{
    let n = s.unicode_len();
    let mut r: Vec<String> = Vec::new();
    let mut start: usize = 0;
    let mut i: usize = 0;
    proof {
        assert(s@.skip(0) =~= s@);
        assert(r@.map_values(|t: String| t@) + split_commas(s@) =~= split_commas(s@));
    }
    while i < n
        invariant
            0 <= start <= i <= n,
            n == s@.len(),
            forall|j: int| start <= j < i ==> s@[j] != ',',
            split_commas(s@) =~= r@.map_values(|t: String| t@) + split_commas(s@.skip(start as int)),
        decreases n - i,
    {
        let c = s.get_char(i);
        if c == ',' {
            let piece = s.substring_char(start, i).to_owned();
            proof {
                let tail = s@.skip(start as int);
                assert(forall|j: int| 0 <= j < i - start ==> tail[j] == s@[j + start] && tail[j] != ',');
                assert(tail[i - start] == ',');
                lemma_split_step(tail, i - start);
                assert(tail.take(i - start) =~= s@.subrange(start as int, i as int));
                assert(tail.skip(i - start + 1) =~= s@.skip(i + 1 as int));
            }
            let ghost oldr = r@;
            r.push(piece);
            proof {
                assert(r@.map_values(|t: String| t@) =~= oldr.map_values(|t: String| t@).push(
                    s@.subrange(start as int, i as int),
                ));
            }
            start = i + 1;
        }
        i += 1;
    }
    let piece = s.substring_char(start, n).to_owned();
    proof {
        let tail = s@.skip(start as int);
        assert(!tail.contains(',')) by {
            assert forall|j: int| 0 <= j < tail.len() implies tail[j] != ',' by {
                assert(tail[j] == s@[j + start]);
            }
        }
        assert(split_commas(tail) == seq![tail]);
        assert(tail =~= s@.subrange(start as int, n as int));
    }
    let ghost oldr = r@;
    r.push(piece);
    proof {
        assert(r@.map_values(|t: String| t@) =~= oldr.map_values(|t: String| t@).push(
            s@.subrange(start as int, n as int),
        ));
    }
    r
}

} // verus!
