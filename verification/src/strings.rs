//! Small verified building blocks for text handling: string equality,
//! decimal rendering and parsing, and splitting on a separator character.

use vstd::prelude::*;

verus! {

/// True when `c` is a decimal digit.
pub open spec fn is_digit(c: char) -> bool {
    48 <= c as u32 <= 57
}

/// The numeric value of a decimal digit character.
pub open spec fn digit_val(c: char) -> nat
    recommends
        is_digit(c),
{
    ((c as u32) - 48) as nat
}

/// True when every character of `s` is a decimal digit.
pub open spec fn all_digits(s: Seq<char>) -> bool {
    forall|i: int| 0 <= i < s.len() ==> is_digit(#[trigger] s[i])
}

/// The number denoted by a sequence of decimal digits, most significant first.
pub open spec fn dec_val(s: Seq<char>) -> nat
    recommends
        all_digits(s),
    decreases s.len(),
{
    if s.len() == 0 {
        0
    } else {
        dec_val(s.drop_last()) * 10 + digit_val(s.last())
    }
}

/// The digit character that denotes `d`.
pub open spec fn digit_char(d: nat) -> char
    recommends
        d < 10,
{
    if d == 0 { '0' }
    else if d == 1 { '1' }
    else if d == 2 { '2' }
    else if d == 3 { '3' }
    else if d == 4 { '4' }
    else if d == 5 { '5' }
    else if d == 6 { '6' }
    else if d == 7 { '7' }
    else if d == 8 { '8' }
    else { '9' }
}

/// The decimal rendering of `n`, without leading zeros (a single `'0'` for zero).
pub open spec fn dec_str(n: nat) -> Seq<char>
    decreases n,
{
    if n < 10 {
        seq![digit_char(n)]
    } else {
        dec_str(n / 10).push(digit_char(n % 10))
    }
}

/// Returns the one-character string that denotes the digit `d`.
fn digit_to_str(d: u64) -> (r: &'static str)
    requires
        d < 10,
    ensures
        r@ == seq![digit_char(d as nat)],
{
    proof {
        reveal_strlit("0");
        reveal_strlit("1");
        reveal_strlit("2");
        reveal_strlit("3");
        reveal_strlit("4");
        reveal_strlit("5");
        reveal_strlit("6");
        reveal_strlit("7");
        reveal_strlit("8");
        reveal_strlit("9");
    }
    let r = if d == 0 { "0" }
    else if d == 1 { "1" }
    else if d == 2 { "2" }
    else if d == 3 { "3" }
    else if d == 4 { "4" }
    else if d == 5 { "5" }
    else if d == 6 { "6" }
    else if d == 7 { "7" }
    else if d == 8 { "8" }
    else { "9" };
    proof {
        assert(r@ =~= seq![digit_char(d as nat)]);
    }
    r
}

/// Renders `n` in decimal.
pub fn u64_to_string(n: u64) -> (r: String)
    ensures
        r@ == dec_str(n as nat),
    decreases n,
{
    if n < 10 {
        String::from_str(digit_to_str(n))
    } else {
        let mut s = u64_to_string(n / 10);
        s.append(digit_to_str(n % 10));
        proof {
            assert(dec_str((n / 10) as nat).push(digit_char((n % 10) as nat))
                =~= dec_str((n / 10) as nat) + seq![digit_char((n % 10) as nat)]);
        }
        s
    }
}

/// True when the two strings hold the same characters.
pub fn str_eq(a: &str, b: &str) -> (r: bool)
    ensures
        r == (a@ == b@),
{
    let a_len = a.unicode_len();
    let b_len = b.unicode_len();
    if a_len != b_len {
        return false;
    }
    let mut i: usize = 0;
    while i < a_len
        invariant
            0 <= i <= a_len,
            a_len == a@.len(),
            a_len == b@.len(),
            forall|j: int| 0 <= j < i ==> a@[j] == b@[j],
        decreases a_len - i,
    {
        if a.get_char(i) != b.get_char(i) {
            return false;
        }
        i += 1;
    }
    proof {
        assert(a@ =~= b@);
    }
    true
}

/// The input with one leading `'+'` removed, as the standard integer parser
/// strips it before reading the digits.
pub open spec fn strip_plus(s: Seq<char>) -> Seq<char> {
    if s.len() > 0 && s[0] == '+' {
        s.drop_first()
    } else {
        s
    }
}

/// True when `s` denotes an unsigned 32-bit number: an optional leading
/// `'+'`, then at least one digit, with a value that fits in 32 bits.
pub open spec fn u32_parse_ok(s: Seq<char>) -> bool {
    let digits = strip_plus(s);
    digits.len() > 0 && all_digits(digits) && dec_val(digits) <= u32::MAX
}

/// The value denoted by earlier digits never exceeds the value of the
/// whole digit string.
proof fn lemma_dec_val_prefix_le(s: Seq<char>, j: int)
    requires
        0 <= j <= s.len(),
    ensures
        dec_val(s.take(j)) <= dec_val(s),
    decreases s.len() - j,
{
    if j == s.len() {
        assert(s.take(j) =~= s);
    } else {
        assert(s.take(j + 1).drop_last() =~= s.take(j));
        assert(dec_val(s.take(j + 1)) == dec_val(s.take(j)) * 10 + digit_val(s.take(j + 1).last()));
        lemma_dec_val_prefix_le(s, j + 1);
    }
}

/// Reads an unsigned 32-bit number the way the standard parser does:
/// an optional `'+'`, then decimal digits; anything else, or a value
/// over the 32-bit maximum, is rejected.
pub fn parse_u32(s: &str) -> (r: Option<u32>)
    ensures
        r is Some <==> u32_parse_ok(s@),
        r matches Some(v) ==> v == dec_val(strip_plus(s@)),
{
    let len = s.unicode_len();
    let start: usize = if len > 0 && s.get_char(0) == '+' { 1 } else { 0 };
    let ghost digits = strip_plus(s@);
    proof {
        assert(digits =~= s@.skip(start as int));
    }
    if start == len {
        return None;
    }
    let mut acc: u64 = 0;
    let mut i: usize = start;
    while i < len
        invariant
            start <= i <= len,
            len == s@.len(),
            digits == strip_plus(s@),
            digits == s@.skip(start as int),
            all_digits(digits.take(i - start)),
            acc == dec_val(digits.take(i - start)),
            acc <= u32::MAX,
        decreases len - i,
    {
        let c = s.get_char(i);
        let code = c as u32;
        if code < 48 || code > 57 {
            proof {
                assert(digits[i - start] == s@[i as int]);
                assert(!is_digit(digits[i - start]));
                assert(!all_digits(digits));
            }
            return None;
        }
        let d: u64 = (code - 48) as u64;
        proof {
            assert(digits.take(i - start + 1).drop_last() =~= digits.take(i - start));
            assert(digits.take(i - start + 1).last() == s@[i as int]);
            assert(digit_val(s@[i as int]) == d);
        }
        acc = acc * 10 + d;
        proof {
            assert(acc == dec_val(digits.take(i - start + 1)));
            assert(all_digits(digits.take(i - start + 1)));
        }
        if acc > u32::MAX as u64 {
            proof {
                lemma_dec_val_prefix_le(digits, i - start + 1);
                assert(dec_val(digits) > u32::MAX);
            }
            return None;
        }
        i += 1;
    }
    proof {
        assert(digits.take(len - start) =~= digits);
    }
    Some(acc as u32)
}

/// The segments of `s` delimited by `sep`: splitting the empty string
/// gives one empty segment, and each separator starts a new segment.
pub open spec fn split_at(s: Seq<char>, sep: char) -> Seq<Seq<char>>
    decreases s.len(),
{
    if s.len() == 0 {
        seq![Seq::<char>::empty()]
    } else {
        let rest = split_at(s.drop_first(), sep);
        if s[0] == sep {
            seq![Seq::<char>::empty()] + rest
        } else {
            seq![seq![s[0]] + rest[0]] + rest.drop_first()
        }
    }
}

/// Splitting always yields at least one segment.
pub proof fn lemma_split_at_len(s: Seq<char>, sep: char)
    ensures
        split_at(s, sep).len() >= 1,
    decreases s.len(),
{
    if s.len() > 0 {
        lemma_split_at_len(s.drop_first(), sep);
    }
}

/// A string without the separator splits into itself alone.
proof fn lemma_split_at_no_sep(s: Seq<char>, sep: char)
    requires
        forall|j: int| 0 <= j < s.len() ==> s[j] != sep,
    ensures
        split_at(s, sep) =~= seq![s],
    decreases s.len(),
{
    if s.len() == 0 {
        assert(Seq::<char>::empty() =~= s);
    } else {
        lemma_split_at_no_sep(s.drop_first(), sep);
        assert(seq![s[0]] + s.drop_first() =~= s);
        assert(split_at(s, sep) =~= seq![s]);
    }
}

/// Splitting at the first separator: the head segment is everything
/// before it, and the remaining segments split the rest.
proof fn lemma_split_at_first_sep(s: Seq<char>, sep: char, k: int)
    requires
        0 <= k < s.len(),
        s[k] == sep,
        forall|j: int| 0 <= j < k ==> s[j] != sep,
    ensures
        split_at(s, sep) == seq![s.take(k)] + split_at(s.skip(k + 1), sep),
    decreases k,
{
    lemma_split_at_len(s.skip(k + 1), sep);
    if k == 0 {
        assert(s.take(0) =~= Seq::<char>::empty());
        assert(s.drop_first() =~= s.skip(1));
        assert(split_at(s, sep) =~= seq![s.take(0)] + split_at(s.skip(1), sep));
    } else {
        let t = s.drop_first();
        lemma_split_at_first_sep(t, sep, k - 1);
        lemma_split_at_len(t.skip(k), sep);
        assert(t.take(k - 1) =~= s.take(k).drop_first());
        assert(t.skip(k) =~= s.skip(k + 1));
        assert(seq![s[0]] + s.take(k).drop_first() =~= s.take(k));
        assert((seq![s.take(k).drop_first()] + split_at(s.skip(k + 1), sep)).drop_first()
            =~= split_at(s.skip(k + 1), sep));
        assert(split_at(s, sep) =~= seq![s.take(k)] + split_at(s.skip(k + 1), sep));
    }
}

/// Splits `s` into the segments delimited by `sep`.
pub fn split_string(s: &str, sep: char) -> (r: Vec<String>)
    ensures
        r@.map_values(|t: String| t@) == split_at(s@, sep),
{
    let len = s.unicode_len();
    let mut segs: Vec<String> = Vec::new();
    let mut seg_start: usize = 0;
    let mut i: usize = 0;
    proof {
        assert(s@.skip(0) =~= s@);
        assert(segs@.map_values(|t: String| t@) + split_at(s@, sep) =~= split_at(s@, sep));
    }
    while i < len
        invariant
            0 <= seg_start <= i <= len,
            len == s@.len(),
            forall|j: int| seg_start <= j < i ==> s@[j] != sep,
            split_at(s@, sep) == segs@.map_values(|t: String| t@)
                + split_at(s@.skip(seg_start as int), sep),
        decreases len - i,
    {
        let c = s.get_char(i);
        if c == sep {
            let ghost tail = s@.skip(seg_start as int);
            proof {
                assert(tail[i - seg_start] == sep);
                assert(forall|j: int| 0 <= j < i - seg_start ==> tail[j] != sep);
                lemma_split_at_first_sep(tail, sep, i - seg_start);
                assert(tail.take(i - seg_start) =~= s@.subrange(seg_start as int, i as int));
                assert(tail.skip(i - seg_start + 1) =~= s@.skip(i + 1));
            }
            let piece = s.substring_char(seg_start, i).to_owned();
            let ghost old_segs = segs@;
            segs.push(piece);
            proof {
                assert(segs@.map_values(|t: String| t@)
                    =~= old_segs.map_values(|t: String| t@) + seq![s@.subrange(seg_start as int, i as int)]);
                assert(split_at(s@, sep) == segs@.map_values(|t: String| t@)
                    + split_at(s@.skip(i + 1), sep));
            }
            seg_start = i + 1;
        }
        i += 1;
    }
    let ghost tail = s@.skip(seg_start as int);
    proof {
        lemma_split_at_no_sep(tail, sep);
    }
    let piece = s.substring_char(seg_start, len).to_owned();
    let ghost old_segs = segs@;
    segs.push(piece);
    proof {
        assert(tail =~= s@.subrange(seg_start as int, len as int));
        assert(segs@.map_values(|t: String| t@)
            =~= old_segs.map_values(|t: String| t@) + seq![tail]);
        assert(segs@.map_values(|t: String| t@) =~= split_at(s@, sep));
    }
    segs
}

} // verus!
