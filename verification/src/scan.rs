//! Low-level scanning primitives: fixed-literal matching, greedy
//! character-class runs, whitespace skipping and decimal-integer
//! reading, each specified against a model over sequences of characters.

use vstd::prelude::*;
use vstd::string::StrSliceExecFns;
use vstd::string::StringExecFns;

use crate::ast::ASTNode;
use crate::ast::NodeV;

verus! {

/// The membership sets that character-run parsers draw from: the
/// characters allowed inside string literals, the decimal digits, and
/// the whitespace characters (space and newline).
#[derive(Clone, Copy, PartialEq, Eq, Debug)]
pub enum CharClass {
    StringChars,
    NumberChars,
    SpaceChars,
}

pub open spec fn is_string_char(c: char) -> bool {
    ('A' <= c && c <= 'Z') || ('a' <= c && c <= 'z') || ('0' <= c && c <= '9') || c == '-' || c
        == '@' || c == '.'
}

pub open spec fn is_digit_char(c: char) -> bool {
    '0' <= c && c <= '9'
}

pub open spec fn is_space_char(c: char) -> bool {
    c == ' ' || c == '\n'
}

impl CharClass {
    pub open spec fn spec_contains(self, c: char) -> bool {
        match self {
            CharClass::StringChars => is_string_char(c),
            CharClass::NumberChars => is_digit_char(c),
            CharClass::SpaceChars => is_space_char(c),
        }
    }

    /// Whether `c` belongs to the membership set.
    pub fn contains(self, c: char) -> (r: bool)
        ensures
            r == self.spec_contains(c),
    {
        match self {
            CharClass::StringChars => ('A' <= c && c <= 'Z') || ('a' <= c && c <= 'z') || ('0' <= c
                && c <= '9') || c == '-' || c == '@' || c == '.',
            CharClass::NumberChars => '0' <= c && c <= '9',
            CharClass::SpaceChars => c == ' ' || c == '\n',
        }
    }
}

/// Length of the longest prefix of `s` whose characters all belong to
/// the class `cc`.
pub open spec fn run_len(cc: CharClass, s: Seq<char>) -> nat
    decreases s.len(),
{
    if s.len() > 0 && cc.spec_contains(s[0]) {
        1 + run_len(cc, s.skip(1))
    } else {
        0
    }
}

pub broadcast proof fn lemma_run_len_le(cc: CharClass, s: Seq<char>)
    ensures
        #[trigger] run_len(cc, s) <= s.len(),
    decreases s.len(),
{
    reveal_with_fuel(run_len, 2);
    if s.len() > 0 && cc.spec_contains(s[0]) {
        lemma_run_len_le(cc, s.skip(1));
    }
}

/// The run is exactly `k` when the first `k` characters are members and
/// the character after them (if any) is not.
pub proof fn lemma_run_len_is(cc: CharClass, s: Seq<char>, k: int)
    requires
        0 <= k <= s.len(),
        forall|j: int| 0 <= j < k ==> cc.spec_contains(#[trigger] s[j]),
        k < s.len() ==> !cc.spec_contains(s[k]),
    ensures
        run_len(cc, s) == k,
    decreases s.len(),
{
    reveal_with_fuel(run_len, 2);
    if k > 0 {
        lemma_run_len_is(cc, s.skip(1), k - 1);
    }
}

/// The suffix of `s` that remains after the leading run of whitespace.
pub open spec fn skip_ws(s: Seq<char>) -> Seq<char> {
    s.skip(run_len(CharClass::SpaceChars, s) as int)
}

pub broadcast proof fn lemma_skip_ws_le(s: Seq<char>)
    ensures
        (#[trigger] skip_ws(s)).len() <= s.len(),
{
    lemma_run_len_le(CharClass::SpaceChars, s);
}

/// `s` with the literal `lit` stripped from its front, or nothing when
/// `s` does not start with `lit`.
pub open spec fn strip_lit(lit: Seq<char>, s: Seq<char>) -> Option<Seq<char>> {
    if lit.len() <= s.len() && s.take(lit.len() as int) == lit {
        Some(s.skip(lit.len() as int))
    } else {
        None
    }
}

/// The first `n` characters of `s`, or all of `s` when it is shorter;
/// used for diagnostic excerpts in failure messages.
pub fn prefix<'a>(s: &'a str, n: usize) -> (r: &'a str)
    ensures
        r@ == s@.take(if n <= s@.len() { n as int } else { s@.len() as int }),
{
    let len: usize = s.unicode_len();
    let k: usize = if n <= len {
        n
    } else {
        len
    };
    let r = s.substring_char(0, k);
    proof {
        assert(r@ =~= s@.take(k as int));
    }
    r
}

/// Builds a failure message from a fixed description and a short
/// excerpt of the offending input.
pub(crate) fn describe_failure(what: &str, input: &str) -> String {
    let mut m = String::from_str(what);
    m.append(prefix(input, 10));
    m
}

/// Greedily consumes the longest prefix of `input` whose characters all
/// belong to `available_characters`; always succeeds and always
/// produces a `String` fragment of the consumed span, even when it is
/// empty.
pub fn parse_character_string<'a>(input: &'a str, available_characters: CharClass) -> (r: (
    &'a str,
    Option<ASTNode<'a>>,
))
    ensures
        r.0@ == input@.skip(run_len(available_characters, input@) as int),
        r.1 matches Some(node) && node@ == NodeV::String(
            input@.take(run_len(available_characters, input@) as int),
        ),
{
    let (rest, span) = split_run(input, available_characters);
    (rest, Some(ASTNode::String(span)))
}

/// Splits `input` into the longest prefix made of members of `cc` and
/// the remainder.
pub(crate) fn split_run<'a>(input: &'a str, cc: CharClass) -> (r: (&'a str, &'a str))
    ensures
        r.0@ == input@.skip(run_len(cc, input@) as int),
        r.1@ == input@.take(run_len(cc, input@) as int),
{
    let len: usize = input.unicode_len();
    let mut k: usize = 0;
    while k < len && cc.contains(input.get_char(k))
        invariant
            0 <= k <= len,
            len == input@.len(),
            forall|j: int| 0 <= j < k ==> cc.spec_contains(#[trigger] input@[j]),
        decreases len - k,
    {
        k = k + 1;
    }
    proof {
        lemma_run_len_is(cc, input@, k as int);
    }
    let rest = input.substring_char(k, len);
    let span = input.substring_char(0, k);
    proof {
        assert(rest@ =~= input@.skip(k as int));
        assert(span@ =~= input@.take(k as int));
    }
    (rest, span)
}

/// Consumes `lit` from the front of `input`, or fails without consuming
/// anything.
pub(crate) fn match_literal<'a>(input: &'a str, lit: &str) -> (r: Option<&'a str>)
    ensures
        match strip_lit(lit@, input@) {
            Some(rest) => r matches Some(q) && q@ == rest,
            None => r is None,
        },
{
    let ll: usize = lit.unicode_len();
    let il: usize = input.unicode_len();
    if ll > il {
        return None;
    }
    let mut k: usize = 0;
    while k < ll
        invariant
            0 <= k <= ll,
            ll == lit@.len(),
            il == input@.len(),
            ll <= il,
            forall|j: int| 0 <= j < k ==> input@[j] == lit@[j],
        decreases ll - k,
    {
        if input.get_char(k) != lit.get_char(k) {
            proof {
                assert(input@.take(ll as int)[k as int] != lit@[k as int]);
            }
            return None;
        }
        k = k + 1;
    }
    let rest = input.substring_char(ll, il);
    proof {
        assert(input@.take(ll as int) =~= lit@);
        assert(rest@ =~= input@.skip(ll as int));
    }
    Some(rest)
}

/// Consumes the maximal run of spaces and newlines from the front of
/// `input`; always succeeds.
pub(crate) fn eat_whitespace<'a>(input: &'a str) -> (r: &'a str)
    ensures
        r@ == skip_ws(input@),
{
    let (rest, _) = parse_character_string(input, CharClass::SpaceChars);
    rest
}

/// Value of a sequence of decimal digits, most significant first.
pub open spec fn digits_val(s: Seq<char>) -> int
    decreases s.len(),
{
    if s.len() == 0 {
        0
    } else {
        digits_val(s.drop_last()) * 10 + (s.last() as int - '0' as int)
    }
}

pub proof fn lemma_digits_val_nonneg(s: Seq<char>)
    requires
        forall|j: int| 0 <= j < s.len() ==> is_digit_char(#[trigger] s[j]),
    ensures
        digits_val(s) >= 0,
    decreases s.len(),
{
    reveal_with_fuel(digits_val, 2);
    if s.len() > 0 {
        lemma_digits_val_nonneg(s.drop_last());
    }
}

/// Reading more digits can only increase the value: the value of a
/// prefix is a lower bound for the value of the whole run.
pub proof fn lemma_digits_val_prefix_le(s: Seq<char>, k: int)
    requires
        0 <= k <= s.len(),
        forall|j: int| 0 <= j < s.len() ==> is_digit_char(#[trigger] s[j]),
    ensures
        digits_val(s.take(k)) <= digits_val(s),
    decreases s.len(),
{
    reveal_with_fuel(digits_val, 2);
    if k < s.len() {
        assert(s.take(k) =~= s.drop_last().take(k));
        lemma_digits_val_prefix_le(s.drop_last(), k);
        lemma_digits_val_nonneg(s.drop_last());
    } else {
        assert(s.take(k) =~= s);
    }
}

/// Parsing an optionally signed run of decimal digits: fails when no
/// digit is present or when the magnitude does not fit the bounded
/// number type; otherwise yields the signed value and the remainder.
pub open spec fn spec_int(s: Seq<char>) -> Option<(Seq<char>, int)> {
    let neg = s.len() > 0 && s[0] == '-';
    let t = if neg {
        s.skip(1)
    } else {
        s
    };
    let k = run_len(CharClass::NumberChars, t) as int;
    if k == 0 {
        None
    } else {
        let v = digits_val(t.take(k));
        if v > i32::MAX as int {
            None
        } else {
            Some((t.skip(k), if neg { -v } else { v }))
        }
    }
}

/// Reads an optionally signed decimal integer from the front of
/// `input`. Fails when no digit follows the optional sign, or when the
/// digit run's value exceeds `i32::MAX` (so the most negative value is
/// not accepted either, mirroring sign-after-magnitude parsing).
pub fn scan_int<'a>(input: &'a str) -> (r: Option<(&'a str, i32)>)
    ensures
        match spec_int(input@) {
            Some(sv) => r matches Some(p) && p.0@ == sv.0 && p.1 as int == sv.1,
            None => r is None,
        },
{
    let len: usize = input.unicode_len();
    let start: usize = if len > 0 && input.get_char(0) == '-' {
        1
    } else {
        0
    };
    let ghost neg = start == 1;
    let ghost t = if neg {
        input@.skip(1)
    } else {
        input@
    };
    proof {
        assert(neg ==> t =~= input@.skip(1));
    }
    // Find the end of the digit run.
    let mut k: usize = start;
    while k < len && input.get_char(k) >= '0' && input.get_char(k) <= '9'
        invariant
            start <= k <= len,
            len == input@.len(),
            start <= 1,
            forall|j: int| start <= j < k ==> is_digit_char(#[trigger] input@[j]),
        decreases len - k,
    {
        k = k + 1;
    }
    proof {
        assert(forall|j: int|
            0 <= j < k - start ==> t[j] == input@[j + start] && is_digit_char(#[trigger] t[j]));
        assert(k < len ==> !is_digit_char(t[k - start]));
        lemma_run_len_is(CharClass::NumberChars, t, k - start);
    }
    if k == start {
        return None;
    }
    let ghost digits = t.take(k - start);
    proof {
        assert(digits =~= input@.subrange(start as int, k as int));
        assert(forall|j: int| 0 <= j < digits.len() ==> is_digit_char(#[trigger] digits[j]));
    }
    // Accumulate the value, giving up as soon as it exceeds i32::MAX.
    let mut v: u64 = 0;
    let mut j: usize = start;
    while j < k
        invariant
            start <= j <= k <= len,
            len == input@.len(),
            start == 1 <==> (input@.len() > 0 && input@[0] == '-'),
            start <= 1,
            t == if start == 1 { input@.skip(1) } else { input@ },
            run_len(CharClass::NumberChars, t) == k - start,
            k > start,
            digits == t.take(k - start),
            digits == input@.subrange(start as int, k as int),
            forall|i: int| 0 <= i < digits.len() ==> is_digit_char(#[trigger] digits[i]),
            v == digits_val(digits.take(j - start)),
            v <= i32::MAX,
        decreases k - j,
    {
        let c = input.get_char(j);
        proof {
            reveal_with_fuel(digits_val, 2);
            assert(c == digits[j - start]);
            assert(digits.take(j + 1 - start).drop_last() =~= digits.take(j - start));
            assert(digits.take(j + 1 - start).last() == c);
            assert(digits_val(digits.take(j + 1 - start)) == digits_val(digits.take(j - start)) * 10
                + (c as int - '0' as int));
        }
        let d: u64 = (c as u32 as u64) - ('0' as u32 as u64);
        v = v * 10 + d;
        j = j + 1;
        if v > i32::MAX as u64 {
            proof {
                lemma_digits_val_prefix_le(digits, j - start);
                assert(digits_val(digits) > i32::MAX as int);
            }
            return None;
        }
    }
    proof {
        assert(digits.take(k - start) =~= digits);
    }
    let magnitude: i32 = v as i32;
    let rest = input.substring_char(k, len);
    proof {
        assert(rest@ =~= t.skip(k - start));
    }
    if start == 1 {
        Some((rest, 0 - magnitude))
    } else {
        Some((rest, magnitude))
    }
}

} // verus!
