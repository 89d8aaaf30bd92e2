//! Small helpers for character-level string handling.

use vstd::prelude::*;
use vstd::string::StrSliceExecFns;

verus! {

/// Compares two string slices character by character.
pub fn str_eq(a: &str, b: &str) -> (r: bool)
    ensures
        r == (a@ == b@),
{
    let a_len = a.unicode_len();
    let b_len = b.unicode_len();
    if a_len != b_len {
        assert(a@ != b@) by {
            assert(a@.len() != b@.len());
        }
        return false;
    }
    let mut i: usize = 0;
    while i < a_len
        invariant
            a_len == a@.len(),
            b_len == b@.len(),
            a_len == b_len,
            0 <= i <= a_len,
            forall|j: int| 0 <= j < i ==> a@[j] == b@[j],
        decreases a_len - i,
    {
        if a.get_char(i) != b.get_char(i) {
            return false;
        }
        i += 1;
    }
    proof {
        assert(a@ =~= b@);
    }
    true
}

/// Relies on `String`'s `FromIterator<char>` impl: collecting characters
/// yields the string of exactly those characters.
#[verifier::external_body]
pub fn chars_to_string(v: Vec<char>) -> (r: String)
    ensures
        r@ == v@,
{
    v.into_iter().collect()
}

/// The characters of a string slice.
pub fn str_chars(s: &str) -> (r: Vec<char>)
    ensures
        r@ == s@,
{
    let len = s.unicode_len();
    let mut r: Vec<char> = Vec::new();
    let mut i: usize = 0;
    while i < len
        invariant
            len == s@.len(),
            i <= len,
            r@ == s@.subrange(0, i as int),
        decreases len - i,
    {
        r.push(s.get_char(i));
        proof {
            assert(r@ =~= s@.subrange(0, i + 1));
        }
        i += 1;
    }
    proof {
        assert(r@ =~= s@);
    }
    r
}

/// Whether a character counts as horizontal whitespace here.
pub open spec fn spec_is_space(c: char) -> bool {
    c == ' ' || c == '\t' || c == '\r'
}

/// The number of leading spaces of a character sequence.
pub open spec fn spec_leading_spaces(s: Seq<char>) -> int
    decreases s.len(),
{
    if s.len() == 0 || !spec_is_space(s[0]) {
        0
    } else {
        1 + spec_leading_spaces(s.drop_first())
    }
}

/// The number of trailing spaces of a character sequence.
pub open spec fn spec_trailing_spaces(s: Seq<char>) -> int
    decreases s.len(),
{
    if s.len() == 0 || !spec_is_space(s.last()) {
        0
    } else {
        1 + spec_trailing_spaces(s.drop_last())
    }
}

/// A character sequence with its leading and trailing spaces stripped;
/// an all-space sequence trims to nothing.
pub open spec fn spec_trim(s: Seq<char>) -> Seq<char> {
    let lo = spec_leading_spaces(s);
    let hi = s.len() - spec_trailing_spaces(s);
    if lo <= hi {
        s.subrange(lo, hi)
    } else {
        Seq::empty()
    }
}

/// A boundary whose prefix is all spaces and which sits on a non-space
/// (or the end) is the leading-space count.
proof fn lemma_leading_spaces_at(s: Seq<char>, lo: int)
    requires
        0 <= lo <= s.len(),
        forall|i: int| 0 <= i < lo ==> spec_is_space(#[trigger] s[i]),
        lo == s.len() || !spec_is_space(s[lo]),
    ensures
        spec_leading_spaces(s) == lo,
    decreases s.len(),
{
    if s.len() > 0 && spec_is_space(s[0]) {
        let rest = s.drop_first();
        assert forall|i: int| 0 <= i < lo - 1 implies spec_is_space(#[trigger] rest[i]) by {
            assert(rest[i] == s[i + 1]);
        }
        assert(lo >= 1);
        if lo - 1 < rest.len() {
            assert(rest[lo - 1] == s[lo as int]);
        }
        lemma_leading_spaces_at(rest, lo - 1);
    }
}

/// A boundary whose suffix is all spaces and which sits after a
/// non-space (or the start) is the end of the trimmed range.
proof fn lemma_trailing_spaces_at(s: Seq<char>, hi: int)
    requires
        0 <= hi <= s.len(),
        forall|i: int| hi <= i < s.len() ==> spec_is_space(#[trigger] s[i]),
        hi == 0 || !spec_is_space(s[hi - 1]),
    ensures
        spec_trailing_spaces(s) == s.len() - hi,
    decreases s.len(),
{
    if s.len() > 0 && spec_is_space(s.last()) {
        assert(hi < s.len());
        let rest = s.drop_last();
        assert forall|i: int| hi <= i < rest.len() implies spec_is_space(#[trigger] rest[i]) by {
            assert(rest[i] == s[i]);
        }
        if hi > 0 {
            assert(rest[hi - 1] == s[hi - 1]);
        }
        lemma_trailing_spaces_at(rest, hi);
    }
}

/// Strips leading and trailing spaces from a character sequence.
pub fn trim_chars(v: &Vec<char>) -> (r: Vec<char>)
    ensures
        r@ == spec_trim(v@),
        r@.len() <= v@.len(),
        r@.len() == 0 ==> forall|i: int| 0 <= i < v@.len() ==> spec_is_space(#[trigger] v@[i]),
{
    let mut lo: usize = 0;
    while lo < v.len() && (v[lo] == ' ' || v[lo] == '\t' || v[lo] == '\r')
        invariant
            lo <= v@.len(),
            forall|i: int| 0 <= i < lo ==> spec_is_space(#[trigger] v@[i]),
        decreases v@.len() - lo,
    {
        lo += 1;
    }
    let mut hi: usize = v.len();
    while hi > lo && (v[hi - 1] == ' ' || v[hi - 1] == '\t' || v[hi - 1] == '\r')
        invariant
            lo <= hi <= v@.len(),
            forall|i: int| 0 <= i < lo ==> spec_is_space(#[trigger] v@[i]),
            forall|i: int| hi <= i < v@.len() ==> spec_is_space(#[trigger] v@[i]),
        decreases hi,
    {
        hi -= 1;
    }
    proof {
        if hi > lo {
            lemma_leading_spaces_at(v@, lo as int);
            lemma_trailing_spaces_at(v@, hi as int);
        } else {
            // the loops met: the whole sequence is spaces
            assert(lo == v@.len()) by {
                if lo < v@.len() {
                    assert(spec_is_space(v@[lo as int]));
                }
            }
            lemma_leading_spaces_at(v@, lo as int);
            lemma_trailing_spaces_at(v@, 0);
        }
    }
    let mut r: Vec<char> = Vec::new();
    let mut i: usize = lo;
    while i < hi
        invariant
            lo <= i <= hi <= v@.len(),
            lo <= v@.len(),
            forall|j: int| 0 <= j < lo ==> spec_is_space(#[trigger] v@[j]),
            forall|j: int| hi <= j < v@.len() ==> spec_is_space(#[trigger] v@[j]),
            r@ == v@.subrange(lo as int, i as int),
        decreases hi - i,
    {
        r.push(v[i]);
        proof {
            assert(r@ =~= v@.subrange(lo as int, i + 1));
        }
        i += 1;
    }
    proof {
        if hi > lo {
            assert(r@ =~= spec_trim(v@));
        } else {
            assert(r@ =~= Seq::<char>::empty());
            assert(r@ =~= spec_trim(v@));
        }
    }
    r
}

/// The pieces of a character sequence split at each occurrence of `sep`:
/// always one more piece than separators, empty pieces kept.
pub open spec fn spec_split(s: Seq<char>, sep: char) -> Seq<Seq<char>>
    decreases s.len(),
{
    if s.len() == 0 {
        seq![Seq::<char>::empty()]
    } else {
        let rest = spec_split(s.drop_last(), sep);
        if s.last() == sep {
            rest.push(Seq::empty())
        } else {
            rest.update(rest.len() - 1, rest.last().push(s.last()))
        }
    }
}

/// A split has at least one piece, and none holds the separator.
pub proof fn lemma_split_shape(s: Seq<char>, sep: char)
    ensures
        spec_split(s, sep).len() >= 1,
        forall|i: int, j: int|
            0 <= i < spec_split(s, sep).len() && 0 <= j < spec_split(s, sep)[i].len()
            ==> spec_split(s, sep)[i][j] != sep,
    decreases s.len(),
{
    if s.len() > 0 {
        lemma_split_shape(s.drop_last(), sep);
    }
}

/// Splits a character sequence at each occurrence of `sep`.
pub fn split_chars(v: &Vec<char>, sep: char) -> (r: Vec<Vec<char>>)
    ensures
        r@.len() == spec_split(v@, sep).len(),
        forall|k: int| 0 <= k < r@.len() ==> (#[trigger] r@[k])@ == spec_split(v@, sep)[k],
        forall|i: int, j: int| 0 <= i < r@.len() && 0 <= j < r@[i]@.len()
            ==> r@[i]@[j] != sep,
{
    let mut r: Vec<Vec<char>> = Vec::new();
    let mut cur: Vec<char> = Vec::new();
    let mut i: usize = 0;
    while i < v.len()
        invariant
            i <= v@.len(),
            r@.len() + 1 == spec_split(v@.take(i as int), sep).len(),
            forall|k: int| 0 <= k < r@.len()
                ==> (#[trigger] r@[k])@ == spec_split(v@.take(i as int), sep)[k],
            cur@ == spec_split(v@.take(i as int), sep).last(),
            forall|a: int, b: int| 0 <= a < r@.len() && 0 <= b < r@[a]@.len()
                ==> r@[a]@[b] != sep,
            forall|b: int| 0 <= b < cur@.len() ==> cur@[b] != sep,
        decreases v@.len() - i,
    {
        proof {
            assert(v@.take(i + 1).drop_last() =~= v@.take(i as int));
            assert(v@.take(i + 1).last() == v@[i as int]);
        }
        let c = v[i];
        if c == sep {
            let done = cur;
            cur = Vec::new();
            let ghost rpre = r@;
            r.push(done);
            proof {
                assert(forall|k: int| 0 <= k < rpre.len() ==> r@[k] == rpre[k]);
            }
        } else {
            cur.push(c);
        }
        i += 1;
    }
    let ghost rpre = r@;
    r.push(cur);
    proof {
        assert(v@.take(v@.len() as int) =~= v@);
        assert(forall|k: int| 0 <= k < rpre.len() ==> r@[k] == rpre[k]);
        lemma_split_shape(v@, sep);
    }
    r
}

/// Whether a character is a decimal digit.
pub open spec fn spec_is_digit(c: char) -> bool {
    '0' <= c <= '9'
}

/// The numeric value of a digit character.
pub open spec fn spec_digit(c: char) -> int {
    c as int - '0' as int
}

/// The value of a digit string, most significant digit first.
pub open spec fn spec_digits_value(s: Seq<char>) -> int
    decreases s.len(),
{
    if s.len() == 0 {
        0
    } else {
        spec_digits_value(s.drop_last()) * 10 + spec_digit(s.last())
    }
}

/// Whether a character sequence is a well-formed signed decimal numeral.
pub open spec fn spec_is_numeral(s: Seq<char>) -> bool {
    if s.len() >= 1 && s[0] == '-' {
        s.len() >= 2 && forall|i: int| 1 <= i < s.len() ==> spec_is_digit(#[trigger] s[i])
    } else {
        s.len() >= 1 && forall|i: int| 0 <= i < s.len() ==> spec_is_digit(#[trigger] s[i])
    }
}

/// The integer a well-formed numeral denotes.
pub open spec fn spec_numeral_value(s: Seq<char>) -> int {
    if s.len() >= 1 && s[0] == '-' {
        -spec_digits_value(s.subrange(1, s.len() as int))
    } else {
        spec_digits_value(s)
    }
}

/// The value of an all-digit string is never negative.
proof fn lemma_digits_nonneg(t: Seq<char>)
    requires
        forall|j: int| 0 <= j < t.len() ==> spec_is_digit(#[trigger] t[j]),
    ensures
        spec_digits_value(t) >= 0,
    decreases t.len(),
{
    if t.len() > 0 {
        let rest = t.drop_last();
        assert forall|j: int| 0 <= j < rest.len() implies spec_is_digit(#[trigger] rest[j]) by {
            assert(rest[j] == t[j]);
        }
        lemma_digits_nonneg(rest);
    }
}

/// Dropping trailing digits never increases an all-digit string's value.
proof fn lemma_digits_prefix(t: Seq<char>, k: int)
    requires
        0 <= k <= t.len(),
        forall|j: int| 0 <= j < t.len() ==> spec_is_digit(#[trigger] t[j]),
    ensures
        spec_digits_value(t.take(k)) <= spec_digits_value(t),
    decreases t.len(),
{
    if k < t.len() {
        let rest = t.drop_last();
        assert forall|j: int| 0 <= j < rest.len() implies spec_is_digit(#[trigger] rest[j]) by {
            assert(rest[j] == t[j]);
        }
        assert(t.take(k) =~= rest.take(k));
        lemma_digits_prefix(rest, k);
        lemma_digits_nonneg(rest);
        assert(spec_digits_value(t)
            == spec_digits_value(rest) * 10 + spec_digit(t.last()));
        assert(spec_digits_value(rest) * 10 >= spec_digits_value(rest)) by (nonlinear_arith)
            requires
                spec_digits_value(rest) >= 0,
        ;
    } else {
        assert(t.take(k) =~= t);
    }
}

/// Parses a signed decimal numeral into an `i32`: succeeds exactly on
/// well-formed numerals whose value fits the type.
pub fn parse_i32(s: &str) -> (r: Result<i32, crate::error::SCError>)
    ensures
        r is Ok <==> spec_is_numeral(s@)
            && -0x8000_0000 <= spec_numeral_value(s@) <= 0x7fff_ffff,
        r matches Ok(v) ==> v == spec_numeral_value(s@),
{
    let len = s.unicode_len();
    if len == 0 {
        proof {
            assert(!spec_is_numeral(s@));
        }
        return Err(crate::error::SCError::custom("empty numeral"));
    }
    let negative = s.get_char(0) == '-';
    let start: usize = if negative { 1 } else { 0 };
    if start >= len {
        proof {
            assert(!spec_is_numeral(s@));
        }
        return Err(crate::error::SCError::custom("sign without digits"));
    }
    let mut acc: i64 = 0;
    let mut i: usize = start;
    while i < len
        invariant
            len == s@.len(),
            start <= i <= len,
            start == (if negative { 1int } else { 0int }),
            negative ==> s@[0] == '-',
            !negative ==> s@[0] != '-',
            0 < len,
            forall|j: int| start <= j < i ==> spec_is_digit(#[trigger] s@[j]),
            0 <= acc <= 0x8000_0000,
            acc == spec_digits_value(s@.subrange(start as int, i as int)),
        decreases len - i,
    {
        let c = s.get_char(i);
        if !(c >= '0' && c <= '9') {
            proof {
                assert(!spec_is_digit(s@[i as int]));
                assert(!spec_is_numeral(s@));
            }
            return Err(crate::error::SCError::custom("not a digit"));
        }
        let d: i64 = (c as u32) as i64 - 48;
        proof {
            assert(d == spec_digit(s@[i as int]));
        }
        acc = acc * 10 + d;
        proof {
            assert(s@.subrange(start as int, i + 1).drop_last()
                =~= s@.subrange(start as int, i as int));
            assert(s@.subrange(start as int, i + 1).last() == s@[i as int]);
        }
        if acc > 0x8000_0000 {
            proof {
                if spec_is_numeral(s@) {
                    let digits = s@.subrange(start as int, len as int);
                    assert forall|j: int| 0 <= j < digits.len() implies
                        spec_is_digit(#[trigger] digits[j]) by {
                        assert(digits[j] == s@[start + j]);
                    }
                    assert(digits.take(i + 1 - start) =~= s@.subrange(start as int, i + 1));
                    lemma_digits_prefix(digits, i + 1 - start);
                    assert(spec_digits_value(digits) > 0x8000_0000);
                    if negative {
                        assert(spec_numeral_value(s@) == -spec_digits_value(digits)) by {
                            assert(s@.subrange(1, s@.len() as int) =~= digits);
                        }
                    } else {
                        assert(spec_numeral_value(s@) == spec_digits_value(digits)) by {
                            assert(s@.subrange(0, s@.len() as int) =~= s@);
                        }
                    }
                }
            }
            return Err(crate::error::SCError::custom("numeral is out of range"));
        }
        i += 1;
    }
    proof {
        assert(s@.subrange(start as int, len as int) =~= s@.subrange(start as int, s@.len() as int));
        if !negative {
            assert(s@.subrange(0, len as int) =~= s@);
        }
    }
    if negative {
        proof {
            assert(spec_is_numeral(s@));
            assert(spec_numeral_value(s@) == -acc);
        }
        if acc == 0x8000_0000 {
            Ok(i32::MIN)
        } else {
            Ok(-(acc as i32))
        }
    } else {
        if acc > 0x7fff_ffff {
            proof {
                assert(spec_is_numeral(s@));
                assert(spec_numeral_value(s@) == acc);
            }
            Err(crate::error::SCError::custom("numeral is out of range"))
        } else {
            proof {
                assert(spec_is_numeral(s@));
                assert(spec_numeral_value(s@) == acc);
            }
            Ok(acc as i32)
        }
    }
}

/// Parses an unsigned decimal numeral into a `u32`: succeeds exactly on
/// well-formed numerals from zero up to the signed 32-bit maximum, which
/// is as far as the protocol's counters reach.
pub fn parse_u32(s: &str) -> (r: Result<u32, crate::error::SCError>)
    ensures
        r is Ok <==> spec_is_numeral(s@) && 0 <= spec_numeral_value(s@) <= 0x7fff_ffff,
        r matches Ok(v) ==> v == spec_numeral_value(s@),
{
    match parse_i32(s) {
        Ok(v) => {
            if v >= 0 {
                Ok(v as u32)
            } else {
                Err(crate::error::SCError::custom("numeral is negative"))
            }
        },
        Err(e) => Err(e),
    }
}

/// Parses the lower-case boolean literals.
pub fn parse_bool(s: &str) -> (r: Result<bool, crate::error::SCError>)
    ensures
        r == Ok::<bool, crate::error::SCError>(true) <==> s@ == "true"@,
        r == Ok::<bool, crate::error::SCError>(false) <==> s@ == "false"@,
{
    proof {
        reveal_strlit("true");
        reveal_strlit("false");
        assert("true"@.len() == 4 && "false"@.len() == 5);
    }
    if str_eq(s, "true") {
        Ok(true)
    } else if str_eq(s, "false") {
        Ok(false)
    } else {
        Err(crate::error::SCError::custom("not a boolean literal"))
    }
}

/// The decimal digit characters of a number, most significant first.
pub open spec fn spec_render_nat(n: nat) -> Seq<char>
    decreases n,
{
    if n < 10 {
        seq![spec_digit_char(n as int)]
    } else {
        spec_render_nat(n / 10) + seq![spec_digit_char((n % 10) as int)]
    }
}

/// The character of a single digit.
pub open spec fn spec_digit_char(d: int) -> char {
    if d == 0 { '0' } else if d == 1 { '1' } else if d == 2 { '2' } else if d == 3 { '3' }
    else if d == 4 { '4' } else if d == 5 { '5' } else if d == 6 { '6' } else if d == 7 { '7' }
    else if d == 8 { '8' } else { '9' }
}

/// The decimal rendering of a signed number.
pub open spec fn spec_render_i32(v: int) -> Seq<char> {
    if v < 0 {
        seq!['-'] + spec_render_nat((-v) as nat)
    } else {
        spec_render_nat(v as nat)
    }
}

/// Renders a number's decimal digits into the buffer.
fn render_nat_into(n: u32, out: &mut Vec<char>)
    ensures
        final(out)@ == old(out)@ + spec_render_nat(n as nat),
    decreases n,
{
    let d = n % 10;
    let c: char = if d == 0 { '0' } else if d == 1 { '1' } else if d == 2 { '2' }
        else if d == 3 { '3' } else if d == 4 { '4' } else if d == 5 { '5' }
        else if d == 6 { '6' } else if d == 7 { '7' } else if d == 8 { '8' } else { '9' };
    proof {
        assert(c == spec_digit_char((n % 10) as int));
    }
    if n < 10 {
        out.push(c);
    } else {
        render_nat_into(n / 10, out);
        out.push(c);
    }
}

/// Renders a signed number as a decimal numeral.
pub fn format_i32(v: i32) -> (r: String)
    ensures
        r@ == spec_render_i32(v as int),
{
    let mut out: Vec<char> = Vec::new();
    if v < 0 {
        out.push('-');
        let magnitude: u32 = if v == i32::MIN {
            0x8000_0000u32
        } else {
            (-v) as u32
        };
        proof {
            assert(magnitude == -(v as int));
        }
        render_nat_into(magnitude, &mut out);
    } else {
        render_nat_into(v as u32, &mut out);
    }
    chars_to_string(out)
}

} // verus!
