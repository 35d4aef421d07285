//! Character-level groundwork: ASCII classification written out in full,
//! Unicode classification and case mapping taken from std behind trusted
//! wrappers, and small verified utilities over character vectors.

use vstd::prelude::*;

verus! {

// ---------------------------------------------------------------------------
// ASCII classification, fully specified.
// ---------------------------------------------------------------------------

pub open spec fn is_ascii_char(c: char) -> bool {
    c <= '\u{7f}'
}

pub open spec fn is_ascii_lower(c: char) -> bool {
    'a' <= c && c <= 'z'
}

pub open spec fn is_ascii_upper(c: char) -> bool {
    'A' <= c && c <= 'Z'
}

pub open spec fn is_ascii_letter(c: char) -> bool {
    is_ascii_lower(c) || is_ascii_upper(c)
}

/// The upper-case partner of an ASCII character; other characters unchanged.
pub open spec fn ascii_upper(c: char) -> char {
    if is_ascii_lower(c) {
        ((c as u8) - 32) as char
    } else {
        c
    }
}

/// The lower-case partner of an ASCII character; other characters unchanged.
pub open spec fn ascii_lower(c: char) -> char {
    if is_ascii_upper(c) {
        ((c as u8) + 32) as char
    } else {
        c
    }
}

pub open spec fn ascii_seq(s: Seq<char>) -> bool {
    forall|i: int| 0 <= i < s.len() ==> is_ascii_char(#[trigger] s[i])
}

// ---------------------------------------------------------------------------
// Unicode classification and case mapping. On ASCII both are written out
// exactly; beyond ASCII they are named, and the names are given meaning only
// by the trusted wrappers below.
// ---------------------------------------------------------------------------

pub uninterp spec fn alphabetic_ext(c: char) -> bool;

/// Whether a character has the Unicode `Alphabetic` property.
pub open spec fn is_alphabetic_char(c: char) -> bool {
    if is_ascii_char(c) {
        is_ascii_letter(c)
    } else {
        alphabetic_ext(c)
    }
}

pub uninterp spec fn whitespace_ext(c: char) -> bool;

/// Whether a character has the Unicode `White_Space` property.
pub open spec fn is_whitespace_char(c: char) -> bool {
    if is_ascii_char(c) {
        c == ' ' || c == '\t' || c == '\n' || c == '\u{b}' || c == '\u{c}' || c == '\r'
    } else {
        whitespace_ext(c)
    }
}

pub uninterp spec fn upper_ext(c: char) -> Seq<char>;

/// The full Unicode upper-case mapping of one character.
pub open spec fn char_upper(c: char) -> Seq<char> {
    if is_ascii_char(c) {
        seq![ascii_upper(c)]
    } else {
        upper_ext(c)
    }
}

pub uninterp spec fn char_lower_ext(c: char) -> Seq<char>;

/// The full Unicode lower-case mapping of one character.
pub open spec fn char_lower(c: char) -> Seq<char> {
    if is_ascii_char(c) {
        seq![ascii_lower(c)]
    } else {
        char_lower_ext(c)
    }
}

pub uninterp spec fn lower_ext(s: Seq<char>) -> Seq<char>;

/// The Unicode lower-case mapping of a whole string.
pub open spec fn lower_of(s: Seq<char>) -> Seq<char> {
    if ascii_seq(s) {
        s.map_values(|c: char| ascii_lower(c))
    } else {
        lower_ext(s)
    }
}

// ---------------------------------------------------------------------------
// Trusted wrappers around std.
// ---------------------------------------------------------------------------

/// Relies on `str::chars`: yields exactly the string's characters in order.
#[verifier::external_body]
pub(crate) fn chars_of(s: &str) -> (v: Vec<char>)
    ensures
        v@ == s@,
{
    s.chars().collect()
}

/// Relies on `String::push`: appends one character at the end.
#[verifier::external_body]
pub(crate) fn push_char(s: &mut String, c: char)
    ensures
        final(s)@ == old(s)@.push(c),
{
    s.push(c)
}

/// Relies on `char::is_alphabetic`: tests the Unicode `Alphabetic`
/// property, which on ASCII holds exactly of the letters.
#[verifier::external_body]
pub(crate) fn is_alphabetic(c: char) -> (r: bool)
    ensures
        r == is_alphabetic_char(c),
        !is_ascii_char(c) ==> r == alphabetic_ext(c),
{
    c.is_alphabetic()
}

/// Relies on `char::is_whitespace`: tests the Unicode `White_Space`
/// property, which on ASCII holds exactly of space, tab, line feed,
/// vertical tab, form feed and carriage return.
#[verifier::external_body]
pub(crate) fn is_whitespace(c: char) -> (r: bool)
    ensures
        r == is_whitespace_char(c),
        !is_ascii_char(c) ==> r == whitespace_ext(c),
{
    c.is_whitespace()
}

/// Relies on `char::to_uppercase`: the Unicode upper-case mapping, which
/// maps an ASCII character to its single upper-case partner.
#[verifier::external_body]
pub(crate) fn to_uppercase(c: char) -> (v: Vec<char>)
    ensures
        v@ == char_upper(c),
        !is_ascii_char(c) ==> v@ == upper_ext(c),
{
    c.to_uppercase().collect()
}

/// Relies on `char::to_lowercase`: the Unicode lower-case mapping, which
/// maps an ASCII character to its single lower-case partner.
#[verifier::external_body]
pub(crate) fn to_lowercase_char(c: char) -> (v: Vec<char>)
    ensures
        v@ == char_lower(c),
        !is_ascii_char(c) ==> v@ == char_lower_ext(c),
{
    c.to_lowercase().collect()
}

/// Relies on `str::to_lowercase`: the Unicode lower-case mapping of a whole
/// string, which lowers an all-ASCII string character by character.
#[verifier::external_body]
pub(crate) fn to_lowercase(s: &str) -> (r: String)
    ensures
        r@ == lower_of(s@),
        !ascii_seq(s@) ==> r@ == lower_ext(s@),
{
    s.to_lowercase()
}

// ---------------------------------------------------------------------------
// Verified utilities over character vectors.
// ---------------------------------------------------------------------------

/// Whether `s` ends with `suffix`.
pub open spec fn ends_with_spec(s: Seq<char>, suffix: Seq<char>) -> bool {
    s.len() >= suffix.len() && s.subrange(s.len() - suffix.len(), s.len() as int) == suffix
}

/// Whether `sub` occurs contiguously somewhere in `s`.
pub open spec fn contains_spec(s: Seq<char>, sub: Seq<char>) -> bool {
    exists|i: int| 0 <= i <= s.len() - sub.len() && #[trigger] s.subrange(i, i + sub.len()) == sub
}

/// An occurrence of `sub` in a suffix of `s` is an occurrence in `s`.
pub proof fn lemma_contains_lift(s: Seq<char>, sub: Seq<char>, m: int)
    requires
        0 <= m <= s.len(),
        contains_spec(s.skip(m), sub),
    ensures
        contains_spec(s, sub),
{
    let i = choose|i: int|
        0 <= i <= s.skip(m).len() - sub.len() && #[trigger] s.skip(m).subrange(i, i + sub.len())
            == sub;
    assert(s.skip(m).subrange(i, i + sub.len() as int) =~= s.subrange(m + i, m + i + sub.len()));
    assert(s.subrange(m + i, m + i + sub.len() as int) == sub);
}

/// `s` with its leading whitespace removed.
pub open spec fn trim_start_spec(s: Seq<char>) -> Seq<char>
    decreases s.len(),
{
    if s.len() > 0 && is_whitespace_char(s[0]) {
        trim_start_spec(s.drop_first())
    } else {
        s
    }
}

/// `s` with its trailing whitespace removed.
pub open spec fn trim_end_spec(s: Seq<char>) -> Seq<char>
    decreases s.len(),
{
    if s.len() > 0 && is_whitespace_char(s.last()) {
        trim_end_spec(s.drop_last())
    } else {
        s
    }
}

/// `s` with whitespace removed from both ends.
pub open spec fn trim_spec(s: Seq<char>) -> Seq<char> {
    trim_end_spec(trim_start_spec(s))
}

/// Character-for-character equality of two slices.
pub(crate) fn eq_chars(a: &[char], b: &[char]) -> (r: bool)
    ensures
        r == (a@ == b@),
{
    if a.len() != b.len() {
        proof {
            assert(a@ != b@);
        }
        return false;
    }
    let mut i: usize = 0;
    while i < a.len()
        invariant
            i <= a.len(),
            a.len() == b.len(),
            forall|j: int| 0 <= j < i ==> a@[j] == b@[j],
        decreases a.len() - i,
    {
        if a[i] != b[i] {
            return false;
        }
        i = i + 1;
    }
    proof {
        assert(a@ =~= b@);
    }
    true
}

/// Whether `s` ends with `suffix`.
pub(crate) fn ends_with_chars(s: &[char], suffix: &[char]) -> (r: bool)
    ensures
        r == ends_with_spec(s@, suffix@),
{
    if s.len() < suffix.len() {
        return false;
    }
    let start = s.len() - suffix.len();
    let mut i: usize = 0;
    while i < suffix.len()
        invariant
            i <= suffix.len(),
            suffix.len() <= s.len(),
            start == s.len() - suffix.len(),
            forall|j: int| 0 <= j < i ==> s@[start + j] == suffix@[j],
        decreases suffix.len() - i,
    {
        if s[start + i] != suffix[i] {
            proof {
                assert(s@.subrange(start as int, s@.len() as int)[i as int] != suffix@[i as int]);
            }
            return false;
        }
        i = i + 1;
    }
    proof {
        assert(s@.subrange(s@.len() - suffix@.len(), s@.len() as int) =~= suffix@);
    }
    true
}

/// Whether `s` matches `sub` starting at position `at`.
fn matches_at(s: &[char], sub: &[char], at: usize) -> (r: bool)
    requires
        at + sub@.len() <= s@.len(),
    ensures
        r == (s@.subrange(at as int, at + sub@.len()) == sub@),
{
    let n = s.len();
    let mut i: usize = 0;
    while i < sub.len()
        invariant
            i <= sub.len(),
            n == s@.len(),
            at + sub@.len() <= s@.len(),
            forall|j: int| 0 <= j < i ==> s@[at + j] == sub@[j],
        decreases sub.len() - i,
    {
        if s[at + i] != sub[i] {
            proof {
                assert(s@.subrange(at as int, at + sub@.len())[i as int] != sub@[i as int]);
            }
            return false;
        }
        i = i + 1;
    }
    proof {
        assert(s@.subrange(at as int, at + sub@.len()) =~= sub@);
    }
    true
}

/// Whether `sub` occurs contiguously somewhere in `s`.
pub(crate) fn contains_chars(s: &[char], sub: &[char]) -> (r: bool)
    ensures
        r == contains_spec(s@, sub@),
{
    if sub.len() > s.len() {
        return false;
    }
    if sub.len() == 0 {
        proof {
            assert(s@.subrange(0, 0 + sub@.len() as int) =~= sub@);
            assert(contains_spec(s@, sub@));
        }
        return true;
    }
    let mut i: usize = 0;
    while i <= s.len() - sub.len()
        invariant
            0 < sub@.len() <= s@.len(),
            i <= s@.len() - sub@.len() + 1,
            forall|j: int| 0 <= j < i ==> #[trigger] s@.subrange(j, j + sub@.len()) != sub@,
        decreases s.len() - i,
    {
        if matches_at(s, sub, i) {
            proof {
                assert(s@.subrange(i as int, i + sub@.len()) == sub@);
            }
            return true;
        }
        i = i + 1;
    }
    false
}

/// Remove whitespace from both ends of a character vector.
pub(crate) fn trim_chars(v: &Vec<char>) -> (r: Vec<char>)
    ensures
        r@ == trim_spec(v@),
{
    let mut start: usize = 0;
    proof {
        assert(v@.skip(0) =~= v@);
    }
    while start < v.len() && is_whitespace(v[start])
        invariant
            start <= v.len(),
            trim_start_spec(v@) == trim_start_spec(v@.skip(start as int)),
        decreases v.len() - start,
    {
        proof {
            assert(v@.skip(start as int).drop_first() =~= v@.skip(start + 1));
        }
        start = start + 1;
    }
    proof {
        assert(trim_start_spec(v@.skip(start as int)) == v@.skip(start as int));
    }
    let mut end: usize = v.len();
    proof {
        assert(v@.skip(start as int) =~= v@.subrange(start as int, v@.len() as int));
    }
    while end > start && is_whitespace(v[end - 1])
        invariant
            start <= end <= v.len(),
            trim_start_spec(v@) == v@.skip(start as int),
            trim_end_spec(v@.skip(start as int)) == trim_end_spec(
                v@.subrange(start as int, end as int),
            ),
        decreases end,
    {
        proof {
            assert(v@.subrange(start as int, end as int).drop_last() =~= v@.subrange(
                start as int,
                end - 1,
            ));
        }
        end = end - 1;
    }
    proof {
        if end > start {
            assert(trim_end_spec(v@.subrange(start as int, end as int)) == v@.subrange(
                start as int,
                end as int,
            ));
        } else {
            assert(v@.subrange(start as int, end as int) =~= Seq::<char>::empty());
        }
    }
    let mut r: Vec<char> = Vec::new();
    let mut i: usize = start;
    while i < end
        invariant
            start <= i <= end <= v.len(),
            r@ == v@.subrange(start as int, i as int),
        decreases end - i,
    {
        r.push(v[i]);
        proof {
            assert(v@.subrange(start as int, i as int).push(v@[i as int]) =~= v@.subrange(
                start as int,
                i + 1,
            ));
        }
        i = i + 1;
    }
    r
}

/// The view of an optional string.
pub open spec fn opt_str_view(o: Option<String>) -> Option<Seq<char>> {
    match o {
        Option::Some(s) => Some(s@),
        Option::None => None,
    }
}

/// The views of a sequence of strings.
pub open spec fn str_views(ss: Seq<String>) -> Seq<Seq<char>> {
    ss.map_values(|s: String| s@)
}

// ---------------------------------------------------------------------------
// Decimal parsing.
// ---------------------------------------------------------------------------

pub open spec fn is_ascii_digit(c: char) -> bool {
    '0' <= c && c <= '9'
}

pub open spec fn digit_val(c: char) -> int {
    c as u32 - '0' as u32
}

/// The value of a digit string, most significant digit first.
pub open spec fn digits_val(s: Seq<char>) -> int
    decreases s.len(),
{
    if s.len() == 0 {
        0
    } else {
        digits_val(s.drop_last()) * 10 + digit_val(s.last())
    }
}

pub open spec fn all_digits(s: Seq<char>) -> bool {
    forall|i: int| 0 <= i < s.len() ==> is_ascii_digit(#[trigger] s[i])
}

/// What parsing an unsigned 64-bit decimal accepts: an optional leading `+`,
/// then at least one digit, with a value that fits.
pub open spec fn parse_u64_spec(s: Seq<char>) -> Option<u64> {
    let t = if s.len() > 0 && s[0] == '+' {
        s.drop_first()
    } else {
        s
    };
    if t.len() > 0 && all_digits(t) && digits_val(t) <= u64::MAX {
        Some(digits_val(t) as u64)
    } else {
        None
    }
}

proof fn lemma_digits_val_nonneg(s: Seq<char>)
    requires
        all_digits(s),
    ensures
        digits_val(s) >= 0,
    decreases s.len(),
{
    if s.len() > 0 {
        assert forall|i: int| 0 <= i < s.drop_last().len() implies is_ascii_digit(
            #[trigger] s.drop_last()[i],
        ) by {
            assert(s.drop_last()[i] == s[i]);
        }
        lemma_digits_val_nonneg(s.drop_last());
    }
}

/// A digit string is worth at least any of its prefixes.
proof fn lemma_digits_val_mono(s: Seq<char>, m: int)
    requires
        all_digits(s),
        0 <= m <= s.len(),
    ensures
        digits_val(s.take(m)) <= digits_val(s),
    decreases s.len() - m,
{
    if m == s.len() {
        assert(s.take(m) =~= s);
    } else {
        assert forall|i: int| 0 <= i < s.take(m).len() implies is_ascii_digit(
            #[trigger] s.take(m)[i],
        ) by {
            assert(s.take(m)[i] == s[i]);
        }
        lemma_digits_val_nonneg(s.take(m));
        assert(s.take(m + 1).drop_last() =~= s.take(m));
        assert(s.take(m + 1).last() == s[m]);
        assert(digits_val(s.take(m + 1)) == digits_val(s.take(m)) * 10 + digit_val(s[m]));
        lemma_digits_val_mono(s, m + 1);
    }
}

/// Parse an unsigned 64-bit decimal, exactly as std does: an optional
/// leading `+`, then only digits, rejecting overflow.
pub fn parse_u64(s: &str) -> (r: Option<u64>)
    ensures
        r == parse_u64_spec(s@),
{
    let chars = chars_of(s);
    let sv = chars.as_slice();
    let start: usize = if chars.len() > 0 && *sv.first().unwrap() == '+' {
        1
    } else {
        0
    };
    let ghost t = if s@.len() > 0 && s@[0] == '+' {
        s@.drop_first()
    } else {
        s@
    };
    proof {
        assert(t =~= s@.skip(start as int));
    }
    if start >= chars.len() {
        return None;
    }
    let mut val: u64 = 0;
    let mut i: usize = start;
    proof {
        assert(t.take(0) =~= Seq::<char>::empty());
    }
    while i < chars.len()
        invariant
            start <= i <= chars@.len(),
            chars@ == s@,
            t == s@.skip(start as int),
            t == (if s@.len() > 0 && s@[0] == '+' {
                s@.drop_first()
            } else {
                s@
            }),
            start <= chars@.len(),
            forall|j: int| start <= j < i ==> is_ascii_digit(#[trigger] s@[j]),
            val == digits_val(t.take(i - start)),
        decreases chars.len() - i,
    {
        let c = chars[i];
        if !('0' <= c && c <= '9') {
            proof {
                assert(t[i - start] == s@[i as int]);
                assert(!all_digits(t));
            }
            return None;
        }
        let d: u64 = (c as u32 - '0' as u32) as u64;
        let ghost prefix = t.take(i - start);
        let ghost prefix1 = t.take(i + 1 - start);
        proof {
            assert(prefix1.drop_last() =~= prefix);
            assert(prefix1.last() == s@[i as int]);
            assert(digits_val(prefix1) == digits_val(prefix) * 10 + d);
        }
        if val > u64::MAX / 10 {
            proof {
                assert(digits_val(prefix1) > u64::MAX);
                lemma_overflow_rejected(s@, i - start);
            }
            return None;
        }
        let v10: u64 = val * 10;
        if v10 > u64::MAX - d {
            proof {
                assert(digits_val(prefix1) > u64::MAX);
                lemma_overflow_rejected(s@, i - start);
            }
            return None;
        }
        val = v10 + d;
        i = i + 1;
    }
    proof {
        assert(t.take(chars@.len() - start) =~= t);
        assert forall|j: int| 0 <= j < t.len() implies is_ascii_digit(#[trigger] t[j]) by {
            assert(t[j] == s@[start + j]);
        }
    }
    Some(val)
}

/// Once some digit prefix is worth more than fits, the whole string is
/// rejected, digits or not.
proof fn lemma_overflow_rejected(s: Seq<char>, m: int)
    requires
        ({
            let t = if s.len() > 0 && s[0] == '+' {
                s.drop_first()
            } else {
                s
            };
            0 <= m < t.len() && digits_val(t.take(m + 1)) > u64::MAX
        }),
    ensures
        parse_u64_spec(s) is None,
{
    let t = if s.len() > 0 && s[0] == '+' {
        s.drop_first()
    } else {
        s
    };
    if all_digits(t) {
        lemma_digits_val_mono(t, m + 1);
    }
}

/// Rebuild a `String` from its characters.
pub(crate) fn string_from_chars(v: &Vec<char>) -> (s: String)
    ensures
        s@ == v@,
{
    let mut s = String::new();
    let mut i: usize = 0;
    while i < v.len()
        invariant
            i <= v.len(),
            s@ == v@.take(i as int),
        decreases v.len() - i,
    {
        push_char(&mut s, v[i]);
        proof {
            assert(v@.take(i as int).push(v@[i as int]) =~= v@.take(i + 1));
        }
        i = i + 1;
    }
    proof {
        assert(v@.take(v@.len() as int) =~= v@);
    }
    s
}

} // verus!
