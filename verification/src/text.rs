//! Character-level helpers: character classes, case-insensitive comparison,
//! decimal parsing and rendering, and whitespace trimming. Every executable
//! function is proved against a spec-level mirror over `Seq<char>`.

use vstd::prelude::*;
use vstd::string::StrSliceExecFns;

verus! {

// ---------------------------------------------------------------------------
// Character classes
// ---------------------------------------------------------------------------

/// ASCII whitespace: space, tab, line feed, carriage return.
pub open spec fn is_space(c: char) -> bool {
    c == ' ' || c == '\t' || c == '\n' || c == '\r'
}

/// ASCII decimal digit.
pub open spec fn is_digit(c: char) -> bool {
    48 <= c as u32 && c as u32 <= 57
}

/// Numeric value of a decimal digit character.
pub open spec fn digit_val(c: char) -> nat
    recommends
        is_digit(c),
{
    (c as u32 - 48) as nat
}

/// The code of a character with ASCII lowercase letters folded to uppercase.
pub open spec fn upper_val(c: char) -> u32 {
    if 97 <= c as u32 && c as u32 <= 122 {
        (c as u32 - 32) as u32
    } else {
        c as u32
    }
}

/// ASCII-case-insensitive equality of two character sequences.
pub open spec fn eq_ci(s: Seq<char>, t: Seq<char>) -> bool {
    s.len() == t.len() && forall|i: int|
        0 <= i < s.len() ==> upper_val(#[trigger] s[i]) == upper_val(t[i])
}

/// A sequence consisting of whitespace only (an empty one included).
pub open spec fn is_blank(s: Seq<char>) -> bool {
    forall|i: int| 0 <= i < s.len() ==> is_space(#[trigger] s[i])
}

/// All characters are decimal digits.
pub open spec fn all_digits(s: Seq<char>) -> bool {
    forall|i: int| 0 <= i < s.len() ==> is_digit(#[trigger] s[i])
}

// ---------------------------------------------------------------------------
// Executable comparisons
// ---------------------------------------------------------------------------

/// ASCII-case-insensitive string comparison.
pub fn str_eq_ci(s: &str, t: &str) -> (b: bool)
    ensures
        b == eq_ci(s@, t@),
{
    let n = s.unicode_len();
    let m = t.unicode_len();
    if n != m {
        return false;
    }
    let mut i: usize = 0;
    while i < n
        invariant
            n == s@.len(),
            n == t@.len(),
            i <= n,
            forall|j: int| 0 <= j < i ==> upper_val(#[trigger] s@[j]) == upper_val(t@[j]),
        decreases n - i,
    {
        let av = s.get_char(i) as u32;
        let bv = t.get_char(i) as u32;
        let ua: u32 = if 97 <= av && av <= 122 { av - 32 } else { av };
        let ub: u32 = if 97 <= bv && bv <= 122 { bv - 32 } else { bv };
        if ua != ub {
            assert(upper_val(s@[i as int]) != upper_val(t@[i as int]));
            return false;
        }
        i += 1;
    }
    true
}

/// Exact string equality, character by character.
pub fn str_eq(s: &str, t: &str) -> (b: bool)
    ensures
        b == (s@ == t@),
{
    let n = s.unicode_len();
    let m = t.unicode_len();
    if n != m {
        assert(s@ != t@);
        return false;
    }
    let mut i: usize = 0;
    while i < n
        invariant
            n == s@.len(),
            n == t@.len(),
            i <= n,
            forall|j: int| 0 <= j < i ==> #[trigger] s@[j] == t@[j],
        decreases n - i,
    {
        if s.get_char(i) != t.get_char(i) {
            assert(s@ != t@);
            return false;
        }
        i += 1;
    }
    assert(s@ =~= t@);
    true
}

/// Equality of a character vector with a string.
pub fn chars_eq_str(v: &Vec<char>, t: &str) -> (b: bool)
    ensures
        b == (v@ == t@),
{
    let n = v.len();
    let m = t.unicode_len();
    if n != m {
        assert(v@ != t@);
        return false;
    }
    let mut i: usize = 0;
    while i < n
        invariant
            n == v@.len(),
            n == t@.len(),
            i <= n,
            forall|j: int| 0 <= j < i ==> #[trigger] v@[j] == t@[j],
        decreases n - i,
    {
        if v[i] != t.get_char(i) {
            assert(v@ != t@);
            return false;
        }
        i += 1;
    }
    assert(v@ =~= t@);
    true
}

/// Whether the string consists of whitespace only.
pub fn str_is_blank(s: &str) -> (b: bool)
    ensures
        b == is_blank(s@),
{
    let n = s.unicode_len();
    let mut i: usize = 0;
    while i < n
        invariant
            n == s@.len(),
            i <= n,
            forall|j: int| 0 <= j < i ==> is_space(#[trigger] s@[j]),
        decreases n - i,
    {
        let c = s.get_char(i);
        if !(c == ' ' || c == '\t' || c == '\n' || c == '\r') {
            assert(!is_space(s@[i as int]));
            return false;
        }
        i += 1;
    }
    true
}

/// Relies on `String`'s `FromIterator<char>` implementation (through
/// `Iterator::collect`): the collected string consists of exactly the
/// iterated characters, in order.
#[verifier::external_body]
pub(crate) fn chars_to_string(v: &Vec<char>) -> (s: String)
    ensures
        s@ == v@,
{
    v.iter().collect()
}

// ---------------------------------------------------------------------------
// Decimal numbers
// ---------------------------------------------------------------------------

/// Value of a digit sequence read as a base-10 numeral.
pub open spec fn digits_val(s: Seq<char>) -> nat
    decreases s.len(),
{
    if s.len() == 0 {
        0
    } else {
        digits_val(s.drop_last()) * 10 + digit_val(s.last())
    }
}

/// The value denoted by a decimal numeral with an optional leading `+`,
/// or `None` where the string is not such a numeral.
pub open spec fn parse_dec(s: Seq<char>) -> Option<nat> {
    let body = if s.len() > 0 && s[0] == '+' {
        s.subrange(1, s.len() as int)
    } else {
        s
    };
    if body.len() > 0 && all_digits(body) {
        Some(digits_val(body))
    } else {
        None
    }
}

/// Parses a decimal numeral, rejecting values above `u64::MAX`.
pub fn parse_dec_u64(s: &str) -> (r: Option<u64>)
    ensures
        match parse_dec(s@) {
            Some(v) => if v <= u64::MAX { r == Some(v as u64) } else { r is None },
            None => r is None,
        },
{
    let n = s.unicode_len();
    let mut i: usize = 0;
    if n > 0 && s.get_char(0) == '+' {
        i = 1;
    }
    let ghost start = i as int;
    let ghost body = if s@.len() > 0 && s@[0] == '+' {
        s@.subrange(1, s@.len() as int)
    } else {
        s@
    };
    assert(body =~= s@.subrange(start, n as int));
    if i == n {
        return None;
    }
    let mut acc: u64 = 0;
    let mut big = false;
    assert(body.len() > 0);
    while i < n
        invariant
            n == s@.len(),
            0 <= start <= i <= n,
            body =~= s@.subrange(start, n as int),
            body.len() > 0,
            parse_dec(s@) == (if all_digits(body) {
                Option::Some(digits_val(body))
            } else {
                Option::<nat>::None
            }),
            all_digits(s@.subrange(start, i as int)),
            big ==> digits_val(s@.subrange(start, i as int)) > u64::MAX,
            !big ==> acc == digits_val(s@.subrange(start, i as int)),
        decreases n - i,
    {
        let c = s.get_char(i);
        let v: u32 = c as u32;
        if v < 48 || v > 57 {
            assert(!is_digit(s@[i as int]));
            assert(body[i - start] == s@[i as int]);
            assert(!all_digits(body));
            assert(parse_dec(s@) is None);
            return None;
        }
        let d: u64 = (v - 48) as u64;
        let ghost pre = s@.subrange(start, i as int);
        let ghost post = s@.subrange(start, i as int + 1);
        proof {
            assert(post.drop_last() =~= pre);
            assert(post.last() == s@[i as int]);
            assert(digits_val(post) == digits_val(pre) * 10 + d);
        }
        if !big {
            let limit: u64 = (u64::MAX - d) / 10;
            proof {
                vstd::arithmetic::div_mod::lemma_fundamental_div_mod(
                    (u64::MAX - d) as int,
                    10,
                );
            }
            if acc > limit {
                big = true;
                assert(digits_val(post) > u64::MAX);
            } else {
                assert(acc * 10 + d <= u64::MAX);
                acc = acc * 10 + d;
            }
        } else {
            assert(digits_val(post) > u64::MAX);
        }
        proof {
            assert(s@.subrange(start, i as int + 1) =~= post);
        }
        i += 1;
    }
    proof {
        assert(s@.subrange(start, n as int) =~= body);
    }
    if big {
        None
    } else {
        Some(acc)
    }
}

/// The decimal digit character for `d`.
pub open spec fn digit_char(d: nat) -> char {
    if d == 0 {
        '0'
    } else if d == 1 {
        '1'
    } else if d == 2 {
        '2'
    } else if d == 3 {
        '3'
    } else if d == 4 {
        '4'
    } else if d == 5 {
        '5'
    } else if d == 6 {
        '6'
    } else if d == 7 {
        '7'
    } else if d == 8 {
        '8'
    } else {
        '9'
    }
}

/// The decimal numeral for `n`, most significant digit first.
pub open spec fn dec_str(n: nat) -> Seq<char>
    decreases n,
{
    if n < 10 {
        seq![digit_char(n)]
    } else {
        dec_str(n / 10) + seq![digit_char(n % 10)]
    }
}

fn digit_char_exec(d: u64) -> (c: char)
    requires
        d < 10,
    ensures
        c == digit_char(d as nat),
{
    if d == 0 {
        '0'
    } else if d == 1 {
        '1'
    } else if d == 2 {
        '2'
    } else if d == 3 {
        '3'
    } else if d == 4 {
        '4'
    } else if d == 5 {
        '5'
    } else if d == 6 {
        '6'
    } else if d == 7 {
        '7'
    } else if d == 8 {
        '8'
    } else {
        '9'
    }
}

/// Appends the decimal numeral for `n` to `v`.
pub fn push_dec(v: &mut Vec<char>, n: u64)
    ensures
        final(v)@ == old(v)@ + dec_str(n as nat),
    decreases n,
{
    if n >= 10 {
        push_dec(v, n / 10);
        v.push(digit_char_exec(n % 10));
        assert(v@ =~= old(v)@ + dec_str(n as nat));
    } else {
        v.push(digit_char_exec(n));
        assert(v@ =~= old(v)@ + dec_str(n as nat));
    }
}

// ---------------------------------------------------------------------------
// Trimming
// ---------------------------------------------------------------------------

/// `s` without its leading whitespace.
pub open spec fn trim_start(s: Seq<char>) -> Seq<char>
    decreases s.len(),
{
    if s.len() > 0 && is_space(s[0]) {
        trim_start(s.drop_first())
    } else {
        s
    }
}

/// `s` without its trailing whitespace.
pub open spec fn trim_end(s: Seq<char>) -> Seq<char>
    decreases s.len(),
{
    if s.len() > 0 && is_space(s.last()) {
        trim_end(s.drop_last())
    } else {
        s
    }
}

/// `s` without leading and trailing whitespace.
pub open spec fn trim(s: Seq<char>) -> Seq<char> {
    trim_end(trim_start(s))
}

/// Whether `c` is ASCII whitespace.
pub fn char_is_space(c: char) -> (b: bool)
    ensures
        b == is_space(c),
{
    c == ' ' || c == '\t' || c == '\n' || c == '\r'
}

/// Trimming the start never lengthens a sequence.
pub proof fn lemma_trim_start_len(s: Seq<char>)
    ensures
        trim_start(s).len() <= s.len(),
    decreases s.len(),
{
    if s.len() > 0 && is_space(s[0]) {
        lemma_trim_start_len(s.drop_first());
    }
}

/// Trimming the end never lengthens a sequence.
pub proof fn lemma_trim_end_len(s: Seq<char>)
    ensures
        trim_end(s).len() <= s.len(),
    decreases s.len(),
{
    if s.len() > 0 && is_space(s.last()) {
        lemma_trim_end_len(s.drop_last());
    }
}

/// Trimming never lengthens a sequence.
pub proof fn lemma_trim_len(s: Seq<char>)
    ensures
        trim(s).len() <= s.len(),
{
    lemma_trim_start_len(s);
    lemma_trim_end_len(trim_start(s));
}

/// Trims ASCII whitespace from both ends of a character vector.
pub fn trim_chars(v: &Vec<char>) -> (t: Vec<char>)
    ensures
        t@ == trim(v@),
{
    let n = v.len();
    assert(v@.subrange(0, n as int) =~= v@);
    let mut a: usize = 0;
    while a < n && char_is_space(v[a])
        invariant
            n == v@.len(),
            a <= n,
            trim_start(v@) == trim_start(v@.subrange(a as int, n as int)),
        decreases n - a,
    {
        proof {
            let cur = v@.subrange(a as int, n as int);
            assert(cur[0] == v@[a as int]);
            assert(cur.drop_first() =~= v@.subrange(a as int + 1, n as int));
        }
        a += 1;
    }
    proof {
        let cur = v@.subrange(a as int, n as int);
        if cur.len() > 0 {
            assert(cur[0] == v@[a as int]);
        }
        assert(trim_start(cur) == cur);
    }
    let mut b: usize = n;
    while b > a && char_is_space(v[b - 1])
        invariant
            n == v@.len(),
            a <= b <= n,
            trim_start(v@) == trim_start(v@.subrange(a as int, n as int)),
            trim_end(v@.subrange(a as int, n as int)) == trim_end(
                v@.subrange(a as int, b as int),
            ),
        decreases b,
    {
        proof {
            let cur = v@.subrange(a as int, b as int);
            assert(cur.last() == v@[b - 1]);
            assert(cur.drop_last() =~= v@.subrange(a as int, b as int - 1));
        }
        b -= 1;
    }
    proof {
        let cur = v@.subrange(a as int, b as int);
        if cur.len() > 0 {
            assert(cur.last() == v@[b - 1]);
        }
        assert(trim_end(cur) == cur);
    }
    let mut t: Vec<char> = Vec::new();
    let mut j: usize = a;
    while j < b
        invariant
            n == v@.len(),
            a <= j <= b <= n,
            t@ == v@.subrange(a as int, j as int),
        decreases b - j,
    {
        t.push(v[j]);
        assert(t@ =~= v@.subrange(a as int, j as int + 1));
        j += 1;
    }
    assert(t@ == trim(v@));
    t
}

} // verus!
