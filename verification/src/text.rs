//! Character-level helpers on strings, shared by the tokenizer, the
//! response parser and the tools.

use vstd::prelude::*;

verus! {

broadcast use vstd::string::group_string_axioms;

/// The characters of `s`, in order.
pub fn chars_of(s: &str) -> (v: Vec<char>)
    ensures
        v@ == s@,
{
    let mut v: Vec<char> = Vec::new();
    for c in it: s.chars()
        invariant
            v@ == it.seq().take(it.index() as int),
    {
        v.push(c);
    }
    v
}

/// Appends one character to a string.
///
/// Calls `String::push`; the contract claims what its documentation says:
/// the character is added at the end and nothing else changes.
#[verifier::external_body]
pub(crate) fn push_char(s: &mut String, c: char)
    ensures
        final(s)@ == old(s)@.push(c),
{
    s.push(c);
}

/// A string holding exactly the characters `v[from..to]`.
pub fn string_from_range(v: &Vec<char>, from: usize, to: usize) -> (s: String)
    requires
        from <= to <= v.len(),
    ensures
        s@ == v@.subrange(from as int, to as int),
{
    let mut s = String::new();
    let mut i = from;
    while i < to
        invariant
            from <= i <= to <= v.len(),
            s@ == v@.subrange(from as int, i as int),
        decreases to - i,
    {
        push_char(&mut s, v[i]);
        i = i + 1;
        assert(s@ =~= v@.subrange(from as int, i as int));
    }
    s
}

/// A string holding exactly the characters of `v`.
pub fn string_from_chars(v: &Vec<char>) -> (s: String)
    ensures
        s@ == v@,
{
    let s = string_from_range(v, 0, v.len());
    assert(v@.subrange(0, v@.len() as int) =~= v@);
    s
}

/// Unicode `White_Space`, the property that `char::is_whitespace` and
/// `str::trim` use.
pub open spec fn is_space(c: char) -> bool {
    ||| ('\u{9}' <= c && c <= '\u{d}')
    ||| c == ' '
    ||| c == '\u{85}'
    ||| c == '\u{a0}'
    ||| c == '\u{1680}'
    ||| ('\u{2000}' <= c && c <= '\u{200a}')
    ||| c == '\u{2028}'
    ||| c == '\u{2029}'
    ||| c == '\u{202f}'
    ||| c == '\u{205f}'
    ||| c == '\u{3000}'
}

/// Whether `c` is Unicode white space.
pub fn is_space_char(c: char) -> (b: bool)
    ensures
        b == is_space(c),
{
    ('\u{9}' <= c && c <= '\u{d}') || c == ' ' || c == '\u{85}' || c == '\u{a0}' || c
        == '\u{1680}' || ('\u{2000}' <= c && c <= '\u{200a}') || c == '\u{2028}' || c
        == '\u{2029}' || c == '\u{202f}' || c == '\u{205f}' || c == '\u{3000}'
}

/// A text is blank when it is nothing but white space (what
/// `s.trim().is_empty()` tests).
pub open spec fn is_blank(s: Seq<char>) -> bool {
    forall|i: int| 0 <= i < s.len() ==> is_space(#[trigger] s[i])
}

/// Whether the string is blank.
pub fn blank(s: &String) -> (b: bool)
    ensures
        b == is_blank(s@),
{
    let v = chars_of(s.as_str());
    let mut i: usize = 0;
    while i < v.len()
        invariant
            v@ == s@,
            i <= v.len(),
            forall|j: int| 0 <= j < i ==> is_space(#[trigger] v@[j]),
        decreases v.len() - i,
    {
        if !is_space_char(v[i]) {
            return false;
        }
        i = i + 1;
    }
    true
}

/// Number of leading white-space characters of `s`.
pub open spec fn lead_len(s: Seq<char>) -> nat
    decreases s.len(),
{
    if s.len() > 0 && is_space(s[0]) {
        1 + lead_len(s.skip(1))
    } else {
        0
    }
}

/// Number of trailing white-space characters of `s`.
pub open spec fn trail_len(s: Seq<char>) -> nat
    decreases s.len(),
{
    if s.len() > 0 && is_space(s.last()) {
        1 + trail_len(s.drop_last())
    } else {
        0
    }
}

/// `s` with leading and trailing white space removed (`str::trim`).
pub open spec fn trim(s: Seq<char>) -> Seq<char> {
    let front = s.skip(lead_len(s) as int);
    front.take(front.len() - trail_len(front))
}

/// Whether `pat` occurs in `s` at position `at`.
pub open spec fn occurs_at(s: Seq<char>, at: int, pat: Seq<char>) -> bool {
    0 <= at && at + pat.len() <= s.len() && s.subrange(at, at + pat.len()) == pat
}

/// Whether `s` begins with `pat`.
pub open spec fn starts_with(s: Seq<char>, pat: Seq<char>) -> bool {
    occurs_at(s, 0, pat)
}

/// Whether `pat` occurs anywhere in `s`.
pub open spec fn contains(s: Seq<char>, pat: Seq<char>) -> bool {
    exists|at: int| occurs_at(s, at, pat)
}

/// Whether `pat` occurs in `v` at position `at`.
pub fn matches_at(v: &Vec<char>, at: usize, pat: &Vec<char>) -> (b: bool)
    ensures
        b == occurs_at(v@, at as int, pat@),
{
    if at > v.len() || pat.len() > v.len() - at {
        return false;
    }
    let mut k: usize = 0;
    while k < pat.len()
        invariant
            at + pat.len() <= v.len(),
            k <= pat.len(),
            forall|j: int| 0 <= j < k ==> v@[at + j] == pat@[j],
        decreases pat.len() - k,
    {
        if v[at + k] != pat[k] {
            assert(v@.subrange(at as int, at + pat.len())[k as int] != pat@[k as int]);
            return false;
        }
        k = k + 1;
    }
    assert(v@.subrange(at as int, at + pat.len()) =~= pat@);
    true
}


/// Whether `pat` occurs anywhere in `v`.
pub fn find(v: &Vec<char>, pat: &Vec<char>) -> (b: bool)
    ensures
        b == contains(v@, pat@),
{
    if pat.len() > v.len() {
        return false;
    }
    let last = v.len() - pat.len();
    let mut at: usize = 0;
    loop
        invariant
            last == v.len() - pat.len(),
            at <= last,
            forall|j: int| 0 <= j < at ==> !occurs_at(v@, j, pat@),
        ensures
            forall|j: int| 0 <= j <= last ==> !occurs_at(v@, j, pat@),
        decreases last - at,
    {
        if matches_at(v, at, pat) {
            return true;
        }
        if at == last {
            break;
        }
        at = at + 1;
    }
    assert forall|j: int| !occurs_at(v@, j, pat@) by {
        if 0 <= j && j <= last {
        }
    }
    false
}

/// The decimal digit for `d` (which is below 10).
pub open spec fn digit_char(d: int) -> char {
    (d + 48) as char
}

/// The decimal representation of `n`, without sign or leading zeros
/// (`0` for zero), as `Display` writes an unsigned integer.
pub open spec fn decimal(n: nat) -> Seq<char>
    decreases n,
{
    if n < 10 {
        seq![digit_char(n as int)]
    } else {
        decimal(n / 10).push(digit_char((n % 10) as int))
    }
}

/// Every character of a decimal representation is a digit, and it is one
/// character long exactly for numbers below ten.
pub proof fn lemma_decimal_digits(n: nat)
    ensures
        decimal(n).len() >= 1,
        (decimal(n).len() == 1) == (n < 10),
        forall|k: int| 0 <= k < decimal(n).len() ==> '0' <= #[trigger] decimal(n)[k] <= '9',
    decreases n,
{
    if n >= 10 {
        lemma_decimal_digits(n / 10);
    }
}

/// Different numbers have different decimal representations.
pub proof fn lemma_decimal_injective(a: nat, b: nat)
    requires
        decimal(a) == decimal(b),
    ensures
        a == b,
    decreases a,
{
    lemma_decimal_digits(a);
    lemma_decimal_digits(b);
    if a >= 10 && b >= 10 {
        let da = digit_char((a % 10) as int);
        let db = digit_char((b % 10) as int);
        assert(decimal(a) == decimal(a / 10).push(da));
        assert(decimal(b) == decimal(b / 10).push(db));
        assert(decimal(a).drop_last() =~= decimal(a / 10));
        assert(decimal(b).drop_last() =~= decimal(b / 10));
        lemma_decimal_injective(a / 10, b / 10);
        assert(decimal(a).last() == da);
        assert(decimal(b).last() == db);
        assert(da == db);
        assert(a % 10 == b % 10);
        assert(a == 10 * (a / 10) + a % 10);
        assert(b == 10 * (b / 10) + b % 10);
    } else if a < 10 && b < 10 {
        assert(decimal(a)[0] == digit_char(a as int));
        assert(decimal(b)[0] == digit_char(b as int));
        assert(decimal(a)[0] == decimal(b)[0]);
    }
}

/// The decimal representation of `n`.
pub fn decimal_string(n: u64) -> (s: String)
    ensures
        s@ == decimal(n as nat),
{
    let mut digits: Vec<char> = Vec::new();
    let mut m = n;
    let ghost mut rest: Seq<char> = Seq::empty();
    while m >= 10
        invariant
            decimal(n as nat) == decimal(m as nat) + rest,
            digits@ == rest.reverse(),
        decreases m,
    {
        let d = (m % 10) as u8;
        let c = (48u8 + d) as char;
        proof {
            assert(c == digit_char(d as int));
            assert(decimal(m as nat) == decimal((m / 10) as nat).push(c));
            assert(decimal((m / 10) as nat).push(c) + rest =~= decimal((m / 10) as nat) + (
            seq![c] + rest));
            rest = seq![c] + rest;
            assert(digits@.push(c) =~= rest.reverse());
        }
        digits.push(c);
        m = m / 10;
    }
    let c = (48u8 + (m as u8)) as char;
    assert(c == digit_char(m as int));
    digits.push(c);
    proof {
        let full = seq![c] + rest;
        assert(decimal(n as nat) =~= full);
        assert(digits@ =~= full.reverse());
    }
    let mut s = String::new();
    let mut i = digits.len();
    while i > 0
        invariant
            i <= digits.len(),
            s@ == digits@.subrange(i as int, digits.len() as int).reverse(),
        decreases i,
    {
        i = i - 1;
        push_char(&mut s, digits[i]);
        assert(s@ =~= digits@.subrange(i as int, digits.len() as int).reverse());
    }
    proof {
        assert(digits@.subrange(0, digits.len() as int) =~= digits@);
        assert(digits@.reverse().reverse() =~= digits@);
        let full = seq![c] + rest;
        assert(full.reverse().reverse() =~= full);
    }
    s
}

/// ASCII lowercase of one character (`char::to_ascii_lowercase`).
pub open spec fn ascii_lower(c: char) -> char {
    if 'A' <= c && c <= 'Z' {
        ((c as u32) + 32) as char
    } else {
        c
    }
}

/// Whether two texts are equal ignoring ASCII case
/// (`str::eq_ignore_ascii_case`).
pub open spec fn eq_ignore_ascii_case(a: Seq<char>, b: Seq<char>) -> bool {
    a.len() == b.len() && forall|i: int| 0 <= i < a.len() ==> ascii_lower(#[trigger] a[i]) == ascii_lower(b[i])
}

fn ascii_lower_char(c: char) -> (r: char)
    ensures
        r == ascii_lower(c),
{
    if 'A' <= c && c <= 'Z' {
        ((c as u8) + 32) as char
    } else {
        c
    }
}

/// Whether `v` equals `pat` ignoring ASCII case.
pub fn equal_ignoring_ascii_case(v: &Vec<char>, pat: &Vec<char>) -> (b: bool)
    ensures
        b == eq_ignore_ascii_case(v@, pat@),
{
    if v.len() != pat.len() {
        return false;
    }
    let mut i: usize = 0;
    while i < v.len()
        invariant
            v.len() == pat.len(),
            i <= v.len(),
            forall|j: int| 0 <= j < i ==> ascii_lower(#[trigger] v@[j]) == ascii_lower(pat@[j]),
        decreases v.len() - i,
    {
        if ascii_lower_char(v[i]) != ascii_lower_char(pat[i]) {
            return false;
        }
        i = i + 1;
    }
    true
}

proof fn lemma_lead_len_bound(s: Seq<char>)
    ensures
        lead_len(s) <= s.len(),
        forall|i: int| 0 <= i < lead_len(s) ==> is_space(#[trigger] s[i]),
        lead_len(s) < s.len() ==> !is_space(s[lead_len(s) as int]),
    decreases s.len(),
{
    if s.len() > 0 && is_space(s[0]) {
        lemma_lead_len_bound(s.skip(1));
        assert forall|i: int| 0 <= i < lead_len(s) implies is_space(#[trigger] s[i]) by {
            if i > 0 {
                assert(s[i] == s.skip(1)[i - 1]);
            }
        }
        if lead_len(s) < s.len() {
            assert(s[lead_len(s) as int] == s.skip(1)[lead_len(s.skip(1)) as int]);
        }
    }
}

proof fn lemma_trail_len_bound(s: Seq<char>)
    ensures
        trail_len(s) <= s.len(),
        forall|i: int| s.len() - trail_len(s) <= i < s.len() ==> is_space(#[trigger] s[i]),
        trail_len(s) < s.len() ==> !is_space(s[s.len() - trail_len(s) - 1]),
    decreases s.len(),
{
    if s.len() > 0 && is_space(s.last()) {
        lemma_trail_len_bound(s.drop_last());
        assert forall|i: int| s.len() - trail_len(s) <= i < s.len() implies is_space(
            #[trigger] s[i],
        ) by {
            if i < s.len() - 1 {
                assert(s[i] == s.drop_last()[i]);
            }
        }
        if trail_len(s) < s.len() {
            assert(s[s.len() - trail_len(s) - 1] == s.drop_last()[s.drop_last().len() - trail_len(
                s.drop_last(),
            ) - 1]);
        }
    }
}

/// Leading white space: the first `n` characters are white space and the
/// next one (if any) is not.
proof fn lemma_lead_len_is(s: Seq<char>, n: int)
    requires
        0 <= n <= s.len(),
        forall|i: int| 0 <= i < n ==> is_space(#[trigger] s[i]),
        n < s.len() ==> !is_space(s[n]),
    ensures
        lead_len(s) == n,
    decreases s.len(),
{
    if n > 0 {
        assert(is_space(s[0]));
        assert forall|i: int| 0 <= i < n - 1 implies is_space(#[trigger] s.skip(1)[i]) by {
            assert(s.skip(1)[i] == s[i + 1]);
        }
        if n - 1 < s.len() - 1 {
            assert(s.skip(1)[n - 1] == s[n]);
        }
        lemma_lead_len_is(s.skip(1), n - 1);
    }
}

proof fn lemma_trail_len_is(s: Seq<char>, n: int)
    requires
        0 <= n <= s.len(),
        forall|i: int| s.len() - n <= i < s.len() ==> is_space(#[trigger] s[i]),
        n < s.len() ==> !is_space(s[s.len() - n - 1]),
    ensures
        trail_len(s) == n,
    decreases s.len(),
{
    if n > 0 {
        assert(is_space(s[s.len() - 1]));
        let d = s.drop_last();
        assert forall|i: int| d.len() - (n - 1) <= i < d.len() implies is_space(#[trigger] d[i]) by {
            assert(d[i] == s[i]);
        }
        if n - 1 < d.len() {
            assert(d[d.len() - (n - 1) - 1] == s[s.len() - n - 1]);
        }
        lemma_trail_len_is(d, n - 1);
    }
}

/// Trimming leaves a text alone when it neither starts nor ends with
/// white space.
pub proof fn lemma_trim_unchanged(s: Seq<char>)
    requires
        s.len() > 0 ==> !is_space(s[0]) && !is_space(s.last()),
    ensures
        trim(s) == s,
{
    lemma_lead_len_is(s, 0);
    assert(s.skip(0) =~= s);
    lemma_trail_len_is(s, 0);
    assert(s.take(s.len() as int) =~= s);
}

/// The characters of `v` with leading and trailing white space removed.
pub fn trimmed(v: &Vec<char>) -> (r: Vec<char>)
    ensures
        r@ == trim(v@),
{
    let mut start: usize = 0;
    while start < v.len() && is_space_char(v[start])
        invariant
            start <= v.len(),
            forall|i: int| 0 <= i < start ==> is_space(#[trigger] v@[i]),
        decreases v.len() - start,
    {
        start = start + 1;
    }
    proof {
        lemma_lead_len_is(v@, start as int);
    }
    let mut end: usize = v.len();
    while end > start && is_space_char(v[end - 1])
        invariant
            start <= end <= v.len(),
            forall|i: int| end <= i < v.len() ==> is_space(#[trigger] v@[i]),
        decreases end,
    {
        end = end - 1;
    }
    let ghost front = v@.skip(start as int);
    proof {
        assert forall|i: int| front.len() - (v.len() - end) <= i < front.len() implies is_space(
            #[trigger] front[i],
        ) by {
            assert(front[i] == v@[i + start]);
        }
        if v.len() - end < front.len() {
            assert(front[front.len() - (v.len() - end) - 1] == v@[end - 1]);
        }
        lemma_trail_len_is(front, (v.len() - end) as int);
    }
    let mut r: Vec<char> = Vec::new();
    let mut i = start;
    while i < end
        invariant
            start <= i <= end <= v.len(),
            r@ == v@.subrange(start as int, i as int),
        decreases end - i,
    {
        r.push(v[i]);
        i = i + 1;
        assert(r@ =~= v@.subrange(start as int, i as int));
    }
    assert(r@ =~= front.take(front.len() - trail_len(front)));
    r
}

} // verus!
