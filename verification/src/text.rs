//! Character-level text utilities used throughout the generator.
//!
//! Every function works on the characters of a string (`s@`), and each one
//! is specified by a spec function over `Seq<char>`.

use vstd::prelude::*;

verus! {

/// Appends one character to a string (`String::push`).
#[verifier::external_body]
pub(crate) fn push_char(s: &mut String, c: char)
    ensures
        final(s)@ == old(s)@.push(c),
{
    s.push(c);
}

/// The characters of a string, in order.
pub fn chars_of(s: &str) -> (res: Vec<char>)
    ensures
        res@ == s@,
{
    let mut res: Vec<char> = Vec::new();
    for c in it: s.chars()
        invariant
            res@ == it.seq().take(it.index() as int),
    {
        res.push(c);
    }
    res
}

/// The string made of the given characters.
pub fn string_of(cs: &[char]) -> (res: String)
    ensures
        res@ == cs@,
{
    let mut res = String::new();
    let mut i: usize = 0;
    while i < cs.len()
        invariant
            i <= cs@.len(),
            res@ == cs@.take(i as int),
        decreases cs@.len() - i,
    {
        push_char(&mut res, cs[i]);
        i = i + 1;
        assert(res@ =~= cs@.take(i as int));
    }
    assert(cs@.take(cs@.len() as int) =~= cs@);
    res
}

/// Characters `from..to` of `s`, as a string.
pub fn substring(s: &str, from: usize, to: usize) -> (res: String)
    requires
        from <= to <= s@.len(),
    ensures
        res@ == s@.subrange(from as int, to as int),
{
    let cs = chars_of(s);
    let mut res = String::new();
    let mut i: usize = from;
    while i < to
        invariant
            from <= i <= to,
            to <= cs@.len(),
            cs@ == s@,
            res@ == s@.subrange(from as int, i as int),
        decreases to - i,
    {
        push_char(&mut res, cs[i]);
        i = i + 1;
        assert(res@ =~= s@.subrange(from as int, i as int));
    }
    res
}

/// A copy of a string.
pub fn copy_string(s: &String) -> (res: String)
    ensures
        res@ == s@,
{
    s.clone()
}

/// Equality of the characters of two strings.
pub fn str_eq(a: &str, b: &str) -> (res: bool)
    ensures
        res == (a@ == b@),
{
    let ca = chars_of(a);
    let cb = chars_of(b);
    if ca.len() != cb.len() {
        return false;
    }
    let mut i: usize = 0;
    while i < ca.len()
        invariant
            ca@ == a@,
            cb@ == b@,
            ca@.len() == cb@.len(),
            i <= ca@.len(),
            forall|j: int| 0 <= j < i ==> ca@[j] == cb@[j],
        decreases ca@.len() - i,
    {
        if ca[i] != cb[i] {
            return false;
        }
        i = i + 1;
    }
    assert(ca@ =~= cb@);
    true
}

/// `p` is a prefix of `s`.
pub open spec fn has_prefix(s: Seq<char>, p: Seq<char>) -> bool {
    p.len() <= s.len() && s.take(p.len() as int) == p
}

/// `p` is a suffix of `s`.
pub open spec fn has_suffix(s: Seq<char>, p: Seq<char>) -> bool {
    p.len() <= s.len() && s.skip(s.len() - p.len()) == p
}

/// `str::strip_prefix`: the rest of `s` after the prefix `p`, if `s` starts with it.
pub open spec fn strip_prefix_of(s: Seq<char>, p: Seq<char>) -> Option<Seq<char>> {
    if has_prefix(s, p) {
        Some(s.skip(p.len() as int))
    } else {
        None
    }
}

/// `str::strip_suffix`: `s` without the suffix `p`, if `s` ends with it.
pub open spec fn strip_suffix_of(s: Seq<char>, p: Seq<char>) -> Option<Seq<char>> {
    if has_suffix(s, p) {
        Some(s.take(s.len() - p.len()))
    } else {
        None
    }
}

/// `s` stripped of the prefix `p` when it has it, else `s` unchanged.
pub open spec fn try_strip_prefix_of(s: Seq<char>, p: Seq<char>) -> Seq<char> {
    match strip_prefix_of(s, p) {
        Some(r) => r,
        None => s,
    }
}

/// `s` stripped of the suffix `p` when it has it, else `s` unchanged.
pub open spec fn try_strip_suffix_of(s: Seq<char>, p: Seq<char>) -> Seq<char> {
    match strip_suffix_of(s, p) {
        Some(r) => r,
        None => s,
    }
}

/// `str::starts_with`.
pub fn starts_with(s: &str, p: &str) -> (res: bool)
    ensures
        res == has_prefix(s@, p@),
{
    let cs = chars_of(s);
    let cp = chars_of(p);
    if cp.len() > cs.len() {
        return false;
    }
    let mut i: usize = 0;
    while i < cp.len()
        invariant
            cs@ == s@,
            cp@ == p@,
            cp@.len() <= cs@.len(),
            i <= cp@.len(),
            forall|j: int| 0 <= j < i ==> cs@[j] == cp@[j],
        decreases cp@.len() - i,
    {
        if cs[i] != cp[i] {
            assert(s@.take(p@.len() as int)[i as int] != p@[i as int]);
            return false;
        }
        i = i + 1;
    }
    assert(s@.take(p@.len() as int) =~= p@);
    true
}

/// `str::ends_with`.
pub fn ends_with(s: &str, p: &str) -> (res: bool)
    ensures
        res == has_suffix(s@, p@),
{
    let cs = chars_of(s);
    let cp = chars_of(p);
    if cp.len() > cs.len() {
        return false;
    }
    let off = cs.len() - cp.len();
    let mut i: usize = 0;
    while i < cp.len()
        invariant
            cs@ == s@,
            cp@ == p@,
            off + cp@.len() == cs@.len(),
            cs@.len() <= usize::MAX,
            i <= cp@.len(),
            forall|j: int| 0 <= j < i ==> cs@[off + j] == cp@[j],
        decreases cp@.len() - i,
    {
        assert(off + i < cs@.len());
        if cs[off + i] != cp[i] {
            assert(s@.skip(off as int)[i as int] != p@[i as int]);
            return false;
        }
        i = i + 1;
    }
    assert(s@.skip(off as int) =~= p@);
    true
}

/// `str::strip_prefix`, with an owned result.
pub fn strip_prefix(s: &str, p: &str) -> (res: Option<String>)
    ensures
        res matches Some(r) ==> strip_prefix_of(s@, p@) == Some(r@),
        res is None ==> strip_prefix_of(s@, p@) is None,
{
    if starts_with(s, p) {
        let n = chars_of(p).len();
        let m = chars_of(s).len();
        Some(substring(s, n, m))
    } else {
        None
    }
}

/// `str::strip_suffix`, with an owned result.
pub fn strip_suffix(s: &str, p: &str) -> (res: Option<String>)
    ensures
        res matches Some(r) ==> strip_suffix_of(s@, p@) == Some(r@),
        res is None ==> strip_suffix_of(s@, p@) is None,
{
    if ends_with(s, p) {
        let n = chars_of(p).len();
        let m = chars_of(s).len();
        Some(substring(s, 0, m - n))
    } else {
        None
    }
}

/// `s.strip_prefix(p).unwrap_or(s)`.
pub fn try_strip_prefix(s: &str, p: &str) -> (res: String)
    ensures
        res@ == try_strip_prefix_of(s@, p@),
{
    match strip_prefix(s, p) {
        Some(r) => r,
        None => s.to_owned(),
    }
}

/// `s.strip_suffix(p).unwrap_or(s)`.
pub fn try_strip_suffix(s: &str, p: &str) -> (res: String)
    ensures
        res@ == try_strip_suffix_of(s@, p@),
{
    match strip_suffix(s, p) {
        Some(r) => r,
        None => s.to_owned(),
    }
}

/// Unicode `White_Space`, as `char::is_whitespace` defines it.
pub open spec fn is_white_space(c: char) -> bool {
    ||| ('\u{9}' <= c <= '\u{d}')
    ||| c == ' '
    ||| c == '\u{85}'
    ||| c == '\u{a0}'
    ||| c == '\u{1680}'
    ||| ('\u{2000}' <= c <= '\u{200a}')
    ||| c == '\u{2028}'
    ||| c == '\u{2029}'
    ||| c == '\u{202f}'
    ||| c == '\u{205f}'
    ||| c == '\u{3000}'
}

/// `char::is_whitespace`.
pub fn is_whitespace(c: char) -> (res: bool)
    ensures
        res == is_white_space(c),
{
    ('\u{9}' <= c && c <= '\u{d}') || c == ' ' || c == '\u{85}' || c == '\u{a0}' || c == '\u{1680}'
        || ('\u{2000}' <= c && c <= '\u{200a}') || c == '\u{2028}' || c == '\u{2029}' || c
        == '\u{202f}' || c == '\u{205f}' || c == '\u{3000}'
}

/// `s` without its leading characters equal to `c` (`trim_start_matches(c)`).
pub open spec fn trim_start_char(s: Seq<char>, c: char) -> Seq<char>
    decreases s.len(),
{
    if s.len() > 0 && s[0] == c {
        trim_start_char(s.drop_first(), c)
    } else {
        s
    }
}

/// `s` without leading white space.
pub open spec fn trim_start_ws(s: Seq<char>) -> Seq<char>
    decreases s.len(),
{
    if s.len() > 0 && is_white_space(s[0]) {
        trim_start_ws(s.drop_first())
    } else {
        s
    }
}

/// `s` without trailing white space.
pub open spec fn trim_end_ws(s: Seq<char>) -> Seq<char>
    decreases s.len(),
{
    if s.len() > 0 && is_white_space(s.last()) {
        trim_end_ws(s.drop_last())
    } else {
        s
    }
}

/// `str::trim`: `s` without leading and trailing white space.
pub open spec fn trim_ws(s: Seq<char>) -> Seq<char> {
    trim_end_ws(trim_start_ws(s))
}

proof fn lemma_trim_start_char_skip(s: Seq<char>, c: char, i: int)
    requires
        0 <= i <= s.len(),
        forall|j: int| 0 <= j < i ==> s[j] == c,
    ensures
        trim_start_char(s, c) == trim_start_char(s.skip(i), c),
    decreases i,
{
    if i > 0 {
        assert(s.skip(1) =~= s.drop_first());
        lemma_trim_start_char_skip(s.drop_first(), c, i - 1);
        assert(s.drop_first().skip(i - 1) =~= s.skip(i));
    } else {
        assert(s.skip(0) =~= s);
    }
}

proof fn lemma_trim_start_ws_skip(s: Seq<char>, i: int)
    requires
        0 <= i <= s.len(),
        forall|j: int| 0 <= j < i ==> is_white_space(#[trigger] s[j]),
    ensures
        trim_start_ws(s) == trim_start_ws(s.skip(i)),
    decreases i,
{
    if i > 0 {
        lemma_trim_start_ws_skip(s.drop_first(), i - 1);
        assert(s.drop_first().skip(i - 1) =~= s.skip(i));
    } else {
        assert(s.skip(0) =~= s);
    }
}

proof fn lemma_trim_end_ws_take(s: Seq<char>, i: int)
    requires
        0 <= i <= s.len(),
        forall|j: int| i <= j < s.len() ==> is_white_space(#[trigger] s[j]),
    ensures
        trim_end_ws(s) == trim_end_ws(s.take(i)),
    decreases s.len() - i,
{
    if i < s.len() {
        lemma_trim_end_ws_take(s.drop_last(), i);
        assert(s.drop_last().take(i) =~= s.take(i));
    } else {
        assert(s.take(i) =~= s);
    }
}

/// `s.trim_start_matches(c)`.
pub fn trim_start_matches(s: &str, c: char) -> (res: String)
    ensures
        res@ == trim_start_char(s@, c),
{
    let cs = chars_of(s);
    let mut i: usize = 0;
    while i < cs.len() && cs[i] == c
        invariant
            cs@ == s@,
            i <= cs@.len(),
            forall|j: int| 0 <= j < i ==> cs@[j] == c,
        decreases cs@.len() - i,
    {
        i = i + 1;
    }
    proof {
        lemma_trim_start_char_skip(s@, c, i as int);
        assert(s@.skip(i as int) =~= s@.subrange(i as int, s@.len() as int));
    }
    substring(s, i, cs.len())
}

/// `str::trim`.
pub fn trim(s: &str) -> (res: String)
    ensures
        res@ == trim_ws(s@),
{
    let cs = chars_of(s);
    let mut i: usize = 0;
    while i < cs.len() && is_whitespace(cs[i])
        invariant
            cs@ == s@,
            i <= cs@.len(),
            forall|j: int| 0 <= j < i ==> is_white_space(#[trigger] cs@[j]),
        decreases cs@.len() - i,
    {
        i = i + 1;
    }
    let ghost rest = s@.skip(i as int);
    proof {
        lemma_trim_start_ws_skip(s@, i as int);
        assert(rest.len() == 0 || !is_white_space(rest[0]));
    }
    let mut k: usize = cs.len();
    while k > i && is_whitespace(cs[k - 1])
        invariant
            cs@ == s@,
            i <= k <= cs@.len(),
            rest == s@.skip(i as int),
            forall|j: int| k - i <= j < rest.len() ==> is_white_space(#[trigger] rest[j]),
        decreases k,
    {
        assert(rest[k - 1 - i] == cs@[k - 1]);
        k = k - 1;
    }
    proof {
        lemma_trim_end_ws_take(rest, k - i);
        assert(trim_start_ws(rest) == rest);
        assert(rest.take(k - i) =~= s@.subrange(i as int, k as int));
        let t = rest.take(k - i);
        assert(t.len() == 0 || !is_white_space(t.last()));
    }
    substring(s, i, k)
}

/// `c` is an ASCII decimal digit.
pub open spec fn is_digit(c: char) -> bool {
    '0' <= c <= '9'
}

/// The value of an ASCII decimal digit.
pub open spec fn digit_value(c: char) -> nat {
    (c as int - '0' as int) as nat
}

/// The number that a string of decimal digits denotes.
pub open spec fn digits_value(s: Seq<char>) -> nat
    decreases s.len(),
{
    if s.len() == 0 {
        0
    } else {
        digits_value(s.drop_last()) * 10 + digit_value(s.last())
    }
}

/// The digits of an unsigned number after its optional `+` sign.
pub open spec fn unsigned_digits(s: Seq<char>) -> Seq<char> {
    if s.len() > 0 && s[0] == '+' {
        s.drop_first()
    } else {
        s
    }
}

/// The number an unsigned integer literal denotes, as Rust's `str::parse`
/// reads it: an optional `+`, then one or more ASCII digits.
pub open spec fn unsigned_literal(s: Seq<char>) -> Option<nat> {
    let d = unsigned_digits(s);
    if d.len() > 0 && (forall|i: int| 0 <= i < d.len() ==> is_digit(#[trigger] d[i])) {
        Some(digits_value(d))
    } else {
        None
    }
}

/// `str::parse::<u64>().ok()`.
pub open spec fn parse_u64_of(s: Seq<char>) -> Option<u64> {
    match unsigned_literal(s) {
        Some(n) => if n <= u64::MAX {
            Some(n as u64)
        } else {
            None
        },
        None => None,
    }
}

/// `str::parse::<u32>().ok()`.
pub open spec fn parse_u32_of(s: Seq<char>) -> Option<u32> {
    match unsigned_literal(s) {
        Some(n) => if n <= u32::MAX {
            Some(n as u32)
        } else {
            None
        },
        None => None,
    }
}

proof fn lemma_digits_value_monotone(s: Seq<char>, i: int)
    requires
        0 <= i <= s.len(),
    ensures
        digits_value(s.take(i)) <= digits_value(s),
    decreases s.len() - i,
{
    if i < s.len() {
        lemma_digits_value_monotone(s.drop_last(), i);
        assert(s.drop_last().take(i) =~= s.take(i));
        assert(digits_value(s) >= digits_value(s.drop_last()));
    } else {
        assert(s.take(i) =~= s);
    }
}

/// Parses an unsigned literal whose value is compared against `max`.
fn parse_unsigned(s: &str, max: u64) -> (res: Option<u64>)
    requires
        max >= 9,
    ensures
        res matches Some(v) ==> unsigned_literal(s@) == Some(v as nat) && v <= max,
        res is None ==> !(unsigned_literal(s@) matches Some(n) && n <= max),
{
    let cs = chars_of(s);
    let start: usize = if cs.len() > 0 && cs[0] == '+' { 1 } else { 0 };
    let ghost d = unsigned_digits(s@);
    assert(d =~= s@.skip(start as int));
    if start >= cs.len() {
        return None;
    }
    let mut value: u64 = 0;
    let mut i: usize = start;
    while i < cs.len()
        invariant
            cs@ == s@,
            d == s@.skip(start as int),
            d == unsigned_digits(s@),
            start <= i <= cs@.len(),
            start < cs@.len(),
            forall|j: int| 0 <= j < i - start ==> is_digit(#[trigger] d[j]),
            value as nat == digits_value(d.take(i - start)),
            value <= max,
            max >= 9,
        decreases cs@.len() - i,
    {
        let c = cs[i];
        if !('0' <= c && c <= '9') {
            assert(d[i - start] == c);
            assert(!is_digit(d[i - start]));
            assert(!(forall|j: int| 0 <= j < d.len() ==> is_digit(#[trigger] d[j])));
            return None;
        }
        let dv = (c as u32 - '0' as u32) as u64;
        assert(d.take(i + 1 - start).drop_last() =~= d.take(i - start));
        assert(d.take(i + 1 - start).last() == c);
        assert(digit_value(c) == dv);
        assert(digits_value(d.take(i + 1 - start)) == value * 10 + dv);
        if value > (max - dv) / 10 {
            proof {
                assert(value * 10 + dv > max) by (nonlinear_arith)
                    requires
                        value > (max - dv) / 10,
                        dv <= 9,
                ;
                lemma_digits_value_monotone(d, i + 1 - start);
            }
            return None;
        }
        assert(value * 10 + dv <= max) by (nonlinear_arith)
            requires
                value <= (max - dv) / 10,
                dv <= max,
        ;
        value = value * 10 + dv;
        i = i + 1;
    }
    assert(d.take(i - start) =~= d);
    Some(value)
}

/// `str::parse::<u64>().ok()`.
pub fn parse_u64(s: &str) -> (res: Option<u64>)
    ensures
        res == parse_u64_of(s@),
{
    parse_unsigned(s, u64::MAX)
}

/// `str::parse::<u32>().ok()`.
pub fn parse_u32(s: &str) -> (res: Option<u32>)
    ensures
        res == parse_u32_of(s@),
{
    match parse_unsigned(s, u32::MAX as u64) {
        Some(v) => Some(v as u32),
        None => None,
    }
}

/// The character of a decimal digit.
pub open spec fn digit_char(d: nat) -> char {
    ('0' as u32 + d) as char
}

/// The decimal rendering of a number, as `Display` writes it.
pub open spec fn decimal(n: nat) -> Seq<char>
    decreases n,
{
    if n < 10 {
        seq![digit_char(n)]
    } else {
        decimal(n / 10).push(digit_char(n % 10))
    }
}

/// Appends the decimal rendering of `n` to `out`.
pub fn push_decimal(out: &mut String, n: u64)
    ensures
        final(out)@ == old(out)@ + decimal(n as nat),
    decreases n,
{
    if n < 10 {
        let c = char_of_digit(n);
        push_char(out, c);
        assert(old(out)@.push(c) =~= old(out)@ + decimal(n as nat));
    } else {
        push_decimal(out, n / 10);
        let c = char_of_digit(n % 10);
        push_char(out, c);
        assert(out@ =~= old(out)@ + decimal(n as nat));
    }
}

fn char_of_digit(d: u64) -> (c: char)
    requires
        d < 10,
    ensures
        c == digit_char(d as nat),
{
    if d == 0 { '0' }
    else if d == 1 { '1' }
    else if d == 2 { '2' }
    else if d == 3 { '3' }
    else if d == 4 { '4' }
    else if d == 5 { '5' }
    else if d == 6 { '6' }
    else if d == 7 { '7' }
    else if d == 8 { '8' }
    else { '9' }
}

/// Appends the characters of `s` to `out`.
pub fn push_str(out: &mut String, s: &str)
    ensures
        final(out)@ == old(out)@ + s@,
{
    out.append(s);
}

/// The position of the first occurrence of `sep` in `s` at or after `from`.
pub open spec fn occurs_at(s: Seq<char>, sep: Seq<char>, i: int) -> bool {
    0 <= i && i + sep.len() <= s.len() && s.subrange(i, i + sep.len()) == sep
}

/// `str::split_once`: the parts of `s` around the first occurrence of `sep`.
#[verifier::opaque]
pub open spec fn split_once_of(s: Seq<char>, sep: Seq<char>) -> Option<(Seq<char>, Seq<char>)> {
    if exists|i: int| occurs_at(s, sep, i) {
        let i = choose|i: int| occurs_at(s, sep, i) && forall|j: int| 0 <= j < i ==> !occurs_at(s, sep, j);
        Some((s.take(i), s.skip(i + sep.len())))
    } else {
        None
    }
}

fn occurs_at_exec(cs: &Vec<char>, cp: &Vec<char>, i: usize) -> (res: bool)
    requires
        i <= cs@.len(),
    ensures
        res == occurs_at(cs@, cp@, i as int),
{
    if cp.len() > cs.len() - i {
        return false;
    }
    let mut k: usize = 0;
    while k < cp.len()
        invariant
            i + cp@.len() <= cs@.len(),
            cs@.len() <= usize::MAX,
            k <= cp@.len(),
            forall|j: int| 0 <= j < k ==> cs@[i + j] == cp@[j],
        decreases cp@.len() - k,
    {
        if cs[i + k] != cp[k] {
            assert(cs@.subrange(i as int, i + cp@.len())[k as int] != cp@[k as int]);
            return false;
        }
        k = k + 1;
    }
    assert(cs@.subrange(i as int, i + cp@.len()) =~= cp@);
    true
}

/// `str::split_once`, with owned parts.
pub fn split_once(s: &str, sep: &str) -> (res: Option<(String, String)>)
    requires
        sep@.len() > 0,
    ensures
        res matches Some((a, b)) ==> split_once_of(s@, sep@) == Some((a@, b@)),
        res is None ==> split_once_of(s@, sep@) is None,
{
    proof { reveal(split_once_of); }
    let cs = chars_of(s);
    let cp = chars_of(sep);
    let mut i: usize = 0;
    while i < cs.len()
        invariant
            cs@ == s@,
            cp@ == sep@,
            i <= cs@.len(),
            forall|j: int| 0 <= j < i ==> !occurs_at(s@, sep@, j),
        decreases cs@.len() - i,
    {
        if occurs_at_exec(&cs, &cp, i) {
            proof {
                reveal(split_once_of);
                let k = choose|k: int| occurs_at(s@, sep@, k) && forall|j: int| 0 <= j < k ==> !occurs_at(s@, sep@, j);
                assert(occurs_at(s@, sep@, i as int) && forall|j: int| 0 <= j < i ==> !occurs_at(s@, sep@, j));
                if k < i {
                } else if k > i {
                } 
                assert(k == i);
                assert(s@.skip(i + sep@.len()) =~= s@.subrange(i + sep@.len(), s@.len() as int));
                assert(s@.take(i as int) =~= s@.subrange(0, i as int));
            }
            let a = substring(s, 0, i);
            let b = substring(s, i + cp.len(), cs.len());
            return Some((a, b));
        }
        i = i + 1;
    }
    None
}

/// The pieces of `s` between the occurrences of the character `sep` (`str::split`).
pub open spec fn split_char(s: Seq<char>, sep: char) -> Seq<Seq<char>>
    decreases s.len(),
{
    if s.len() == 0 {
        seq![seq![]]
    } else {
        let rest = split_char(s.drop_last(), sep);
        if s.last() == sep {
            rest.push(seq![])
        } else {
            rest.update(rest.len() - 1, rest.last().push(s.last()))
        }
    }
}

pub proof fn lemma_split_char_len(s: Seq<char>, sep: char)
    ensures
        split_char(s, sep).len() >= 1,
    decreases s.len(),
{
    if s.len() > 0 {
        lemma_split_char_len(s.drop_last(), sep);
    }
}

/// Splitting two texts joined by the separator gives the pieces of the
/// first, then those of the second.
pub proof fn lemma_split_char_concat(a: Seq<char>, b: Seq<char>, sep: char)
    ensures
        split_char(a + seq![sep] + b, sep) == split_char(a, sep) + split_char(b, sep),
    decreases b.len(),
{
    let x = a + seq![sep] + b;
    if b.len() == 0 {
        assert(x.drop_last() =~= a);
        assert(split_char(x, sep) =~= split_char(a, sep) + split_char(b, sep));
    } else {
        let b1 = b.drop_last();
        assert(x.drop_last() =~= a + seq![sep] + b1);
        lemma_split_char_concat(a, b1, sep);
        lemma_split_char_len(b1, sep);
        let ra = split_char(a, sep);
        let rb = split_char(b1, sep);
        if b.last() == sep {
            assert(split_char(x, sep) =~= ra + split_char(b, sep));
        } else {
            assert((ra + rb).last() == rb.last());
            assert((ra + rb).update((ra + rb).len() - 1, rb.last().push(b.last()))
                =~= ra + rb.update(rb.len() - 1, rb.last().push(b.last())));
            assert(split_char(x, sep) =~= ra + split_char(b, sep));
        }
    }
}

/// A text without the separator is a single piece.
pub proof fn lemma_split_char_whole(s: Seq<char>, sep: char)
    requires
        forall|i: int| 0 <= i < s.len() ==> s[i] != sep,
    ensures
        split_char(s, sep) == seq![s],
    decreases s.len(),
{
    if s.len() > 0 {
        lemma_split_char_whole(s.drop_last(), sep);
        assert(s[s.len() - 1] != sep);
        assert(s.drop_last().push(s.last()) =~= s);
        assert(seq![s.drop_last()].update(0, s.drop_last().push(s.last())) =~= seq![s]);
    } else {
        assert(s =~= Seq::<char>::empty());
    }
}

/// `str::split` on a character, with owned pieces.
pub fn split(s: &str, sep: char) -> (res: Vec<String>)
    ensures
        res@.len() == split_char(s@, sep).len(),
        forall|i: int| 0 <= i < res@.len() ==> #[trigger] res@[i]@ == split_char(s@, sep)[i],
{
    let cs = chars_of(s);
    let mut res: Vec<String> = Vec::new();
    let mut cur = String::new();
    let mut i: usize = 0;
    while i < cs.len()
        invariant
            cs@ == s@,
            i <= cs@.len(),
            res@.len() + 1 == split_char(s@.take(i as int), sep).len(),
            forall|k: int| 0 <= k < res@.len() ==> #[trigger] res@[k]@ == split_char(s@.take(i as int), sep)[k],
            cur@ == split_char(s@.take(i as int), sep).last(),
        decreases cs@.len() - i,
    {
        proof {
            lemma_split_char_len(s@.take(i as int), sep);
            assert(s@.take(i + 1).drop_last() =~= s@.take(i as int));
        }
        if cs[i] == sep {
            res.push(cur);
            cur = String::new();
            assert(cur@ =~= seq![]);
        } else {
            push_char(&mut cur, cs[i]);
        }
        i = i + 1;
    }
    assert(s@.take(cs@.len() as int) =~= s@);
    res.push(cur);
    res
}

/// The characters of each string of a sequence.
pub open spec fn string_views(s: Seq<String>) -> Seq<Seq<char>> {
    s.map_values(|x: String| x@)
}

/// What `str::to_lowercase` returns for a string (full Unicode lower-casing).
pub uninterp spec fn unicode_lowercase(s: Seq<char>) -> Seq<char>;

/// Calls `str::to_lowercase`, whose result depends on the characters of
/// `s` alone; the contract names that result and states nothing more of it.
#[verifier::external_body]
pub(crate) fn to_lowercase(s: &str) -> (res: String)
    ensures
        res@ == unicode_lowercase(s@),
{
    s.to_lowercase()
}

} // verus!
