use vstd::prelude::*;

verus! {

use vstd::string::StrSliceExecFns;
use vstd::string::StringExecFns;
use vstd::arithmetic::div_mod::lemma_fundamental_div_mod;

// ---------------------------------------------------------------------------
// Character classes
// ---------------------------------------------------------------------------

/// The four whitespace characters skipped between tokens.
pub open spec fn is_space(c: char) -> bool {
    c == ' ' || c == '\t' || c == '\r' || c == '\n'
}

pub open spec fn is_digit(c: char) -> bool {
    '0' as u32 <= c as u32 && c as u32 <= '9' as u32
}

pub open spec fn digit_val(c: char) -> int
    recommends
        is_digit(c),
{
    c as u32 - '0' as u32
}

/// What `char::is_alphabetic` returns; a fixed function of the character.
pub uninterp spec fn is_unicode_alpha(c: char) -> bool;

/// What `char::is_alphanumeric` returns; a fixed function of the character.
pub uninterp spec fn is_unicode_alnum(c: char) -> bool;

/// Relies on char::is_alphabetic: a pure classification of the character.
pub assume_specification[ char::is_alphabetic ](c: char) -> (r: bool)
    ensures
        r == is_unicode_alpha(c),
;

/// Relies on char::is_alphanumeric: a pure classification of the character.
pub assume_specification[ char::is_alphanumeric ](c: char) -> (r: bool)
    ensures
        r == is_unicode_alnum(c),
;

/// First character of an identifier: a letter or an underscore.
pub open spec fn is_ident_start(c: char) -> bool {
    is_unicode_alpha(c) || c == '_'
}

/// Later character of an identifier: a letter, a digit or an underscore.
pub open spec fn is_ident_char(c: char) -> bool {
    is_unicode_alnum(c) || c == '_'
}

pub fn is_space_c(c: char) -> (b: bool)
    ensures
        b == is_space(c),
{
    c == ' ' || c == '\t' || c == '\r' || c == '\n'
}

pub fn is_digit_c(c: char) -> (b: bool)
    ensures
        b == is_digit(c),
{
    '0' as u32 <= c as u32 && c as u32 <= '9' as u32
}

pub fn is_ident_start_c(c: char) -> (b: bool)
    ensures
        b == is_ident_start(c),
{
    c.is_alphabetic() || c == '_'
}

pub fn is_ident_char_c(c: char) -> (b: bool)
    ensures
        b == is_ident_char(c),
{
    c.is_alphanumeric() || c == '_'
}

// ---------------------------------------------------------------------------
// Scanning
// ---------------------------------------------------------------------------

/// First position at or after `i` that holds no whitespace.
pub open spec fn skip_ws(s: Seq<char>, i: int) -> int
    decreases s.len() - i,
{
    if 0 <= i < s.len() && is_space(s[i]) {
        skip_ws(s, i + 1)
    } else {
        i
    }
}

pub proof fn lemma_skip_ws_bounds(s: Seq<char>, i: int)
    requires
        0 <= i <= s.len(),
    ensures
        i <= skip_ws(s, i) <= s.len(),
    decreases s.len() - i,
{
    if i < s.len() && is_space(s[i]) {
        lemma_skip_ws_bounds(s, i + 1);
    }
}

pub fn skip_ws_at(s: &str, i: usize) -> (r: usize)
    requires
        i <= s@.len(),
    ensures
        r as int == skip_ws(s@, i as int),
        i <= r <= s@.len(),
{
    let len = s.unicode_len();
    let mut j = i;
    while j < len && is_space_c(s.get_char(j))
        invariant
            i <= j <= len,
            len == s@.len(),
            skip_ws(s@, i as int) == skip_ws(s@, j as int),
        decreases len - j,
    {
        j = j + 1;
    }
    j
}

/// The literal `pat` occurs at position `i` of `s`.
pub open spec fn match_at(s: Seq<char>, i: int, pat: Seq<char>) -> bool {
    0 <= i && i + pat.len() <= s.len() && s.subrange(i, i + pat.len()) == pat
}

pub fn match_at_c(s: &str, i: usize, pat: &str) -> (b: bool)
    requires
        i <= s@.len(),
    ensures
        b == match_at(s@, i as int, pat@),
{
    let len = s.unicode_len();
    let plen = pat.unicode_len();
    if plen > len - i {
        return false;
    }
    let mut j: usize = 0;
    while j < plen
        invariant
            0 <= j <= plen,
            i + plen <= len,
            len == s@.len(),
            plen == pat@.len(),
            forall|l: int| 0 <= l < j ==> s@[i + l] == pat@[l],
        decreases plen - j,
    {
        if s.get_char(i + j) != pat.get_char(j) {
            proof {
                assert(s@.subrange(i as int, i + pat@.len())[j as int] != pat@[j as int]);
            }
            return false;
        }
        j = j + 1;
    }
    proof {
        assert(s@.subrange(i as int, i + pat@.len()) =~= pat@);
    }
    true
}

/// Position of the first occurrence of `pat` at or after `from`, if any.
pub open spec fn find_from(s: Seq<char>, pat: Seq<char>, from: int) -> Option<int>
    recommends
        0 <= from,
    decreases s.len() - from,
{
    if from + pat.len() > s.len() {
        None
    } else if match_at(s, from, pat) {
        Some(from)
    } else if from + pat.len() == s.len() {
        None
    } else {
        find_from(s, pat, from + 1)
    }
}

pub proof fn lemma_find_from_bounds(s: Seq<char>, pat: Seq<char>, from: int)
    requires
        0 <= from,
    ensures
        match find_from(s, pat, from) {
            Some(p) => from <= p && p + pat.len() <= s.len() && match_at(s, p, pat),
            None => true,
        },
    decreases s.len() - from,
{
    if from + pat.len() > s.len() {
    } else if match_at(s, from, pat) {
    } else if from + pat.len() == s.len() {
    } else {
        lemma_find_from_bounds(s, pat, from + 1);
    }
}

pub fn find_from_c(s: &str, pat: &str, from: usize) -> (r: Option<usize>)
    requires
        from <= s@.len(),
    ensures
        match r {
            Some(p) => Some(p as int) == find_from(s@, pat@, from as int),
            None => find_from(s@, pat@, from as int) is None,
        },
{
    let len = s.unicode_len();
    let plen = pat.unicode_len();
    if plen > len - from {
        return None;
    }
    if plen == 0 {
        proof {
            assert(s@.subrange(from as int, from as int) =~= pat@);
        }
        return Some(from);
    }
    let last = len - plen;
    let mut j = from;
    while j < last
        invariant
            from <= j <= last,
            1 <= plen,
            len == s@.len(),
            plen == pat@.len(),
            last == len - plen,
            find_from(s@, pat@, from as int) == find_from(s@, pat@, j as int),
        decreases last - j,
    {
        if match_at_c(s, j, pat) {
            return Some(j);
        }
        j = j + 1;
    }
    if match_at_c(s, last, pat) {
        return Some(last);
    }
    None
}

/// End of the run of identifier characters starting at `i`.
pub open spec fn ident_end(s: Seq<char>, i: int) -> int
    decreases s.len() - i,
{
    if 0 <= i < s.len() && is_ident_char(s[i]) {
        ident_end(s, i + 1)
    } else {
        i
    }
}

pub proof fn lemma_ident_end_bounds(s: Seq<char>, i: int)
    requires
        0 <= i <= s.len(),
    ensures
        i <= ident_end(s, i) <= s.len(),
    decreases s.len() - i,
{
    if i < s.len() && is_ident_char(s[i]) {
        lemma_ident_end_bounds(s, i + 1);
    }
}

pub fn ident_end_at(s: &str, i: usize) -> (r: usize)
    requires
        i <= s@.len(),
    ensures
        r as int == ident_end(s@, i as int),
        i <= r <= s@.len(),
{
    let len = s.unicode_len();
    let mut j = i;
    while j < len && is_ident_char_c(s.get_char(j))
        invariant
            i <= j <= len,
            len == s@.len(),
            ident_end(s@, i as int) == ident_end(s@, j as int),
        decreases len - j,
    {
        j = j + 1;
    }
    j
}

/// End of the run of decimal digits starting at `i`.
pub open spec fn digits_end(s: Seq<char>, i: int) -> int
    decreases s.len() - i,
{
    if 0 <= i < s.len() && is_digit(s[i]) {
        digits_end(s, i + 1)
    } else {
        i
    }
}

pub proof fn lemma_digits_end_bounds(s: Seq<char>, i: int)
    requires
        0 <= i <= s.len(),
    ensures
        i <= digits_end(s, i) <= s.len(),
        forall|j: int| i <= j < digits_end(s, i) ==> is_digit(s[j]),
    decreases s.len() - i,
{
    if i < s.len() && is_digit(s[i]) {
        lemma_digits_end_bounds(s, i + 1);
    }
}

pub fn digits_end_at(s: &str, i: usize) -> (r: usize)
    requires
        i <= s@.len(),
    ensures
        r as int == digits_end(s@, i as int),
        i <= r <= s@.len(),
{
    let len = s.unicode_len();
    let mut j = i;
    while j < len && is_digit_c(s.get_char(j))
        invariant
            i <= j <= len,
            len == s@.len(),
            digits_end(s@, i as int) == digits_end(s@, j as int),
        decreases len - j,
    {
        j = j + 1;
    }
    j
}

// ---------------------------------------------------------------------------
// Decimal numbers
// ---------------------------------------------------------------------------

/// Value of a digit string, most significant first.
pub open spec fn dec_value(d: Seq<char>) -> int
    recommends
        forall|j: int| 0 <= j < d.len() ==> is_digit(d[j]),
    decreases d.len(),
{
    if d.len() == 0 {
        0
    } else {
        dec_value(d.drop_last()) * 10 + digit_val(d.last())
    }
}

/// What a decimal literal denotes as a `usize`: nothing when empty or too
/// large for the machine word.
pub open spec fn dec_as_usize(d: Seq<char>) -> Option<usize> {
    if d.len() == 0 || dec_value(d) > usize::MAX as int {
        None
    } else {
        Some(dec_value(d) as usize)
    }
}

pub proof fn lemma_dec_value_nonneg(d: Seq<char>)
    requires
        forall|j: int| 0 <= j < d.len() ==> is_digit(#[trigger] d[j]),
    ensures
        dec_value(d) >= 0,
    decreases d.len(),
{
    if d.len() > 0 {
        lemma_dec_value_nonneg(d.drop_last());
    }
}

proof fn lemma_dec_prefix_le(d: Seq<char>, k: int)
    requires
        forall|j: int| 0 <= j < d.len() ==> is_digit(#[trigger] d[j]),
        0 <= k <= d.len(),
    ensures
        dec_value(d.take(k)) <= dec_value(d),
    decreases d.len() - k,
{
    if k < d.len() {
        lemma_dec_prefix_le(d, k + 1);
        let p = d.take(k);
        let q = d.take(k + 1);
        assert(q.drop_last() =~= p);
        assert(q.last() == d[k]);
        lemma_dec_value_nonneg(p);
        assert(dec_value(q) == dec_value(p) * 10 + digit_val(d[k]));
        assert(dec_value(p) * 10 >= dec_value(p)) by (nonlinear_arith)
            requires dec_value(p) >= 0;
    } else {
        assert(d.take(k) =~= d);
    }
}

proof fn lemma_mul10_le(x: int, y: int)
    requires
        x >= 0,
        y >= 0,
    ensures
        x * 10 <= y <==> x <= y / 10,
{
    lemma_fundamental_div_mod(y, 10);
    let q = y / 10;
    let r = y % 10;
    if x <= q {
        assert(x * 10 <= q * 10) by (nonlinear_arith)
            requires x <= q;
    }
    if x * 10 <= y {
        assert(x <= q) by (nonlinear_arith)
            requires x * 10 <= 10 * q + r, 0 <= r < 10;
    }
}

/// Parse the digit run `s[lo..hi]` as a `usize`; `None` when empty or when
/// the value does not fit.
pub fn parse_usize_in(s: &str, lo: usize, hi: usize) -> (r: Option<usize>)
    requires
        lo <= hi <= s@.len(),
        forall|j: int| lo <= j < hi ==> is_digit(#[trigger] s@[j]),
    ensures
        r == dec_as_usize(s@.subrange(lo as int, hi as int)),
{
    let ghost d = s@.subrange(lo as int, hi as int);
    if lo == hi {
        return None;
    }
    let mut acc: usize = 0;
    let mut j = lo;
    while j < hi
        invariant
            lo <= j <= hi <= s@.len(),
            d == s@.subrange(lo as int, hi as int),
            forall|l: int| lo <= l < hi ==> is_digit(#[trigger] s@[l]),
            acc as int == dec_value(d.take(j - lo)),
        decreases hi - j,
    {
        let c = s.get_char(j);
        let dv: usize = (c as u32 as usize) - 48;
        proof {
            assert(s@[j as int] == d[j - lo]);
            assert(dv == digit_val(d[j - lo]));
            assert(d.take(j - lo + 1).drop_last() =~= d.take(j - lo));
            assert(d.take(j - lo + 1).last() == d[j - lo]);
            assert(forall|l: int| 0 <= l < d.len() ==> is_digit(#[trigger] d[l]));
            lemma_dec_value_nonneg(d.take(j - lo));
            lemma_mul10_le(acc as int, (usize::MAX - dv) as int);
        }
        if acc > (usize::MAX - dv) / 10 {
            proof {
                lemma_dec_prefix_le(d, j - lo + 1);
            }
            return None;
        }
        acc = acc * 10 + dv;
        j = j + 1;
    }
    proof {
        assert(d.take(hi - lo) =~= d);
    }
    Some(acc)
}

// ---------------------------------------------------------------------------
// Decimal rendering
// ---------------------------------------------------------------------------

/// The decimal digit character for `d`.
pub open spec fn digit_char(d: int) -> char
    recommends
        0 <= d <= 9,
{
    if d == 0 {
        '0'
    } else if d == 1 {
        '1'
    } else if d == 2 {
        '2'
    } else if d == 3 {
        '3'
    } else if d == 4 {
        '4'
    } else if d == 5 {
        '5'
    } else if d == 6 {
        '6'
    } else if d == 7 {
        '7'
    } else if d == 8 {
        '8'
    } else {
        '9'
    }
}

/// Decimal rendering of `n`, most significant digit first.
pub open spec fn dec_digits(n: int) -> Seq<char>
    recommends
        n >= 0,
    decreases n,
{
    if n < 10 {
        seq![digit_char(n)]
    } else {
        dec_digits(n / 10) + seq![digit_char(n % 10)]
    }
}

fn digit_str(d: usize) -> (r: &'static str)
    requires
        d < 10,
    ensures
        r@ == seq![digit_char(d as int)],
{
    proof {
        reveal_strlit("0");
        reveal_strlit("1");
        reveal_strlit("2");
        reveal_strlit("3");
        reveal_strlit("4");
        reveal_strlit("5");
        reveal_strlit("6");
        reveal_strlit("7");
        reveal_strlit("8");
        reveal_strlit("9");
    }
    let r = match d {
        0 => "0",
        1 => "1",
        2 => "2",
        3 => "3",
        4 => "4",
        5 => "5",
        6 => "6",
        7 => "7",
        8 => "8",
        _ => "9",
    };
    proof {
        assert(r@ =~= seq![digit_char(d as int)]);
    }
    r
}

/// Append the decimal rendering of `n` to `out`.
pub fn push_decimal(n: usize, out: &mut String)
    ensures
        final(out)@ == old(out)@ + dec_digits(n as int),
    decreases n,
{
    if n >= 10 {
        push_decimal(n / 10, out);
    }
    let d = digit_str(n % 10);
    out.append(d);
    proof {
        if n >= 10 {
            assert(final(out)@ =~= old(out)@ + dec_digits(n as int));
        } else {
            assert(final(out)@ =~= old(out)@ + dec_digits(n as int));
        }
    }
}

} // verus!
