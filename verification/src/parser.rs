use vstd::prelude::*;

verus! {

use vstd::string::StrSliceExecFns;
use crate::scan::skip_ws;
use crate::scan::skip_ws_at;
use crate::scan::match_at;
use crate::scan::match_at_c;
use crate::scan::find_from;
use crate::scan::find_from_c;
use crate::scan::lemma_find_from_bounds;
use crate::scan::ident_end;
use crate::scan::ident_end_at;
use crate::scan::digits_end;
use crate::scan::digits_end_at;
use crate::scan::lemma_digits_end_bounds;
use crate::scan::is_ident_start;
use crate::scan::is_ident_start_c;
use crate::scan::is_digit;
use crate::scan::is_digit_c;
use crate::scan::digit_val;
use crate::scan::dec_as_usize;
use crate::scan::parse_usize_in;
use crate::wgsl::PType;
use crate::wgsl::TType;
use crate::wgsl::ptype_keyword;

// ---------------------------------------------------------------------------
// Scalar keywords
// ---------------------------------------------------------------------------

/// Scalar keyword at position `i`: the parsed kind and the position after it.
pub open spec fn spec_scalar(s: Seq<char>, i: int) -> Option<(int, PType)> {
    if match_at(s, i, ptype_keyword(PType::Bool)) {
        Some((i + 4, PType::Bool))
    } else if match_at(s, i, ptype_keyword(PType::I32)) {
        Some((i + 3, PType::I32))
    } else if match_at(s, i, ptype_keyword(PType::I64)) {
        Some((i + 3, PType::I64))
    } else if match_at(s, i, ptype_keyword(PType::U32)) {
        Some((i + 3, PType::U32))
    } else if match_at(s, i, ptype_keyword(PType::U64)) {
        Some((i + 3, PType::U64))
    } else if match_at(s, i, ptype_keyword(PType::F16)) {
        Some((i + 3, PType::F16))
    } else if match_at(s, i, ptype_keyword(PType::F32)) {
        Some((i + 3, PType::F32))
    } else if match_at(s, i, ptype_keyword(PType::F64)) {
        Some((i + 3, PType::F64))
    } else {
        None
    }
}

pub proof fn lemma_scalar_bounds(s: Seq<char>, i: int)
    ensures
        match spec_scalar(s, i) {
            Some((j, p)) => i < j <= s.len(),
            None => true,
        },
{
}

fn scalar_at(s: &str, i: usize) -> (r: Option<(usize, PType)>)
    requires
        i <= s@.len(),
    ensures
        match r {
            Some((j, p)) => spec_scalar(s@, i as int) == Some((j as int, p)) && j <= s@.len(),
            None => spec_scalar(s@, i as int) is None,
        },
{
    proof {
        reveal_strlit("bool");
        reveal_strlit("i32");
        reveal_strlit("i64");
        reveal_strlit("u32");
        reveal_strlit("u64");
        reveal_strlit("f16");
        reveal_strlit("f32");
        reveal_strlit("f64");
        assert("bool"@ =~= ptype_keyword(PType::Bool));
        assert("i32"@ =~= ptype_keyword(PType::I32));
        assert("i64"@ =~= ptype_keyword(PType::I64));
        assert("u32"@ =~= ptype_keyword(PType::U32));
        assert("u64"@ =~= ptype_keyword(PType::U64));
        assert("f16"@ =~= ptype_keyword(PType::F16));
        assert("f32"@ =~= ptype_keyword(PType::F32));
        assert("f64"@ =~= ptype_keyword(PType::F64));
    }
    let _len = s.unicode_len();
    if match_at_c(s, i, "bool") {
        Some((i + 4, PType::Bool))
    } else if match_at_c(s, i, "i32") {
        Some((i + 3, PType::I32))
    } else if match_at_c(s, i, "i64") {
        Some((i + 3, PType::I64))
    } else if match_at_c(s, i, "u32") {
        Some((i + 3, PType::U32))
    } else if match_at_c(s, i, "u64") {
        Some((i + 3, PType::U64))
    } else if match_at_c(s, i, "f16") {
        Some((i + 3, PType::F16))
    } else if match_at_c(s, i, "f32") {
        Some((i + 3, PType::F32))
    } else if match_at_c(s, i, "f64") {
        Some((i + 3, PType::F64))
    } else {
        None
    }
}

// ---------------------------------------------------------------------------
// Vector, matrix, array
// ---------------------------------------------------------------------------

/// `vec<DIGIT><scalar>`: the literal `vec`, one digit, `<`, a scalar keyword,
/// `>`.
pub open spec fn spec_vector(s: Seq<char>, i: int) -> Option<(int, TType)> {
    if !match_at(s, i, seq!['v', 'e', 'c']) {
        None
    } else if !(i + 4 <= s.len() && match_at(s, i + 4, seq!['<'])) {
        None
    } else {
        match spec_scalar(s, i + 5) {
            None => None,
            Some((j, p)) => if match_at(s, j, seq!['>']) {
                if is_digit(s[i + 3]) {
                    Some((j + 1, TType::Vector(digit_val(s[i + 3]) as usize, p)))
                } else {
                    None
                }
            } else {
                None
            },
        }
    }
}

/// `mat<DIGIT>x<DIGIT><scalar>`: the literal `mat`, three characters of which
/// the middle must be `x` and the outer two digits, `<`, a scalar keyword,
/// `>`.
pub open spec fn spec_matrix(s: Seq<char>, i: int) -> Option<(int, TType)> {
    if !match_at(s, i, seq!['m', 'a', 't']) {
        None
    } else if !(i + 6 <= s.len() && match_at(s, i + 6, seq!['<'])) {
        None
    } else if s[i + 4] != 'x' {
        None
    } else {
        match spec_scalar(s, i + 7) {
            None => None,
            Some((j, p)) => if match_at(s, j, seq!['>']) {
                if is_digit(s[i + 3]) && is_digit(s[i + 5]) {
                    Some(
                        (
                            j + 1,
                            TType::Matrix {
                                m: digit_val(s[i + 3]) as usize,
                                n: digit_val(s[i + 5]) as usize,
                                typed: p,
                            },
                        ),
                    )
                } else {
                    None
                }
            } else {
                None
            },
        }
    }
}

/// A scalar, vector or matrix, as the element of an array.
pub open spec fn spec_elem(s: Seq<char>, i: int) -> Option<(int, TType)> {
    match spec_scalar(s, i) {
        Some((j, p)) => Some((j, TType::Scalar(p))),
        None => match spec_vector(s, i) {
            Some(r) => Some(r),
            None => spec_matrix(s, i),
        },
    }
}

/// `array<ELEM,DIGITS>`: the literal `array<`, an element type, a comma with
/// surrounding whitespace, a run of digits that fits in `usize`, `>`.
pub open spec fn spec_array(s: Seq<char>, i: int) -> Option<(int, TType)> {
    if !match_at(s, i, seq!['a', 'r', 'r', 'a', 'y', '<']) {
        None
    } else {
        match spec_elem(s, i + 6) {
            None => None,
            Some((j, t)) => {
                let j2 = skip_ws(s, j);
                if !match_at(s, j2, seq![',']) {
                    None
                } else {
                    let j3 = skip_ws(s, j2 + 1);
                    let e = digits_end(s, j3);
                    match dec_as_usize(s.subrange(j3, e)) {
                        None => None,
                        Some(count) => if match_at(s, e, seq!['>']) {
                            Some((e + 1, TType::Array(count, Box::new(t))))
                        } else {
                            None
                        },
                    }
                }
            },
        }
    }
}

/// Any type expression, followed by an optional `;`.
pub open spec fn spec_typer(s: Seq<char>, i: int) -> Option<(int, TType)> {
    let first = match spec_elem(s, i) {
        Some(r) => Some(r),
        None => spec_array(s, i),
    };
    match first {
        None => None,
        Some((j, t)) => if match_at(s, j, seq![';']) {
            Some((j + 1, t))
        } else {
            Some((j, t))
        },
    }
}

pub proof fn lemma_typer_bounds(s: Seq<char>, i: int)
    requires
        0 <= i,
    ensures
        match spec_typer(s, i) {
            Some((j, t)) => i < j <= s.len(),
            None => true,
        },
{
    lemma_scalar_bounds(s, i);
    if spec_elem(s, i) is None && match_at(s, i, seq!['a', 'r', 'r', 'a', 'y', '<']) {
        match spec_elem(s, i + 6) {
            None => {},
            Some((j, t)) => {
                crate::scan::lemma_skip_ws_bounds(s, j);
                lemma_scalar_bounds(s, i + 6);
                let j2 = skip_ws(s, j);
                if match_at(s, j2, seq![',']) {
                    crate::scan::lemma_skip_ws_bounds(s, j2 + 1);
                    lemma_digits_end_bounds(s, skip_ws(s, j2 + 1));
                }
            },
        }
    }
}

fn vector_at(s: &str, i: usize) -> (r: Option<(usize, TType)>)
    requires
        i <= s@.len(),
    ensures
        match r {
            Some((j, t)) => spec_vector(s@, i as int) == Some((j as int, t)) && j <= s@.len(),
            None => spec_vector(s@, i as int) is None,
        },
{
    proof {
        reveal_strlit("vec");
        reveal_strlit("<");
        reveal_strlit(">");
        assert("vec"@ =~= seq!['v', 'e', 'c']);
        assert("<"@ =~= seq!['<']);
        assert(">"@ =~= seq!['>']);
    }
    let len = s.unicode_len();
    if !match_at_c(s, i, "vec") {
        return None;
    }
    if !(len - i >= 4 && match_at_c(s, i + 4, "<")) {
        return None;
    }
    match scalar_at(s, i + 5) {
        None => None,
        Some((j, p)) => {
            if match_at_c(s, j, ">") {
                let c = s.get_char(i + 3);
                if is_digit_c(c) {
                    let count: usize = (c as u32 as usize) - 48;
                    Some((j + 1, TType::Vector(count, p)))
                } else {
                    None
                }
            } else {
                None
            }
        },
    }
}

fn matrix_at(s: &str, i: usize) -> (r: Option<(usize, TType)>)
    requires
        i <= s@.len(),
    ensures
        match r {
            Some((j, t)) => spec_matrix(s@, i as int) == Some((j as int, t)) && j <= s@.len(),
            None => spec_matrix(s@, i as int) is None,
        },
{
    proof {
        reveal_strlit("mat");
        reveal_strlit("<");
        reveal_strlit(">");
        assert("mat"@ =~= seq!['m', 'a', 't']);
        assert("<"@ =~= seq!['<']);
        assert(">"@ =~= seq!['>']);
    }
    let len = s.unicode_len();
    if !match_at_c(s, i, "mat") {
        return None;
    }
    if !(len - i >= 6 && match_at_c(s, i + 6, "<")) {
        return None;
    }
    if s.get_char(i + 4) != 'x' {
        return None;
    }
    match scalar_at(s, i + 7) {
        None => None,
        Some((j, p)) => {
            if match_at_c(s, j, ">") {
                let cm = s.get_char(i + 3);
                let cn = s.get_char(i + 5);
                if is_digit_c(cm) && is_digit_c(cn) {
                    let m: usize = (cm as u32 as usize) - 48;
                    let n: usize = (cn as u32 as usize) - 48;
                    Some((j + 1, TType::Matrix { m, n, typed: p }))
                } else {
                    None
                }
            } else {
                None
            }
        },
    }
}

fn elem_at(s: &str, i: usize) -> (r: Option<(usize, TType)>)
    requires
        i <= s@.len(),
    ensures
        match r {
            Some((j, t)) => spec_elem(s@, i as int) == Some((j as int, t)) && j <= s@.len(),
            None => spec_elem(s@, i as int) is None,
        },
{
    match scalar_at(s, i) {
        Some((j, p)) => Some((j, TType::Scalar(p))),
        None => match vector_at(s, i) {
            Some(r) => Some(r),
            None => matrix_at(s, i),
        },
    }
}

fn array_at(s: &str, i: usize) -> (r: Option<(usize, TType)>)
    requires
        i <= s@.len(),
    ensures
        match r {
            Some((j, t)) => spec_array(s@, i as int) == Some((j as int, t)) && j <= s@.len(),
            None => spec_array(s@, i as int) is None,
        },
{
    proof {
        reveal_strlit("array<");
        reveal_strlit(",");
        reveal_strlit(">");
        assert("array<"@ =~= seq!['a', 'r', 'r', 'a', 'y', '<']);
        assert(","@ =~= seq![',']);
        assert(">"@ =~= seq!['>']);
    }
    let len = s.unicode_len();
    if !match_at_c(s, i, "array<") {
        return None;
    }
    match elem_at(s, i + 6) {
        None => None,
        Some((j, t)) => {
            let j2 = skip_ws_at(s, j);
            if !match_at_c(s, j2, ",") {
                return None;
            }
            let j3 = skip_ws_at(s, j2 + 1);
            let e = digits_end_at(s, j3);
            proof {
                lemma_digits_end_bounds(s@, j3 as int);
            }
            match parse_usize_in(s, j3, e) {
                None => None,
                Some(count) => {
                    if match_at_c(s, e, ">") {
                        Some((e + 1, TType::Array(count, Box::new(t))))
                    } else {
                        None
                    }
                },
            }
        },
    }
}

fn typer_at(s: &str, i: usize) -> (r: Option<(usize, TType)>)
    requires
        i <= s@.len(),
    ensures
        match r {
            Some((j, t)) => spec_typer(s@, i as int) == Some((j as int, t)) && j <= s@.len(),
            None => spec_typer(s@, i as int) is None,
        },
{
    proof {
        reveal_strlit(";");
        assert(";"@ =~= seq![';']);
    }
    let _len = s.unicode_len();
    let first = match elem_at(s, i) {
        Some(r) => Some(r),
        None => array_at(s, i),
    };
    match first {
        None => None,
        Some((j, t)) => {
            if match_at_c(s, j, ";") {
                Some((j + 1, t))
            } else {
                Some((j, t))
            }
        },
    }
}

// ---------------------------------------------------------------------------
// Key=value argument lists
// ---------------------------------------------------------------------------

/// First position at or after `i` that holds a comma, or the end.
pub open spec fn comma_end(s: Seq<char>, i: int) -> int
    decreases s.len() - i,
{
    if 0 <= i < s.len() && s[i] != ',' {
        comma_end(s, i + 1)
    } else {
        i
    }
}

pub proof fn lemma_comma_end_bounds(s: Seq<char>, i: int)
    requires
        0 <= i <= s.len(),
    ensures
        i <= comma_end(s, i) <= s.len(),
    decreases s.len() - i,
{
    if i < s.len() && s[i] != ',' {
        lemma_comma_end_bounds(s, i + 1);
    }
}

fn comma_end_at(s: &str, i: usize) -> (r: usize)
    requires
        i <= s@.len(),
    ensures
        r as int == comma_end(s@, i as int),
        i <= r <= s@.len(),
{
    let len = s.unicode_len();
    let mut j = i;
    while j < len && s.get_char(j) != ','
        invariant
            i <= j <= len,
            len == s@.len(),
            comma_end(s@, i as int) == comma_end(s@, j as int),
        decreases len - j,
    {
        j = j + 1;
    }
    j
}

/// One `key=value` pair at `j`: a non-empty key up to the first `=`, a
/// non-empty value up to the next comma or the end, then an optional `, ` or
/// `,` separator.
pub open spec fn spec_pair(b: Seq<char>, j: int) -> Option<(int, Seq<char>, Seq<char>)> {
    if j < 0 || j > b.len() {
        None
    } else {
        match find_from(b, seq!['='], j) {
            None => None,
            Some(eq) => if eq == j {
                None
            } else {
                let ve = comma_end(b, eq + 1);
                if ve == eq + 1 {
                    None
                } else {
                    let next = if match_at(b, ve, seq![',', ' ']) {
                        ve + 2
                    } else if match_at(b, ve, seq![',']) {
                        ve + 1
                    } else {
                        ve
                    };
                    Some((next, b.subrange(j, eq), b.subrange(eq + 1, ve)))
                }
            },
        }
    }
}

pub proof fn lemma_pair_advances(b: Seq<char>, j: int)
    ensures
        match spec_pair(b, j) {
            Some((j2, k, v)) => j < j2 <= b.len(),
            None => true,
        },
{
    if 0 <= j <= b.len() {
        match find_from(b, seq!['='], j) {
            None => {},
            Some(eq) => {
                lemma_find_from_bounds(b, seq!['='], j);
                lemma_comma_end_bounds(b, eq + 1);
            },
        }
    }
}

/// The pairs of an argument body, in order, later pairs overriding earlier
/// ones on lookup.
pub open spec fn spec_args_list(b: Seq<char>, j: int) -> Seq<(Seq<char>, Seq<char>)>
    decreases b.len() - j,
    via spec_args_list_dec
{
    match spec_pair(b, j) {
        None => Seq::empty(),
        Some((j2, k, v)) => seq![(k, v)] + spec_args_list(b, j2),
    }
}

#[via_fn]
proof fn spec_args_list_dec(b: Seq<char>, j: int) {
    lemma_pair_advances(b, j);
}

/// The value of the last pair carrying `key`, if any; the last one counts,
/// as a later duplicate key overwrites an earlier one.
pub open spec fn args_lookup(ps: Seq<(Seq<char>, Seq<char>)>, key: Seq<char>) -> Option<Seq<char>>
    decreases ps.len(),
{
    if ps.len() == 0 {
        None
    } else if ps.last().0 == key {
        Some(ps.last().1)
    } else {
        args_lookup(ps.drop_last(), key)
    }
}

/// A parenthesized argument list at `i`: everything up to the first closing
/// parenthesis, split into `key=value` pairs.
pub open spec fn spec_arguments(s: Seq<char>, i: int) -> Option<(int, Seq<(Seq<char>, Seq<char>)>)> {
    if !match_at(s, i, seq!['(']) {
        None
    } else {
        match find_from(s, seq![')'], i + 1) {
            None => None,
            Some(rp) => Some((rp + 1, spec_args_list(s.subrange(i + 1, rp), 0))),
        }
    }
}

/// The views of an argument vector's pairs.
pub open spec fn pairs_view(v: Seq<(String, String)>) -> Seq<(Seq<char>, Seq<char>)> {
    Seq::new(v.len(), |i: int| (v[i].0@, v[i].1@))
}

fn pair_at(b: &str, j: usize) -> (r: Option<(usize, String, String)>)
    requires
        j <= b@.len(),
    ensures
        match r {
            Some((j2, k, v)) => spec_pair(b@, j as int) == Some((j2 as int, k@, v@)) && j2
                <= b@.len(),
            None => spec_pair(b@, j as int) is None,
        },
{
    proof {
        reveal_strlit("=");
        reveal_strlit(", ");
        reveal_strlit(",");
        assert("="@ =~= seq!['=']);
        assert(", "@ =~= seq![',', ' ']);
        assert(","@ =~= seq![',']);
    }
    let _len = b.unicode_len();
    let eq = match find_from_c(b, "=", j) {
        None => {
            return None;
        },
        Some(e) => e,
    };
    proof {
        lemma_find_from_bounds(b@, "="@, j as int);
    }
    if eq == j {
        return None;
    }
    let ve = comma_end_at(b, eq + 1);
    if ve == eq + 1 {
        return None;
    }
    let next = if match_at_c(b, ve, ", ") {
        ve + 2
    } else if match_at_c(b, ve, ",") {
        ve + 1
    } else {
        ve
    };
    let name = b.substring_char(j, eq).to_owned();
    let value = b.substring_char(eq + 1, ve).to_owned();
    Some((next, name, value))
}

fn arguments_at(s: &str, i: usize) -> (r: Option<(usize, Vec<(String, String)>)>)
    requires
        i <= s@.len(),
    ensures
        match r {
            Some((j, ps)) => ({
                &&& spec_arguments(s@, i as int) matches Some((sj, sps))
                &&& sj == j as int
                &&& sps == pairs_view(ps@)
                &&& j <= s@.len()
            }),
            None => spec_arguments(s@, i as int) is None,
        },
{
    proof {
        reveal_strlit("(");
        reveal_strlit(")");
        assert("("@ =~= seq!['(']);
        assert(")"@ =~= seq![')']);
    }
    let _len = s.unicode_len();
    if !match_at_c(s, i, "(") {
        return None;
    }
    let rp = match find_from_c(s, ")", i + 1) {
        None => {
            return None;
        },
        Some(p) => p,
    };
    proof {
        lemma_find_from_bounds(s@, ")"@, i as int + 1);
    }
    let body = s.substring_char(i + 1, rp);
    let ghost bseq = body@;
    let mut acc: Vec<(String, String)> = Vec::new();
    let mut j: usize = 0;
    loop
        invariant
            j <= bseq.len(),
            bseq == body@,
            body@ == s@.subrange(i as int + 1, rp as int),
            spec_args_list(bseq, 0) == pairs_view(acc@) + spec_args_list(bseq, j as int),
        ensures
            spec_args_list(bseq, 0) == pairs_view(acc@) + spec_args_list(bseq, j as int),
            spec_pair(bseq, j as int) is None,
        decreases bseq.len() - j,
    {
        match pair_at(body, j) {
            None => {
                break ;
            },
            Some((j2, k, v)) => {
                proof {
                    lemma_pair_advances(bseq, j as int);
                }
                let ghost acc0 = acc@;
                acc.push((k, v));
                proof {
                    assert(pairs_view(acc@) =~= pairs_view(acc0) + seq![(k@, v@)]);
                    assert(pairs_view(acc0) + seq![(k@, v@)] + spec_args_list(bseq, j2 as int)
                        =~= pairs_view(acc0) + (seq![(k@, v@)] + spec_args_list(
                        bseq,
                        j2 as int,
                    )));
                }
                j = j2;
            },
        }
    }
    proof {
        assert(spec_args_list(bseq, j as int) =~= Seq::<(Seq<char>, Seq<char>)>::empty());
        assert(pairs_view(acc@) + Seq::<(Seq<char>, Seq<char>)>::empty() =~= pairs_view(acc@));
    }
    Some((rp + 1, acc))
}

/// Parse a parenthesized `key=value, ...` argument list at the start of
/// `input`; the returned position is just after the closing parenthesis.
pub fn arguments(input: &str) -> (r: Option<(usize, Vec<(String, String)>)>)
    ensures
        match r {
            Some((j, ps)) => ({
                &&& spec_arguments(input@, 0) matches Some((sj, sps))
                &&& sj == j as int
                &&& sps == pairs_view(ps@)
            }),
            None => spec_arguments(input@, 0) is None,
        },
{
    arguments_at(input, 0)
}

/// Value of the last pair carrying `key`.
fn args_get(pairs: &Vec<(String, String)>, key: &str) -> (r: Option<String>)
    ensures
        match r {
            Some(v) => args_lookup(pairs_view(pairs@), key@) == Some(v@),
            None => args_lookup(pairs_view(pairs@), key@) is None,
        },
{
    let mut i: usize = pairs.len();
    proof {
        assert(pairs_view(pairs@).take(pairs@.len() as int) =~= pairs_view(pairs@));
    }
    while i > 0
        invariant
            i <= pairs@.len(),
            args_lookup(pairs_view(pairs@), key@) == args_lookup(
                pairs_view(pairs@).take(i as int),
                key@,
            ),
        decreases i,
    {
        i = i - 1;
        let hit = crate::wgsl::str_eq(pairs[i].0.as_str(), key);
        proof {
            assert(pairs_view(pairs@).take(i + 1).last() == (pairs@[i as int].0@, pairs@[
                i as int].1@));
            assert(pairs_view(pairs@).take(i + 1).drop_last() =~= pairs_view(pairs@).take(
                i as int,
            ));
        }
        if hit {
            return Some(pairs[i].1.clone());
        }
    }
    proof {
        assert(pairs_view(pairs@).take(0) =~= Seq::<(Seq<char>, Seq<char>)>::empty());
    }
    None
}

// ---------------------------------------------------------------------------
// Slider hints
// ---------------------------------------------------------------------------

/// `b` matches `a` read without regard to ASCII case; `b` is given in lower
/// case.
pub open spec fn ci_match_at(s: Seq<char>, i: int, kw: Seq<char>) -> bool {
    0 <= i && i + kw.len() <= s.len() && forall|l: int|
        0 <= l < kw.len() ==> char_lower_eq(s[i + l], #[trigger] kw[l])
}

/// `lower` is `c` with an upper-case ASCII letter folded to lower case.
pub open spec fn char_lower_eq(c: char, lower: char) -> bool {
    c == lower || ('A' as u32 <= c as u32 && c as u32 <= 'Z' as u32 && c as u32 + 32
        == lower as u32)
}

fn ci_match_at_c(s: &str, i: usize, kw: &str) -> (b: bool)
    requires
        i <= s@.len(),
    ensures
        b == ci_match_at(s@, i as int, kw@),
{
    let len = s.unicode_len();
    let klen = kw.unicode_len();
    if klen > len - i {
        return false;
    }
    let mut j: usize = 0;
    while j < klen
        invariant
            0 <= j <= klen,
            i + klen <= len,
            len == s@.len(),
            klen == kw@.len(),
            forall|l: int| 0 <= l < j ==> char_lower_eq(s@[i + l], #[trigger] kw@[l]),
        decreases klen - j,
    {
        let c = s.get_char(i + j);
        let k = kw.get_char(j);
        let ok = c == k || ('A' as u32 <= c as u32 && c as u32 <= 'Z' as u32 && c as u32 + 32
            == k as u32);
        if !ok {
            return false;
        }
        j = j + 1;
    }
    true
}

/// The exponent part of a float literal at `t`: nothing at all, or `e`/`E`,
/// an optional sign, and at least one digit reaching the end.
pub open spec fn float_exp_at(s: Seq<char>, t: int) -> bool {
    if t == s.len() {
        true
    } else if 0 <= t < s.len() && (s[t] == 'e' || s[t] == 'E') {
        let u = if t + 1 < s.len() && (s[t + 1] == '+' || s[t + 1] == '-') {
            t + 2
        } else {
            t + 1
        };
        digits_end(s, u) > u && digits_end(s, u) == s.len()
    } else {
        false
    }
}

/// The grammar that `str::parse::<f32>` documents: an optional sign, then
/// `inf`, `infinity` or `nan` without regard to case, or digits with an
/// optional point and an optional exponent.
pub open spec fn is_float_literal(s: Seq<char>) -> bool {
    let i0: int = if s.len() > 0 && (s[0] == '+' || s[0] == '-') {
        1
    } else {
        0
    };
    ||| (ci_match_at(s, i0, seq!['i', 'n', 'f']) && i0 + 3 == s.len())
    ||| (ci_match_at(s, i0, seq!['i', 'n', 'f', 'i', 'n', 'i', 't', 'y']) && i0 + 8 == s.len())
    ||| (ci_match_at(s, i0, seq!['n', 'a', 'n']) && i0 + 3 == s.len())
    ||| ({
        let d1 = digits_end(s, i0);
        if d1 > i0 {
            if d1 == s.len() {
                true
            } else if s[d1] == '.' {
                float_exp_at(s, digits_end(s, d1 + 1))
            } else {
                float_exp_at(s, d1)
            }
        } else {
            d1 < s.len() && s[d1] == '.' && digits_end(s, d1 + 1) > d1 + 1 && float_exp_at(
                s,
                digits_end(s, d1 + 1),
            )
        }
    })
}

/// Decide the float-literal grammar.
pub fn is_float_literal_c(s: &str) -> (b: bool)
    ensures
        b == is_float_literal(s@),
{
    proof {
        reveal_strlit("inf");
        reveal_strlit("infinity");
        reveal_strlit("nan");
        assert("inf"@ =~= seq!['i', 'n', 'f']);
        assert("infinity"@ =~= seq!['i', 'n', 'f', 'i', 'n', 'i', 't', 'y']);
        assert("nan"@ =~= seq!['n', 'a', 'n']);
    }
    let len = s.unicode_len();
    let i0: usize = if len > 0 && (s.get_char(0) == '+' || s.get_char(0) == '-') {
        1
    } else {
        0
    };
    if ci_match_at_c(s, i0, "inf") && i0 + 3 == len {
        return true;
    }
    if ci_match_at_c(s, i0, "infinity") && i0 + 8 == len {
        return true;
    }
    if ci_match_at_c(s, i0, "nan") && i0 + 3 == len {
        return true;
    }
    let d1 = digits_end_at(s, i0);
    if d1 > i0 {
        if d1 == len {
            true
        } else if s.get_char(d1) == '.' {
            let d2 = digits_end_at(s, d1 + 1);
            float_exp_at_c(s, d2)
        } else {
            float_exp_at_c(s, d1)
        }
    } else {
        if d1 < len && s.get_char(d1) == '.' {
            let d2 = digits_end_at(s, d1 + 1);
            d2 > d1 + 1 && float_exp_at_c(s, d2)
        } else {
            false
        }
    }
}

fn float_exp_at_c(s: &str, t: usize) -> (b: bool)
    requires
        t <= s@.len(),
    ensures
        b == float_exp_at(s@, t as int),
{
    let len = s.unicode_len();
    if t == len {
        return true;
    }
    let c = s.get_char(t);
    if c == 'e' || c == 'E' {
        let u: usize = if t + 1 < len && (s.get_char(t + 1) == '+' || s.get_char(t + 1) == '-') {
            t + 2
        } else {
            t + 1
        };
        let d = digits_end_at(s, u);
        d > u && d == len
    } else {
        false
    }
}

/// The one recognized hint: `range(min=<float>, max=<float>)`, both
/// endpoints matching the float-literal grammar. Anything else yields no
/// hint.
pub open spec fn spec_structslot_option(c: Seq<char>) -> Option<crate::wgsl::SlotOptionModel> {
    if !match_at(c, 0, seq!['r', 'a', 'n', 'g', 'e']) {
        None
    } else {
        match spec_arguments(c, 5) {
            None => None,
            Some((end, args)) => match args_lookup(args, seq!['m', 'i', 'n']) {
                None => None,
                Some(mn) => match args_lookup(args, seq!['m', 'a', 'x']) {
                    None => None,
                    Some(mx) => if is_float_literal(mn) && is_float_literal(mx) {
                        Some(crate::wgsl::SlotOptionModel::Slider { min: mn, max: mx })
                    } else {
                        None
                    },
                },
            },
        }
    }
}

/// Parse a trailing-comment hint; an unrecognized or malformed hint is no
/// failure, it simply yields no hint.
pub fn structslot_option(comment: &str) -> (r: Option<crate::wgsl::StructSlotOptions>)
    ensures
        match r {
            Some(o) => spec_structslot_option(comment@) == Some(o@),
            None => spec_structslot_option(comment@) is None,
        },
{
    proof {
        reveal_strlit("range");
        reveal_strlit("min");
        reveal_strlit("max");
        assert("range"@ =~= seq!['r', 'a', 'n', 'g', 'e']);
        assert("min"@ =~= seq!['m', 'i', 'n']);
        assert("max"@ =~= seq!['m', 'a', 'x']);
    }
    if !match_at_c(comment, 0, "range") {
        return None;
    }
    let args = match arguments_at(comment, 5) {
        None => {
            return None;
        },
        Some((_end, ps)) => ps,
    };
    let mn = match args_get(&args, "min") {
        None => {
            return None;
        },
        Some(v) => v,
    };
    let mx = match args_get(&args, "max") {
        None => {
            return None;
        },
        Some(v) => v,
    };
    if is_float_literal_c(mn.as_str()) && is_float_literal_c(mx.as_str()) {
        Some(crate::wgsl::StructSlotOptions::Slider { min: mn, max: mx })
    } else {
        None
    }
}

// ---------------------------------------------------------------------------
// Struct bodies
// ---------------------------------------------------------------------------

/// Why a parse failed: the named struct does not occur, the option marker
/// does not occur, or the text breaks the grammar at `pos`.
#[derive(Debug, Clone, Copy, PartialEq, Eq, Structural)]
pub enum ParseError {
    StructNotFound,
    MarkerNotFound,
    Syntax { pos: usize },
}

/// First position at or after `i` that holds a line break, or the end.
pub open spec fn line_end(s: Seq<char>, i: int) -> int
    decreases s.len() - i,
{
    if 0 <= i < s.len() && s[i] != '\r' && s[i] != '\n' {
        line_end(s, i + 1)
    } else {
        i
    }
}

pub proof fn lemma_line_end_bounds(s: Seq<char>, i: int)
    requires
        0 <= i <= s.len(),
    ensures
        i <= line_end(s, i) <= s.len(),
    decreases s.len() - i,
{
    if i < s.len() && s[i] != '\r' && s[i] != '\n' {
        lemma_line_end_bounds(s, i + 1);
    }
}

fn line_end_at(s: &str, i: usize) -> (r: usize)
    requires
        i <= s@.len(),
    ensures
        r as int == line_end(s@, i as int),
        i <= r <= s@.len(),
{
    let len = s.unicode_len();
    let mut j = i;
    while j < len && s.get_char(j) != '\r' && s.get_char(j) != '\n'
        invariant
            i <= j <= len,
            len == s@.len(),
            line_end(s@, i as int) == line_end(s@, j as int),
        decreases len - j,
    {
        j = j + 1;
    }
    j
}

/// A trailing comment: whitespace, `//`, whitespace, the comment text up to
/// the line break, which must be a carriage return and line feed. Yields the
/// position after the break and the comment text's bounds.
pub open spec fn spec_any_comment(s: Seq<char>, i: int) -> Option<(int, int, int)> {
    if i < 0 || i > s.len() {
        None
    } else {
        let j1 = skip_ws(s, i);
        if !match_at(s, j1, seq!['/', '/']) {
            None
        } else {
            let j2 = skip_ws(s, j1 + 2);
            let k = line_end(s, j2);
            if match_at(s, k, seq!['\r', '\n']) {
                Some((k + 2, j2, k))
            } else {
                None
            }
        }
    }
}

pub proof fn lemma_any_comment_bounds(s: Seq<char>, i: int)
    ensures
        match spec_any_comment(s, i) {
            Some((j6, lo, hi)) => i <= j6 <= s.len() && 0 <= lo <= hi <= s.len(),
            None => true,
        },
{
    if 0 <= i <= s.len() {
        crate::scan::lemma_skip_ws_bounds(s, i);
        let j1 = skip_ws(s, i);
        if match_at(s, j1, seq!['/', '/']) {
            crate::scan::lemma_skip_ws_bounds(s, j1 + 2);
            lemma_line_end_bounds(s, skip_ws(s, j1 + 2));
        }
    }
}

fn any_comment_at(s: &str, i: usize) -> (r: Option<(usize, usize, usize)>)
    requires
        i <= s@.len(),
    ensures
        match r {
            Some((j6, lo, hi)) => spec_any_comment(s@, i as int) == Some(
                (j6 as int, lo as int, hi as int),
            ) && lo <= hi <= s@.len() && j6 <= s@.len(),
            None => spec_any_comment(s@, i as int) is None,
        },
{
    proof {
        reveal_strlit("//");
        reveal_strlit("\r\n");
        assert("//"@ =~= seq!['/', '/']);
        assert("\r\n"@ =~= seq!['\r', '\n']);
    }
    let _len = s.unicode_len();
    let j1 = skip_ws_at(s, i);
    if !match_at_c(s, j1, "//") {
        return None;
    }
    let j2 = skip_ws_at(s, j1 + 2);
    let k = line_end_at(s, j2);
    if match_at_c(s, k, "\r\n") {
        Some((k + 2, j2, k))
    } else {
        None
    }
}

/// One slot: an identifier, a colon, a type, each with surrounding
/// whitespace, then an optional trailing comment whose text is read as a
/// hint.
pub open spec fn spec_struct_slot(s: Seq<char>, i: int) -> Option<(int, crate::wgsl::SlotModel)> {
    if i < 0 || i > s.len() {
        None
    } else {
        let j1 = skip_ws(s, i);
        if !(j1 < s.len() && is_ident_start(s[j1])) {
            None
        } else {
            let e = ident_end(s, j1 + 1);
            let j2 = skip_ws(s, e);
            if !match_at(s, j2, seq![':']) {
                None
            } else {
                let j3 = skip_ws(s, j2 + 1);
                match spec_typer(s, j3) {
                    None => None,
                    Some((j4, t)) => {
                        let j5 = skip_ws(s, j4);
                        let after = match spec_any_comment(s, j5) {
                            Some((j6, lo, hi)) => (j6, s.subrange(lo, hi)),
                            None => (j5, Seq::<char>::empty()),
                        };
                        Some(
                            (
                                after.0,
                                crate::wgsl::SlotModel {
                                    ident: s.subrange(j1, e),
                                    typed: t,
                                    options: spec_structslot_option(after.1),
                                },
                            ),
                        )
                    },
                }
            }
        }
    }
}

pub proof fn lemma_struct_slot_advances(s: Seq<char>, i: int)
    ensures
        match spec_struct_slot(s, i) {
            Some((j2, m)) => i < j2 <= s.len(),
            None => true,
        },
{
    if 0 <= i <= s.len() {
        crate::scan::lemma_skip_ws_bounds(s, i);
        let j1 = skip_ws(s, i);
        if j1 < s.len() && is_ident_start(s[j1]) {
            crate::scan::lemma_ident_end_bounds(s, j1 + 1);
            let e = ident_end(s, j1 + 1);
            crate::scan::lemma_skip_ws_bounds(s, e);
            let j2 = skip_ws(s, e);
            if match_at(s, j2, seq![':']) {
                crate::scan::lemma_skip_ws_bounds(s, j2 + 1);
                let j3 = skip_ws(s, j2 + 1);
                lemma_typer_bounds(s, j3);
                match spec_typer(s, j3) {
                    None => {},
                    Some((j4, t)) => {
                        crate::scan::lemma_skip_ws_bounds(s, j4);
                        lemma_any_comment_bounds(s, skip_ws(s, j4));
                    },
                }
            }
        }
    }
}

fn struct_slot_at(s: &str, i: usize) -> (r: Option<(usize, crate::wgsl::StructSlot)>)
    requires
        i <= s@.len(),
    ensures
        match r {
            Some((j2, slot)) => spec_struct_slot(s@, i as int) matches Some((sj, m)) && sj
                == j2 as int && m == slot@ && j2 <= s@.len(),
            None => spec_struct_slot(s@, i as int) is None,
        },
{
    proof {
        reveal_strlit(":");
        assert(":"@ =~= seq![':']);
    }
    let len = s.unicode_len();
    let j1 = skip_ws_at(s, i);
    if !(j1 < len && is_ident_start_c(s.get_char(j1))) {
        return None;
    }
    let e = ident_end_at(s, j1 + 1);
    let j2 = skip_ws_at(s, e);
    if !match_at_c(s, j2, ":") {
        return None;
    }
    let j3 = skip_ws_at(s, j2 + 1);
    match typer_at(s, j3) {
        None => None,
        Some((j4, t)) => {
            let j5 = skip_ws_at(s, j4);
            let mut next: usize = j5;
            let options: Option<crate::wgsl::StructSlotOptions> = match any_comment_at(s, j5) {
                Some((j6, lo, hi)) => {
                    next = j6;
                    let ctext = s.substring_char(lo, hi);
                    structslot_option(ctext)
                },
                None => {
                    proof {
                        let empty = Seq::<char>::empty();
                        assert(!match_at(empty, 0, seq!['r', 'a', 'n', 'g', 'e']));
                    }
                    None
                },
            };
            let ident = s.substring_char(j1, e).to_owned();
            Some((next, crate::wgsl::StructSlot { identifier: ident, typed: t, options }))
        },
    }
}

/// The slots of a struct body, parsed in declaration order until the body is
/// exhausted; a malformed slot fails the whole operation with the position
/// of the first unread character.
pub open spec fn spec_slots(b: Seq<char>, j: int) -> Result<Seq<crate::wgsl::SlotModel>, int>
    decreases b.len() - j,
    via spec_slots_dec
{
    if j < 0 || j > b.len() {
        Err(j)
    } else {
        let j1 = skip_ws(b, j);
        if j1 == b.len() {
            Ok(Seq::empty())
        } else {
            match spec_struct_slot(b, j) {
                None => Err(j1),
                Some((j2, m)) => match spec_slots(b, j2) {
                    Ok(rest) => Ok(seq![m] + rest),
                    Err(e) => Err(e),
                },
            }
        }
    }
}

#[via_fn]
proof fn spec_slots_dec(b: Seq<char>, j: int) {
    lemma_struct_slot_advances(b, j);
}

/// The models of a slot vector.
pub open spec fn slots_deep(v: Seq<crate::wgsl::StructSlot>) -> Seq<crate::wgsl::SlotModel> {
    Seq::new(v.len(), |i: int| v[i]@)
}

fn parse_slots_at(b: &str, j: usize) -> (r: Result<Vec<crate::wgsl::StructSlot>, usize>)
    requires
        j <= b@.len(),
    ensures
        match r {
            Ok(v) => spec_slots(b@, j as int) == Ok::<Seq<crate::wgsl::SlotModel>, int>(
                slots_deep(v@),
            ),
            Err(p) => spec_slots(b@, j as int) == Err::<Seq<crate::wgsl::SlotModel>, int>(
                p as int,
            ) && p <= b@.len(),
        },
    decreases b@.len() - j,
{
    let len = b.unicode_len();
    let j1 = skip_ws_at(b, j);
    if j1 == len {
        let v: Vec<crate::wgsl::StructSlot> = Vec::new();
        proof {
            assert(slots_deep(v@) =~= Seq::<crate::wgsl::SlotModel>::empty());
        }
        return Ok(v);
    }
    match struct_slot_at(b, j) {
        None => Err(j1),
        Some((j2, slot)) => {
            proof {
                lemma_struct_slot_advances(b@, j as int);
            }
            match parse_slots_at(b, j2) {
                Err(p) => Err(p),
                Ok(mut rest) => {
                    let ghost rest0 = rest@;
                    rest.insert(0, slot);
                    proof {
                        assert(slots_deep(rest@) =~= seq![slot@] + slots_deep(rest0));
                    }
                    Ok(rest)
                },
            }
        },
    }
}

/// What parsing the struct called `name` out of `s` yields: the slot models
/// in declaration order, or the failure.
pub open spec fn spec_parse_struct_named(s: Seq<char>, name: Seq<char>) -> Result<
    Seq<crate::wgsl::SlotModel>,
    ParseError,
> {
    match find_from(s, name, 0) {
        None => Err(ParseError::StructNotFound),
        Some(p0) => {
            let p = p0 + name.len();
            let p1: int = if p < s.len() && s[p] == ' ' {
                p + 1
            } else {
                p
            };
            if !(p1 < s.len() && s[p1] == '{') {
                Err(ParseError::Syntax { pos: p1 as usize })
            } else {
                match find_from(s, seq!['}'], p1 + 1) {
                    None => Err(ParseError::Syntax { pos: (p1 + 1) as usize }),
                    Some(q) => match spec_slots(s.subrange(p1 + 1, q), 0) {
                        Ok(ms) => Ok(ms),
                        Err(rel) => Err(ParseError::Syntax { pos: (p1 + 1 + rel) as usize }),
                    },
                }
            }
        },
    }
}

/// Locate the struct called `name` in `file_content` and parse its slots:
/// the first occurrence of the name, an optional single space, a brace-
/// delimited body scanned flat to the first closing brace, and the slots
/// within. A missing struct, a missing brace or a malformed slot fails the
/// whole operation.
pub fn parse_struct_named(file_content: &str, name: &str) -> (r: Result<
    Vec<crate::wgsl::StructSlot>,
    ParseError,
>)
    ensures
        match r {
            Ok(v) => spec_parse_struct_named(file_content@, name@) == Ok::<
                Seq<crate::wgsl::SlotModel>,
                ParseError,
            >(slots_deep(v@)),
            Err(e) => spec_parse_struct_named(file_content@, name@) == Err::<
                Seq<crate::wgsl::SlotModel>,
                ParseError,
            >(e),
        },
{
    proof {
        reveal_strlit("}");
        assert("}"@ =~= seq!['}']);
    }
    let len = file_content.unicode_len();
    let p0 = match find_from_c(file_content, name, 0) {
        None => {
            return Err(ParseError::StructNotFound);
        },
        Some(p) => p,
    };
    proof {
        lemma_find_from_bounds(file_content@, name@, 0);
    }
    let nlen = name.unicode_len();
    let p = p0 + nlen;
    let p1: usize = if p < len && file_content.get_char(p) == ' ' {
        p + 1
    } else {
        p
    };
    if !(p1 < len && file_content.get_char(p1) == '{') {
        return Err(ParseError::Syntax { pos: p1 });
    }
    let q = match find_from_c(file_content, "}", p1 + 1) {
        None => {
            return Err(ParseError::Syntax { pos: p1 + 1 });
        },
        Some(q) => q,
    };
    proof {
        lemma_find_from_bounds(file_content@, "}"@, p1 as int + 1);
    }
    let body = file_content.substring_char(p1 + 1, q);
    match parse_slots_at(body, 0) {
        Ok(v) => Ok(v),
        Err(rel) => Err(ParseError::Syntax { pos: p1 + 1 + rel }),
    }
}

// ---------------------------------------------------------------------------
// Safe injection point
// ---------------------------------------------------------------------------

/// Where extra definitions can be spliced in after the struct called `name`:
/// three characters past the position after its closing brace. Fails exactly
/// when the name or its brace span cannot be found.
pub open spec fn spec_adjust(s: Seq<char>, name: Seq<char>) -> Option<int> {
    match find_from(s, name, 0) {
        None => None,
        Some(p0) => {
            let p = p0 + name.len();
            let p1: int = if p < s.len() && s[p] == ' ' {
                p + 1
            } else {
                p
            };
            if !(p1 < s.len() && s[p1] == '{') {
                None
            } else {
                match find_from(s, seq!['}'], p1 + 1) {
                    None => None,
                    Some(q) => Some(q + 4),
                }
            }
        },
    }
}

/// The injection point exists exactly when the main parse gets past the
/// brace span: a found name and a balanced body.
pub proof fn lemma_adjust_agrees(s: Seq<char>, name: Seq<char>)
    ensures
        spec_parse_struct_named(s, name) is Ok ==> spec_adjust(s, name) is Some,
        spec_adjust(s, name) is None ==> spec_parse_struct_named(s, name) is Err,
{
}

/// An injection point lies at most three characters past the end of the
/// text.
pub proof fn lemma_adjust_le(s: Seq<char>, name: Seq<char>)
    ensures
        match spec_adjust(s, name) {
            Some(a) => 0 <= a <= s.len() + 3,
            None => true,
        },
{
    match find_from(s, name, 0) {
        None => {},
        Some(p0) => {
            lemma_find_from_bounds(s, name, 0);
            let p = p0 + name.len();
            let p1: int = if p < s.len() && s[p] == ' ' {
                p + 1
            } else {
                p
            };
            if p1 < s.len() && s[p1] == '{' {
                lemma_find_from_bounds(s, seq!['}'], p1 + 1);
            }
        },
    }
}

/// Byte offset for splicing definitions after the struct called `name`,
/// computed over the identical brace span as the main parse.
pub fn adjustment_for_safe_insert(file_content: &str, name: &str) -> (r: Option<usize>)
    requires
        file_content@.len() <= usize::MAX - 3,
    ensures
        match r {
            Some(a) => spec_adjust(file_content@, name@) == Some(a as int),
            None => spec_adjust(file_content@, name@) is None,
        },
{
    proof {
        reveal_strlit("}");
        assert("}"@ =~= seq!['}']);
    }
    let len = file_content.unicode_len();
    let p0 = match find_from_c(file_content, name, 0) {
        None => {
            return None;
        },
        Some(p) => p,
    };
    proof {
        lemma_find_from_bounds(file_content@, name@, 0);
    }
    let nlen = name.unicode_len();
    let p = p0 + nlen;
    let p1: usize = if p < len && file_content.get_char(p) == ' ' {
        p + 1
    } else {
        p
    };
    if !(p1 < len && file_content.get_char(p1) == '{') {
        return None;
    }
    match find_from_c(file_content, "}", p1 + 1) {
        None => None,
        Some(q) => {
            proof {
                lemma_find_from_bounds(file_content@, "}"@, p1 as int + 1);
            }
            Some(q + 4)
        },
    }
}

/// Parsing the same source and name twice yields identical outcomes: the
/// same slot sequence with the same computed offsets, or the same error.
pub proof fn lemma_parse_idempotent(
    s: Seq<char>,
    name: Seq<char>,
    r1: Result<Seq<crate::wgsl::SlotModel>, ParseError>,
    r2: Result<Seq<crate::wgsl::SlotModel>, ParseError>,
)
    requires
        r1 == spec_parse_struct_named(s, name),
        r2 == spec_parse_struct_named(s, name),
    ensures
        r1 == r2,
        forall|i: int|
            r1 is Ok && 1 <= i <= (r1->Ok_0).len() ==> crate::wgsl::offset_of(
                crate::wgsl::model_types(r1->Ok_0),
                i,
            ) == crate::wgsl::offset_of(crate::wgsl::model_types(r2->Ok_0), i),
{
}

// ---------------------------------------------------------------------------
// Shader options
// ---------------------------------------------------------------------------

/// How a sampler wraps coordinates outside the unit range.
#[derive(Debug, Clone, Copy, PartialEq, Eq, Structural)]
pub enum AddressMode {
    ClampToEdge,
    ClampToBorder,
    Repeat,
    MirrorRepeat,
}

/// A per-shader option read from the option comment block.
#[derive(Debug, Clone, PartialEq)]
pub enum ShaderOptions {
    Texture {
        path: String,
        name: String,
        u_addr_mode: Option<AddressMode>,
        v_addr_mode: Option<AddressMode>,
        w_addr_mode: Option<AddressMode>,
    },
    Something,
}

/// Mathematical model of a shader option.
pub enum ShaderOptionModel {
    Texture {
        path: Seq<char>,
        name: Seq<char>,
        u_addr_mode: Option<AddressMode>,
        v_addr_mode: Option<AddressMode>,
        w_addr_mode: Option<AddressMode>,
    },
    Something,
}

impl View for ShaderOptions {
    type V = ShaderOptionModel;

    open spec fn view(&self) -> ShaderOptionModel {
        match self {
            ShaderOptions::Texture { path, name, u_addr_mode, v_addr_mode, w_addr_mode } => {
                ShaderOptionModel::Texture {
                    path: path@,
                    name: name@,
                    u_addr_mode: *u_addr_mode,
                    v_addr_mode: *v_addr_mode,
                    w_addr_mode: *w_addr_mode,
                }
            },
            ShaderOptions::Something => ShaderOptionModel::Something,
        }
    }
}

impl ShaderOptions {
    /// Whether this option asks for a texture.
    pub fn is_texture_opt(&self) -> (r: bool)
        ensures
            r == (self@ is Texture),
    {
        match self {
            ShaderOptions::Texture { .. } => true,
            _ => false,
        }
    }

    /// A texture option for `path` and `name` with every address mode left
    /// to its default.
    pub fn texture(path: &str, name: &str) -> (r: ShaderOptions)
        ensures
            r@ == (ShaderOptionModel::Texture {
                path: path@,
                name: name@,
                u_addr_mode: None,
                v_addr_mode: None,
                w_addr_mode: None,
            }),
    {
        ShaderOptions::Texture {
            path: path.to_owned(),
            name: name.to_owned(),
            u_addr_mode: None,
            v_addr_mode: None,
            w_addr_mode: None,
        }
    }
}

/// `v` read without regard to ASCII case equals the lower-case keyword `kw`.
pub open spec fn ci_full(v: Seq<char>, kw: Seq<char>) -> bool {
    v.len() == kw.len() && ci_match_at(v, 0, kw)
}

/// The address mode a value names, read without regard to case.
pub open spec fn spec_address_mode(v: Seq<char>) -> Option<AddressMode> {
    if ci_full(v, seq!['c', 'l', 'a', 'm', 'p', 't', 'o', 'e', 'd', 'g', 'e']) {
        Some(AddressMode::ClampToEdge)
    } else if ci_full(v, seq!['c', 'l', 'a', 'm', 'p', 't', 'o', 'b', 'o', 'r', 'd', 'e', 'r']) {
        Some(AddressMode::ClampToBorder)
    } else if ci_full(v, seq!['r', 'e', 'p', 'e', 'a', 't']) {
        Some(AddressMode::Repeat)
    } else if ci_full(v, seq!['m', 'i', 'r', 'r', 'o', 'r', 'r', 'e', 'p', 'e', 'a', 't']) {
        Some(AddressMode::MirrorRepeat)
    } else {
        None
    }
}

fn address_mode(input: &str) -> (r: Option<AddressMode>)
    ensures
        r == spec_address_mode(input@),
{
    proof {
        reveal_strlit("clamptoedge");
        reveal_strlit("clamptoborder");
        reveal_strlit("repeat");
        reveal_strlit("mirrorrepeat");
        assert("clamptoedge"@ =~= seq!['c', 'l', 'a', 'm', 'p', 't', 'o', 'e', 'd', 'g', 'e']);
        assert("clamptoborder"@ =~= seq![
            'c',
            'l',
            'a',
            'm',
            'p',
            't',
            'o',
            'b',
            'o',
            'r',
            'd',
            'e',
            'r',
        ]);
        assert("repeat"@ =~= seq!['r', 'e', 'p', 'e', 'a', 't']);
        assert("mirrorrepeat"@ =~= seq![
            'm',
            'i',
            'r',
            'r',
            'o',
            'r',
            'r',
            'e',
            'p',
            'e',
            'a',
            't',
        ]);
    }
    let len = input.unicode_len();
    if len == 11 && ci_match_at_c(input, 0, "clamptoedge") {
        Some(AddressMode::ClampToEdge)
    } else if len == 13 && ci_match_at_c(input, 0, "clamptoborder") {
        Some(AddressMode::ClampToBorder)
    } else if len == 6 && ci_match_at_c(input, 0, "repeat") {
        Some(AddressMode::Repeat)
    } else if len == 12 && ci_match_at_c(input, 0, "mirrorrepeat") {
        Some(AddressMode::MirrorRepeat)
    } else {
        None
    }
}

/// The mode named by an optional argument value.
pub open spec fn spec_opt_mode(o: Option<Seq<char>>) -> Option<AddressMode> {
    match o {
        None => None,
        Some(v) => spec_address_mode(v),
    }
}

/// `texture(path=..., name=..., ...)`: the path and name are required, the
/// three address modes optional.
pub open spec fn spec_texture(c: Seq<char>, i: int) -> Option<(int, ShaderOptionModel)> {
    if !match_at(c, i, seq!['t', 'e', 'x', 't', 'u', 'r', 'e']) {
        None
    } else {
        match spec_arguments(c, i + 7) {
            None => None,
            Some((j, args)) => match args_lookup(args, seq!['p', 'a', 't', 'h']) {
                None => None,
                Some(path) => match args_lookup(args, seq!['n', 'a', 'm', 'e']) {
                    None => None,
                    Some(name) => Some(
                        (
                            j,
                            ShaderOptionModel::Texture {
                                path: path,
                                name: name,
                                u_addr_mode: spec_opt_mode(
                                    args_lookup(args, seq!['u', '_', 'm', 'o', 'd', 'e']),
                                ),
                                v_addr_mode: spec_opt_mode(
                                    args_lookup(args, seq!['v', '_', 'm', 'o', 'd', 'e']),
                                ),
                                w_addr_mode: spec_opt_mode(
                                    args_lookup(args, seq!['w', '_', 'm', 'o', 'd', 'e']),
                                ),
                            },
                        ),
                    ),
                },
            },
        }
    }
}

/// Either a texture option or the placeholder option `something`.
pub open spec fn spec_shader_option(c: Seq<char>, i: int) -> Option<(int, ShaderOptionModel)> {
    match spec_texture(c, i) {
        Some(r) => Some(r),
        None => if match_at(c, i, seq!['s', 'o', 'm', 'e', 't', 'h', 'i', 'n', 'g']) {
            Some((i + 9, ShaderOptionModel::Something))
        } else {
            None
        },
    }
}

pub proof fn lemma_shader_option_bounds(c: Seq<char>, i: int)
    ensures
        match spec_shader_option(c, i) {
            Some((j, o)) => i < j <= c.len(),
            None => true,
        },
{
    if match_at(c, i, seq!['t', 'e', 'x', 't', 'u', 'r', 'e']) {
        if match_at(c, i + 7, seq!['(']) {
            lemma_find_from_bounds(c, seq![')'], i + 8);
        }
    }
}

fn opt_mode_of(args: &Vec<(String, String)>, key: &str) -> (r: Option<AddressMode>)
    ensures
        r == spec_opt_mode(args_lookup(pairs_view(args@), key@)),
{
    match args_get(args, key) {
        None => None,
        Some(v) => address_mode(v.as_str()),
    }
}

fn texture_at(c: &str, i: usize) -> (r: Option<(usize, ShaderOptions)>)
    requires
        i <= c@.len(),
    ensures
        match r {
            Some((j, o)) => spec_texture(c@, i as int) matches Some((sj, m)) && sj == j as int && m
                == o@ && j <= c@.len(),
            None => spec_texture(c@, i as int) is None,
        },
{
    proof {
        reveal_strlit("texture");
        assert("texture"@ =~= seq!['t', 'e', 'x', 't', 'u', 'r', 'e']);
        reveal_strlit("path");
        reveal_strlit("name");
        reveal_strlit("u_mode");
        reveal_strlit("v_mode");
        reveal_strlit("w_mode");
        assert("path"@ =~= seq!['p', 'a', 't', 'h']);
        assert("name"@ =~= seq!['n', 'a', 'm', 'e']);
        assert("u_mode"@ =~= seq!['u', '_', 'm', 'o', 'd', 'e']);
        assert("v_mode"@ =~= seq!['v', '_', 'm', 'o', 'd', 'e']);
        assert("w_mode"@ =~= seq!['w', '_', 'm', 'o', 'd', 'e']);
    }
    let _len = c.unicode_len();
    if !match_at_c(c, i, "texture") {
        return None;
    }
    let (j, args) = match arguments_at(c, i + 7) {
        None => {
            return None;
        },
        Some(p) => p,
    };
    let path = match args_get(&args, "path") {
        None => {
            return None;
        },
        Some(v) => v,
    };
    let name = match args_get(&args, "name") {
        None => {
            return None;
        },
        Some(v) => v,
    };
    let u_addr_mode = opt_mode_of(&args, "u_mode");
    let v_addr_mode = opt_mode_of(&args, "v_mode");
    let w_addr_mode = opt_mode_of(&args, "w_mode");
    Some((j, ShaderOptions::Texture { path, name, u_addr_mode, v_addr_mode, w_addr_mode }))
}

/// Parse one shader option at `i`.
pub fn shader_option_at(c: &str, i: usize) -> (r: Option<(usize, ShaderOptions)>)
    requires
        i <= c@.len(),
    ensures
        match r {
            Some((j, o)) => spec_shader_option(c@, i as int) matches Some((sj, m)) && sj == j as int
                && m == o@ && j <= c@.len(),
            None => spec_shader_option(c@, i as int) is None,
        },
{
    proof {
        reveal_strlit("something");
        assert("something"@ =~= seq!['s', 'o', 'm', 'e', 't', 'h', 'i', 'n', 'g']);
    }
    let _len = c.unicode_len();
    match texture_at(c, i) {
        Some(r) => Some(r),
        None => {
            if match_at_c(c, i, "something") {
                Some((i + 9, ShaderOptions::Something))
            } else {
                None
            }
        },
    }
}

/// Parse one shader option at the start of `opt`.
pub fn shader_option(opt: &str) -> (r: Option<(usize, ShaderOptions)>)
    ensures
        match r {
            Some((j, o)) => spec_shader_option(opt@, 0) matches Some((sj, m)) && sj == j as int && m
                == o@,
            None => spec_shader_option(opt@, 0) is None,
        },
{
    shader_option_at(opt, 0)
}

/// One option line: whitespace, `//`, whitespace, an option, a carriage
/// return and line feed.
pub open spec fn spec_option_line(s: Seq<char>, i: int) -> Option<(int, ShaderOptionModel)> {
    if i < 0 || i > s.len() {
        None
    } else {
        let j1 = skip_ws(s, i);
        if !match_at(s, j1, seq!['/', '/']) {
            None
        } else {
            let j2 = skip_ws(s, j1 + 2);
            match spec_shader_option(s, j2) {
                None => None,
                Some((j3, o)) => if match_at(s, j3, seq!['\r', '\n']) {
                    Some((j3 + 2, o))
                } else {
                    None
                },
            }
        }
    }
}

pub proof fn lemma_option_line_advances(s: Seq<char>, i: int)
    ensures
        match spec_option_line(s, i) {
            Some((j, o)) => i < j <= s.len(),
            None => true,
        },
{
    if 0 <= i <= s.len() {
        crate::scan::lemma_skip_ws_bounds(s, i);
        let j1 = skip_ws(s, i);
        if match_at(s, j1, seq!['/', '/']) {
            crate::scan::lemma_skip_ws_bounds(s, j1 + 2);
            lemma_shader_option_bounds(s, skip_ws(s, j1 + 2));
        }
    }
}

/// The option lines standing at `i`, parsed until the first line that is no
/// option.
pub open spec fn spec_option_lines(s: Seq<char>, i: int) -> Seq<ShaderOptionModel>
    decreases s.len() - i,
    via spec_option_lines_dec
{
    match spec_option_line(s, i) {
        None => Seq::empty(),
        Some((j, o)) => seq![o] + spec_option_lines(s, j),
    }
}

#[via_fn]
proof fn spec_option_lines_dec(s: Seq<char>, i: int) {
    lemma_option_line_advances(s, i);
}

/// What the option block of a shader denotes: every option line after the
/// first `// Shadey` marker; without the marker the operation fails.
pub open spec fn spec_parse_options(s: Seq<char>) -> Result<Seq<ShaderOptionModel>, ParseError> {
    match find_from(s, seq!['/', '/', ' ', 'S', 'h', 'a', 'd', 'e', 'y'], 0) {
        None => Err(ParseError::MarkerNotFound),
        Some(p0) => Ok(spec_option_lines(s, p0 + 9)),
    }
}

/// The models of an option vector.
pub open spec fn options_deep(v: Seq<ShaderOptions>) -> Seq<ShaderOptionModel> {
    Seq::new(v.len(), |i: int| v[i]@)
}

fn option_line_at(s: &str, i: usize) -> (r: Option<(usize, ShaderOptions)>)
    requires
        i <= s@.len(),
    ensures
        match r {
            Some((j, o)) => spec_option_line(s@, i as int) matches Some((sj, m)) && sj == j as int
                && m == o@ && j <= s@.len(),
            None => spec_option_line(s@, i as int) is None,
        },
{
    proof {
        reveal_strlit("//");
        reveal_strlit("\r\n");
        assert("//"@ =~= seq!['/', '/']);
        assert("\r\n"@ =~= seq!['\r', '\n']);
    }
    let _len = s.unicode_len();
    let j1 = skip_ws_at(s, i);
    if !match_at_c(s, j1, "//") {
        return None;
    }
    let j2 = skip_ws_at(s, j1 + 2);
    match shader_option_at(s, j2) {
        None => None,
        Some((j3, o)) => {
            if match_at_c(s, j3, "\r\n") {
                Some((j3 + 2, o))
            } else {
                None
            }
        },
    }
}

/// Collect the shader options declared in comment lines after the
/// `// Shadey` marker.
pub fn parse_options(file_content: &str) -> (r: Result<Vec<ShaderOptions>, ParseError>)
    ensures
        match r {
            Ok(v) => spec_parse_options(file_content@) == Ok::<Seq<ShaderOptionModel>, ParseError>(
                options_deep(v@),
            ),
            Err(e) => spec_parse_options(file_content@) == Err::<
                Seq<ShaderOptionModel>,
                ParseError,
            >(e),
        },
{
    proof {
        reveal_strlit("// Shadey");
        assert("// Shadey"@ =~= seq!['/', '/', ' ', 'S', 'h', 'a', 'd', 'e', 'y']);
    }
    let len = file_content.unicode_len();
    let p0 = match find_from_c(file_content, "// Shadey", 0) {
        None => {
            return Err(ParseError::MarkerNotFound);
        },
        Some(p) => p,
    };
    proof {
        lemma_find_from_bounds(file_content@, "// Shadey"@, 0);
    }
    let mut acc: Vec<ShaderOptions> = Vec::new();
    let mut j: usize = p0 + 9;
    let ghost start = j as int;
    loop
        invariant
            j <= file_content@.len(),
            start <= j as int,
            spec_option_lines(file_content@, start) == options_deep(acc@) + spec_option_lines(
                file_content@,
                j as int,
            ),
        ensures
            spec_option_lines(file_content@, start) == options_deep(acc@) + spec_option_lines(
                file_content@,
                j as int,
            ),
            spec_option_line(file_content@, j as int) is None,
        decreases file_content@.len() - j,
    {
        match option_line_at(file_content, j) {
            None => {
                break ;
            },
            Some((j2, o)) => {
                proof {
                    lemma_option_line_advances(file_content@, j as int);
                }
                let ghost acc0 = acc@;
                acc.push(o);
                proof {
                    assert(options_deep(acc@) =~= options_deep(acc0) + seq![o@]);
                    assert(options_deep(acc0) + seq![o@] + spec_option_lines(
                        file_content@,
                        j2 as int,
                    ) =~= options_deep(acc0) + (seq![o@] + spec_option_lines(
                        file_content@,
                        j2 as int,
                    )));
                }
                j = j2;
            },
        }
    }
    proof {
        assert(spec_option_lines(file_content@, j as int) =~= Seq::<ShaderOptionModel>::empty());
        assert(options_deep(acc@) + Seq::<ShaderOptionModel>::empty() =~= options_deep(acc@));
    }
    Ok(acc)
}

} // verus!