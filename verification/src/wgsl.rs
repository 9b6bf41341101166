use vstd::prelude::*;

verus! {

use vstd::arithmetic::power2::is_pow2;
use vstd::arithmetic::div_mod::lemma_fundamental_div_mod;
use vstd::arithmetic::div_mod::lemma_fundamental_div_mod_converse;
use vstd::arithmetic::div_mod::lemma_mod_bound;
use vstd::arithmetic::div_mod::lemma_mod_multiples_basic;

// ---------------------------------------------------------------------------
// Primitive kinds
// ---------------------------------------------------------------------------

/// A primitive scalar kind that can appear in a uniform struct declaration.
#[derive(Debug, Clone, Copy, PartialEq, Eq, Structural)]
pub enum PType {
    Bool,
    I32,
    I64,
    U32,
    U64,
    F16,
    F32,
    F64,
}

/// Byte size of a primitive kind.
pub open spec fn ptype_size(p: PType) -> int {
    match p {
        PType::Bool => 1,
        PType::F16 => 2,
        PType::I32 | PType::U32 | PType::F32 => 4,
        PType::I64 | PType::U64 | PType::F64 => 8,
    }
}

/// The kinds that are legal directly inside a uniform block; alignment is
/// defined only for these.
pub open spec fn ptype_align_ok(p: PType) -> bool {
    match p {
        PType::F16 | PType::I32 | PType::U32 | PType::F32 => true,
        _ => false,
    }
}

/// Byte alignment of a legal primitive kind.
pub open spec fn ptype_align(p: PType) -> int
    recommends
        ptype_align_ok(p),
{
    match p {
        PType::F16 => 2,
        _ => 4,
    }
}

/// Byte size, with a proved result; `size` never fails.
pub trait Sized {
    spec fn size_req(&self) -> bool;

    spec fn spec_size(&self) -> int;

    fn size(&self) -> (r: usize)
        requires
            self.size_req(),
        ensures
            r as int == self.spec_size(),
    ;
}

/// Byte alignment, with a proved result; `align` is a programming error on
/// values whose alignment is undefined, so those are excluded up front.
pub trait Aligned {
    spec fn align_req(&self) -> bool;

    spec fn spec_align(&self) -> int;

    fn align(&self) -> (r: usize)
        requires
            self.align_req(),
        ensures
            r as int == self.spec_align(),
    ;
}

impl Sized for PType {
    open spec fn size_req(&self) -> bool {
        true
    }

    open spec fn spec_size(&self) -> int {
        ptype_size(*self)
    }

    fn size(&self) -> (r: usize) {
        match self {
            PType::Bool => 1,
            PType::F16 => 2,
            PType::I32 | PType::U32 | PType::F32 => 4,
            PType::I64 | PType::U64 | PType::F64 => 8,
        }
    }
}

impl Aligned for PType {
    open spec fn align_req(&self) -> bool {
        ptype_align_ok(*self)
    }

    open spec fn spec_align(&self) -> int {
        ptype_align(*self)
    }

    fn align(&self) -> (r: usize) {
        match self {
            PType::F16 => 2,
            PType::I32 | PType::U32 | PType::F32 => 4,
            _ => {
                proof {
                    assert(false);
                }
                0
            },
        }
    }
}

// ---------------------------------------------------------------------------
// Powers of two and rounding
// ---------------------------------------------------------------------------

/// Smallest power of two that is at least `n` (and at least 1).
pub open spec fn pow2_ge(n: int) -> int
    decreases n,
{
    if n <= 1 {
        1
    } else {
        2 * pow2_ge((n + 1) / 2)
    }
}

pub proof fn lemma_pow2_ge_props(n: int)
    ensures
        pow2_ge(n) >= 1,
        pow2_ge(n) >= n,
        is_pow2(pow2_ge(n)),
        n >= 1 ==> pow2_ge(n) < 2 * n,
    decreases n,
{
    reveal(is_pow2);
    if n <= 1 {
        assert(is_pow2(1));
    } else {
        let h = (n + 1) / 2;
        lemma_pow2_ge_props(h);
        let p = pow2_ge(h);
        assert(pow2_ge(n) == 2 * p);
        assert(2 * h >= n);
        assert(is_pow2(2 * p)) by {
            assert((2 * p) % 2 == 0);
            assert((2 * p) / 2 == p);
        }
        // Strict upper bound: pow2_ge(h) < 2*h <= n + 1, and pow2_ge(h) == n
        // is impossible because an odd n >= 3 is no power of two.
        assert(p <= n);
        if p == n {
            assert(n % 2 == 0);
            assert(2 * h == n);
            assert(p < 2 * h);
            assert(false);
        }
    }
}

pub proof fn lemma_pow2_min(p: int, n: int)
    requires
        is_pow2(p),
        p >= n,
    ensures
        pow2_ge(n) <= p,
    decreases n,
{
    reveal(is_pow2);
    if n <= 1 {
        assert(p >= 1);
    } else {
        let h = (n + 1) / 2;
        assert(p >= 2);
        assert(p % 2 == 0 && is_pow2(p / 2));
        assert(p / 2 >= h);
        lemma_pow2_min(p / 2, h);
        assert(pow2_ge(n) == 2 * pow2_ge(h));
    }
}

/// `round_up(k, n)` is the least multiple of `k` that is at least `n`.
pub open spec fn spec_round_up(k: int, n: int) -> int
    recommends
        k >= 1,
{
    ((n + k - 1) / k) * k
}

pub proof fn lemma_round_up_props(k: int, n: int)
    requires
        k >= 1,
        n >= 0,
    ensures
        n <= spec_round_up(k, n) < n + k,
        spec_round_up(k, n) % k == 0,
        n % k == 0 ==> spec_round_up(k, n) == n,
        n % k != 0 ==> spec_round_up(k, n) == n + k - n % k,
{
    lemma_fundamental_div_mod(n, k);
    lemma_mod_bound(n, k);
    let m = n / k;
    let s = n % k;
    if s == 0 {
        assert(n + k - 1 == m * k + (k - 1)) by (nonlinear_arith)
            requires n == k * m;
        lemma_fundamental_div_mod_converse(n + k - 1, k, m, k - 1);
        assert(spec_round_up(k, n) == m * k);
        assert(m * k == n) by (nonlinear_arith)
            requires n == k * m;
    } else {
        assert(n + k - 1 == (m + 1) * k + (s - 1)) by (nonlinear_arith)
            requires n == k * m + s;
        lemma_fundamental_div_mod_converse(n + k - 1, k, m + 1, s - 1);
        assert(spec_round_up(k, n) == (m + 1) * k);
        assert((m + 1) * k == n + k - s) by (nonlinear_arith)
            requires n == k * m + s;
    }
    let q = (n + k - 1) / k;
    lemma_mod_multiples_basic(q, k);
}

/// Smallest power of two at least `n`; the bound on `n` keeps the doubling
/// search within `usize` on every supported word size.
pub fn next_pow2(n: usize) -> (r: usize)
    requires
        n as int <= 0x8000_0000,
    ensures
        r as int == pow2_ge(n as int),
{
    proof {
        lemma_pow2_ge_props(n as int);
        assert(is_pow2(0x8000_0000)) by {
            reveal_with_fuel(is_pow2, 33);
        }
        lemma_pow2_min(0x8000_0000, n as int);
        assert(is_pow2(1)) by {
            reveal(is_pow2);
        }
    }
    let mut p: usize = 1;
    while p < n
        invariant
            n as int <= 0x8000_0000,
            pow2_ge(n as int) <= 0x8000_0000,
            1 <= p,
            is_pow2(p as int),
            p as int <= pow2_ge(n as int),
        decreases 2 * (n as int) - p,
    {
        proof {
            lemma_pow2_ge_props(n as int);
            lemma_pow2_double_gap(p as int, pow2_ge(n as int));
            lemma_pow2_double(p as int);
        }
        p = p * 2;
    }
    proof {
        lemma_pow2_min(p as int, n as int);
    }
    p
}

proof fn lemma_pow2_double(a: int)
    requires
        is_pow2(a),
    ensures
        is_pow2(2 * a),
        a >= 1,
{
    reveal(is_pow2);
    assert((2 * a) % 2 == 0);
    assert((2 * a) / 2 == a);
}

proof fn lemma_pow2_double_gap(a: int, b: int)
    requires
        is_pow2(a),
        is_pow2(b),
        a < b,
    ensures
        2 * a <= b,
    decreases a,
{
    reveal(is_pow2);
    if a == 1 {
        assert(b >= 2);
    } else {
        lemma_pow2_double_gap(a / 2, b / 2);
    }
}

/// Least multiple of `k` that is at least `n`.
pub fn round_up(k: usize, n: usize) -> (r: usize)
    requires
        1 <= k,
        spec_round_up(k as int, n as int) <= usize::MAX as int,
    ensures
        r as int == spec_round_up(k as int, n as int),
{
    proof {
        lemma_round_up_props(k as int, n as int);
    }
    let rem: usize = n % k;
    if rem == 0 {
        n
    } else {
        n + (k - rem)
    }
}

// ---------------------------------------------------------------------------
// Composite types
// ---------------------------------------------------------------------------

/// A composite type expression: scalar, vector, matrix (laid out as repeated
/// column vectors) or array.
#[derive(Debug, PartialEq)]
pub enum TType {
    Scalar(PType),
    Vector(usize, PType),
    Matrix { m: usize, n: usize, typed: PType },
    Array(usize, Box<TType>),
}

/// Byte size of a composite type.
pub open spec fn ttype_size(t: TType) -> int
    decreases t,
{
    match t {
        TType::Scalar(p) => ptype_size(p),
        TType::Vector(c, p) => c * ptype_size(p),
        TType::Matrix { m, n, typed } => m * n * ptype_size(typed),
        TType::Array(c, e) => c * ttype_size(*e),
    }
}

/// The size computation stays within `usize` at every step.
pub open spec fn ttype_size_ok(t: TType) -> bool
    decreases t,
{
    ttype_size(t) <= usize::MAX as int && match t {
        TType::Array(c, e) => ttype_size_ok(*e),
        _ => true,
    }
}

/// Alignment is defined: every primitive involved is legal, and the vector
/// (or matrix column) width times the primitive alignment stays within the
/// power-of-two search bound.
pub open spec fn ttype_align_ok(t: TType) -> bool
    decreases t,
{
    match t {
        TType::Scalar(p) => ptype_align_ok(p),
        TType::Vector(c, p) => ptype_align_ok(p) && c * ptype_align(p) <= 0x8000_0000,
        TType::Matrix { m, n, typed } => ptype_align_ok(typed) && n * ptype_align(typed)
            <= 0x8000_0000,
        TType::Array(c, e) => ttype_align_ok(*e),
    }
}

/// Byte alignment of a composite type; a matrix aligns as one of its column
/// vectors, an array as its element.
pub open spec fn ttype_align(t: TType) -> int
    recommends
        ttype_align_ok(t),
    decreases t,
{
    match t {
        TType::Scalar(p) => ptype_align(p),
        TType::Vector(c, p) => pow2_ge(c * ptype_align(p)),
        TType::Matrix { m, n, typed } => pow2_ge(n * ptype_align(typed)),
        TType::Array(c, e) => ttype_align(*e),
    }
}

pub proof fn lemma_ttype_size_nonneg(t: TType)
    ensures
        ttype_size(t) >= 0,
    decreases t,
{
    match t {
        TType::Scalar(p) => {}
        TType::Vector(c, p) => {
            assert(c * ptype_size(p) >= 0) by (nonlinear_arith)
                requires c >= 0 && ptype_size(p) >= 0;
        }
        TType::Matrix { m, n, typed } => {
            assert(m * n * ptype_size(typed) >= 0) by (nonlinear_arith)
                requires m >= 0 && n >= 0 && ptype_size(typed) >= 0;
        }
        TType::Array(c, e) => {
            lemma_ttype_size_nonneg(*e);
            assert(c * ttype_size(*e) >= 0) by (nonlinear_arith)
                requires c >= 0 && ttype_size(*e) >= 0;
        }
    }
}

pub proof fn lemma_ttype_align_pos(t: TType)
    requires
        ttype_align_ok(t),
    ensures
        ttype_align(t) >= 1,
    decreases t,
{
    match t {
        TType::Scalar(p) => {}
        TType::Vector(c, p) => {
            lemma_pow2_ge_props(c * ptype_align(p));
        }
        TType::Matrix { m, n, typed } => {
            lemma_pow2_ge_props(n * ptype_align(typed));
        }
        TType::Array(c, e) => {
            lemma_ttype_align_pos(*e);
        }
    }
}

impl Sized for TType {
    open spec fn size_req(&self) -> bool {
        ttype_size_ok(*self)
    }

    open spec fn spec_size(&self) -> int {
        ttype_size(*self)
    }

    fn size(&self) -> (r: usize)
        decreases self,
    {
        match self {
            TType::Scalar(x) => x.size(),
            TType::Vector(nb, x) => *nb * x.size(),
            TType::Matrix { m, n, typed } => {
                proof {
                    assert(*m * *n <= *m * *n * ptype_size(*typed)) by (nonlinear_arith)
                        requires *m >= 0 && *n >= 0 && ptype_size(*typed) >= 1;
                }
                *m * *n * typed.size()
            },
            TType::Array(n, x) => *n * x.size(),
        }
    }
}

impl Aligned for TType {
    open spec fn align_req(&self) -> bool {
        ttype_align_ok(*self)
    }

    open spec fn spec_align(&self) -> int {
        ttype_align(*self)
    }

    fn align(&self) -> (r: usize)
        decreases self,
    {
        match self {
            TType::Scalar(x) => x.align(),
            TType::Vector(nb, x) => next_pow2(*nb * x.align()),
            TType::Matrix { n, typed, .. } => next_pow2(*n * typed.align()),
            TType::Array(_n, x) => x.align(),
        }
    }
}

// ---------------------------------------------------------------------------
// Slots and layout
// ---------------------------------------------------------------------------

/// A user-interface hint attached to a slot; the endpoints of a slider range
/// are carried as the float literals that were parsed, text the interface
/// layer turns into numbers.
#[derive(Debug, Clone, PartialEq, Eq)]
pub enum StructSlotOptions {
    Slider { min: String, max: String },
}

/// Mathematical model of a hint: the endpoint literals as character
/// sequences.
pub enum SlotOptionModel {
    Slider { min: Seq<char>, max: Seq<char> },
}

impl View for StructSlotOptions {
    type V = SlotOptionModel;

    open spec fn view(&self) -> SlotOptionModel {
        match self {
            StructSlotOptions::Slider { min, max } => SlotOptionModel::Slider {
                min: min@,
                max: max@,
            },
        }
    }
}

/// One declared field of a parsed struct, in declaration order.
#[derive(Debug, PartialEq)]
pub struct StructSlot {
    pub identifier: String,
    pub typed: TType,
    pub options: Option<StructSlotOptions>,
}

/// Mathematical model of a slot: the identifier as a character sequence.
pub struct SlotModel {
    pub ident: Seq<char>,
    pub typed: TType,
    pub options: Option<SlotOptionModel>,
}

impl View for StructSlot {
    type V = SlotModel;

    open spec fn view(&self) -> SlotModel {
        SlotModel {
            ident: self.identifier@,
            typed: self.typed,
            options: match self.options {
                None => None,
                Some(o) => Some(o@),
            },
        }
    }
}

impl DeepView for StructSlot {
    type V = SlotModel;

    open spec fn deep_view(&self) -> SlotModel {
        self.view()
    }
}

/// The type of each slot, in order.
pub open spec fn slot_types(slots: Seq<StructSlot>) -> Seq<TType> {
    Seq::new(slots.len(), |i: int| slots[i].typed)
}

/// The type of each slot model, in order.
pub open spec fn model_types(models: Seq<SlotModel>) -> Seq<TType> {
    Seq::new(models.len(), |i: int| models[i].typed)
}

/// Every slot type has a defined alignment and a size computation that stays
/// within `usize`.
pub open spec fn tys_elems_ok(tys: Seq<TType>) -> bool {
    forall|i: int|
        0 <= i < tys.len() ==> ttype_align_ok(#[trigger] tys[i]) && ttype_size_ok(tys[i])
}

/// Byte offset of the 1-based `slot` within the packed struct: the first slot
/// sits at zero and each later one at the end of its predecessor rounded up to
/// its own alignment.
pub open spec fn offset_of(tys: Seq<TType>, slot: int) -> int
    recommends
        1 <= slot <= tys.len(),
    decreases slot,
{
    if slot <= 1 {
        0
    } else {
        spec_round_up(
            ttype_align(tys[slot - 1]),
            offset_of(tys, slot - 1) + ttype_size(tys[slot - 2]),
        )
    }
}

/// Alignment of the whole struct: the largest slot alignment.
pub open spec fn struct_align(tys: Seq<TType>) -> int
    recommends
        tys.len() >= 1,
    decreases tys.len(),
{
    if tys.len() <= 1 {
        ttype_align(tys[0])
    } else {
        let rest = struct_align(tys.drop_last());
        let last = ttype_align(tys.last());
        if rest >= last {
            rest
        } else {
            last
        }
    }
}

/// End of the last slot: its offset plus its size.
pub open spec fn struct_end(tys: Seq<TType>) -> int
    recommends
        tys.len() >= 1,
{
    offset_of(tys, tys.len() as int) + ttype_size(tys[tys.len() - 1])
}

/// Total size of the packed struct: the end of the last slot rounded up to
/// the struct alignment.
pub open spec fn struct_size(tys: Seq<TType>) -> int
    recommends
        tys.len() >= 1,
{
    spec_round_up(struct_align(tys), struct_end(tys))
}

/// A slot sequence the layout engine can lay out: non-empty, every type legal,
/// and the total size within `usize`.
pub open spec fn tys_wf(tys: Seq<TType>) -> bool {
    tys.len() >= 1 && tys_elems_ok(tys) && struct_size(tys) <= usize::MAX as int
}

pub proof fn lemma_struct_align_bounds(tys: Seq<TType>)
    requires
        tys.len() >= 1,
        tys_elems_ok(tys),
    ensures
        struct_align(tys) >= 1,
        forall|i: int| 0 <= i < tys.len() ==> ttype_align(#[trigger] tys[i]) <= struct_align(tys),
    decreases tys.len(),
{
    if tys.len() == 1 {
        lemma_ttype_align_pos(tys[0]);
    } else {
        let head = tys.drop_last();
        assert(tys_elems_ok(head)) by {
            assert(forall|i: int| 0 <= i < head.len() ==> head[i] == tys[i]);
        }
        lemma_struct_align_bounds(head);
        lemma_ttype_align_pos(tys.last());
        assert forall|i: int| 0 <= i < tys.len() implies ttype_align(#[trigger] tys[i])
            <= struct_align(tys) by {
            if i < tys.len() - 1 {
                assert(head[i] == tys[i]);
            }
        }
    }
}

pub proof fn lemma_offset_chain(tys: Seq<TType>, i: int)
    requires
        tys_elems_ok(tys),
        1 <= i <= tys.len(),
    ensures
        offset_of(tys, i) >= 0,
        offset_of(tys, i) % ttype_align(tys[i - 1]) == 0,
        i >= 2 ==> offset_of(tys, i - 1) + ttype_size(tys[i - 2]) <= offset_of(tys, i),
    decreases i,
{
    lemma_ttype_align_pos(tys[i - 1]);
    if i == 1 {
    } else {
        lemma_offset_chain(tys, i - 1);
        lemma_ttype_size_nonneg(tys[i - 2]);
        lemma_round_up_props(ttype_align(tys[i - 1]), offset_of(tys, i - 1) + ttype_size(tys[i - 2]));
    }
}

pub proof fn lemma_end_le(tys: Seq<TType>, i: int)
    requires
        tys_elems_ok(tys),
        1 <= i <= tys.len(),
    ensures
        offset_of(tys, i) + ttype_size(tys[i - 1]) <= struct_end(tys),
    decreases tys.len() - i,
{
    if i < tys.len() {
        lemma_offset_chain(tys, i + 1);
        lemma_ttype_size_nonneg(tys[i]);
        lemma_end_le(tys, i + 1);
    }
}

pub proof fn lemma_struct_size_bounds(tys: Seq<TType>)
    requires
        tys.len() >= 1,
        tys_elems_ok(tys),
    ensures
        0 <= struct_end(tys) <= struct_size(tys),
        struct_size(tys) % struct_align(tys) == 0,
{
    lemma_struct_align_bounds(tys);
    lemma_offset_chain(tys, tys.len() as int);
    lemma_ttype_size_nonneg(tys[tys.len() - 1]);
    lemma_round_up_props(struct_align(tys), struct_end(tys));
}

/// The layout invariants that hold of every well-formed slot sequence: the
/// first slot sits at offset zero, every offset is a multiple of its slot's
/// alignment, offsets grow without overlap, every slot ends within the struct
/// size, and no slot alignment exceeds the struct alignment.
pub proof fn lemma_layout_invariants(tys: Seq<TType>)
    requires
        tys_wf(tys),
    ensures
        offset_of(tys, 1) == 0,
        forall|i: int|
            1 <= i <= tys.len() ==> #[trigger] offset_of(tys, i) % ttype_align(tys[i - 1]) == 0,
        forall|i: int|
            1 <= i < tys.len() ==> #[trigger] offset_of(tys, i) + ttype_size(tys[i - 1])
                <= offset_of(tys, i + 1),
        forall|i: int|
            1 <= i <= tys.len() ==> #[trigger] offset_of(tys, i) + ttype_size(tys[i - 1])
                <= struct_size(tys),
        forall|i: int| 0 <= i < tys.len() ==> ttype_align(#[trigger] tys[i]) <= struct_align(tys),
{
    lemma_struct_align_bounds(tys);
    lemma_struct_size_bounds(tys);
    assert forall|i: int| 1 <= i <= tys.len() implies #[trigger] offset_of(tys, i) % ttype_align(
        tys[i - 1],
    ) == 0 by {
        lemma_offset_chain(tys, i);
    }
    assert forall|i: int| 1 <= i < tys.len() implies #[trigger] offset_of(tys, i) + ttype_size(
        tys[i - 1],
    ) <= offset_of(tys, i + 1) by {
        lemma_offset_chain(tys, i + 1);
    }
    assert forall|i: int| 1 <= i <= tys.len() implies #[trigger] offset_of(tys, i) + ttype_size(
        tys[i - 1],
    ) <= struct_size(tys) by {
        lemma_end_le(tys, i);
    }
}

/// Byte offset of the 1-based `slot` member, shared by buffer sizing and by
/// every read and write.
pub fn offset_of_member(struc: &Vec<StructSlot>, slot: usize) -> (r: usize)
    requires
        tys_wf(slot_types(struc@)),
        1 <= slot <= struc@.len(),
    ensures
        r as int == offset_of(slot_types(struc@), slot as int),
    decreases slot,
{
    let ghost tys = slot_types(struc@);
    if slot == 1 {
        return 0;
    }
    let member = &struc[slot - 1].typed;
    let prev_member = &struc[slot - 2].typed;
    proof {
        assert(*member == tys[slot - 1]);
        assert(*prev_member == tys[slot - 2]);
        lemma_offset_chain(tys, slot as int);
        lemma_end_le(tys, slot as int);
        lemma_end_le(tys, slot as int - 1);
        lemma_struct_size_bounds(tys);
        lemma_ttype_size_nonneg(tys[slot - 2]);
        lemma_ttype_size_nonneg(tys[slot - 1]);
        lemma_ttype_align_pos(tys[slot - 1]);
    }
    let k = member.align();
    let prev_off = offset_of_member(struc, slot - 1);
    let n = prev_off + prev_member.size();
    round_up(k, n)
}

impl Aligned for Vec<StructSlot> {
    open spec fn align_req(&self) -> bool {
        self@.len() >= 1 && tys_elems_ok(slot_types(self@))
    }

    open spec fn spec_align(&self) -> int {
        struct_align(slot_types(self@))
    }

    fn align(&self) -> (r: usize) {
        let ghost tys = slot_types(self@);
        proof {
            assert(self@[0].typed == tys[0]);
        }
        let mut best = self[0].typed.align();
        let mut i: usize = 1;
        while i < self.len()
            invariant
                1 <= i <= self@.len(),
                tys == slot_types(self@),
                tys_elems_ok(tys),
                tys.len() == self@.len(),
                best as int == struct_align(tys.take(i as int)),
            decreases self@.len() - i,
        {
            proof {
                assert(self@[i as int].typed == tys[i as int]);
                assert(tys.take(i + 1).drop_last() =~= tys.take(i as int));
                assert(tys.take(i + 1).last() == tys[i as int]);
            }
            let a = self[i].typed.align();
            if a > best {
                best = a;
            }
            i = i + 1;
        }
        proof {
            assert(tys.take(tys.len() as int) =~= tys);
        }
        best
    }
}

impl Sized for Vec<StructSlot> {
    open spec fn size_req(&self) -> bool {
        tys_wf(slot_types(self@))
    }

    open spec fn spec_size(&self) -> int {
        struct_size(slot_types(self@))
    }

    fn size(&self) -> (r: usize) {
        let ghost tys = slot_types(self@);
        let len = self.len();
        proof {
            lemma_struct_align_bounds(tys);
            lemma_struct_size_bounds(tys);
            lemma_end_le(tys, len as int);
            assert(self@[len - 1].typed == tys[len - 1]);
        }
        let off = offset_of_member(self, len);
        let last_size = self[len - 1].typed.size();
        let n = off + last_size;
        let al = self.align();
        round_up(al, n)
    }
}

// ---------------------------------------------------------------------------
// Deciding well-formedness
// ---------------------------------------------------------------------------

proof fn lemma_mul_le_div(x: int, k: int, y: int)
    requires
        x >= 0,
        k >= 1,
        y >= 0,
    ensures
        x * k <= y <==> x <= y / k,
{
    lemma_fundamental_div_mod(y, k);
    lemma_mod_bound(y, k);
    let q = y / k;
    let r = y % k;
    if x <= q {
        assert(x * k <= k * q + r) by (nonlinear_arith)
            requires x <= q, k >= 1, r >= 0;
    }
    if x * k <= y {
        assert(x <= q) by (nonlinear_arith)
            requires x * k <= k * q + r, 0 <= r < k, k >= 1;
    }
}

/// `round_up(k, n)` when it fits the machine word.
pub fn checked_round_up(k: usize, n: usize) -> (r: Option<usize>)
    requires
        1 <= k,
    ensures
        match r {
            Some(v) => spec_round_up(k as int, n as int) <= usize::MAX as int && v as int
                == spec_round_up(k as int, n as int),
            None => spec_round_up(k as int, n as int) > usize::MAX as int,
        },
{
    proof {
        lemma_round_up_props(k as int, n as int);
    }
    let rem: usize = n % k;
    if rem == 0 {
        Some(n)
    } else if n <= usize::MAX - (k - rem) {
        Some(n + (k - rem))
    } else {
        None
    }
}

/// Decide whether a type's alignment is defined.
pub fn ttype_align_ok_c(t: &TType) -> (r: bool)
    ensures
        r == ttype_align_ok(*t),
    decreases t,
{
    match t {
        TType::Scalar(p) => match p {
            PType::F16 | PType::I32 | PType::U32 | PType::F32 => true,
            _ => false,
        },
        TType::Vector(c, p) => {
            let kind_ok = match p {
                PType::F16 | PType::I32 | PType::U32 | PType::F32 => true,
                _ => false,
            };
            if !kind_ok {
                false
            } else {
                let pa = p.align();
                proof {
                    lemma_mul_le_div(*c as int, pa as int, 0x8000_0000);
                }
                *c <= 0x8000_0000usize / pa
            }
        },
        TType::Matrix { n, typed, .. } => {
            let kind_ok = match typed {
                PType::F16 | PType::I32 | PType::U32 | PType::F32 => true,
                _ => false,
            };
            if !kind_ok {
                false
            } else {
                let pa = typed.align();
                proof {
                    lemma_mul_le_div(*n as int, pa as int, 0x8000_0000);
                }
                *n <= 0x8000_0000usize / pa
            }
        },
        TType::Array(_c, e) => ttype_align_ok_c(e),
    }
}

/// The type's byte size, when every step of its computation fits the
/// machine word.
pub fn checked_size(t: &TType) -> (r: Option<usize>)
    ensures
        match r {
            Some(v) => ttype_size_ok(*t) && v as int == ttype_size(*t),
            None => !ttype_size_ok(*t),
        },
    decreases t,
{
    match t {
        TType::Scalar(p) => Some(p.size()),
        TType::Vector(c, p) => {
            let ps = p.size();
            proof {
                lemma_mul_le_div(*c as int, ps as int, usize::MAX as int);
            }
            if *c <= usize::MAX / ps {
                Some(*c * ps)
            } else {
                None
            }
        },
        TType::Matrix { m, n, typed } => {
            let ps = typed.size();
            let mn_opt: Option<usize> = if *n == 0 {
                Some(0)
            } else {
                proof {
                    lemma_mul_le_div(*m as int, *n as int, usize::MAX as int);
                }
                if *m <= usize::MAX / *n {
                    Some(*m * *n)
                } else {
                    None
                }
            };
            match mn_opt {
                None => {
                    proof {
                        assert((*m * *n) * ptype_size(*typed) >= *m * *n) by (nonlinear_arith)
                            requires *m * *n >= 0 && ptype_size(*typed) >= 1;
                    }
                    None
                },
                Some(mn) => {
                    proof {
                        lemma_mul_le_div(mn as int, ps as int, usize::MAX as int);
                    }
                    if mn <= usize::MAX / ps {
                        Some(mn * ps)
                    } else {
                        None
                    }
                },
            }
        },
        TType::Array(c, e) => {
            match checked_size(e) {
                None => None,
                Some(es) => {
                    if es == 0 {
                        proof {
                            assert(*c * ttype_size(**e) == 0) by (nonlinear_arith)
                                requires ttype_size(**e) == 0;
                        }
                        Some(0)
                    } else {
                        proof {
                            lemma_mul_le_div(*c as int, es as int, usize::MAX as int);
                        }
                        if *c <= usize::MAX / es {
                            Some(*c * es)
                        } else {
                            None
                        }
                    }
                },
            }
        },
    }
}

/// Decide whether a slot sequence can be laid out: non-empty, every type
/// legal, and the total struct size within the machine word. Exactly the
/// condition under which a runtime buffer can be built.
pub fn slots_layout_ready(slots: &Vec<StructSlot>) -> (r: bool)
    ensures
        r == tys_wf(slot_types(slots@)),
{
    let ghost tys = slot_types(slots@);
    let len = slots.len();
    if len == 0 {
        return false;
    }
    let mut i: usize = 0;
    while i < len
        invariant
            0 <= i <= len,
            len == slots@.len(),
            tys == slot_types(slots@),
            forall|j: int|
                0 <= j < i ==> ttype_align_ok(#[trigger] tys[j]) && ttype_size_ok(tys[j]),
        decreases len - i,
    {
        proof {
            assert(slots@[i as int].typed == tys[i as int]);
        }
        if !ttype_align_ok_c(&slots[i].typed) {
            return false;
        }
        if checked_size(&slots[i].typed).is_none() {
            return false;
        }
        i = i + 1;
    }
    proof {
        assert(tys_elems_ok(tys));
        lemma_struct_align_bounds(tys);
        lemma_struct_size_bounds(tys);
    }
    let al = slots.align();
    let mut off: usize = 0;
    let mut idx: usize = 1;
    while idx < len
        invariant
            1 <= idx <= len,
            len == slots@.len(),
            tys == slot_types(slots@),
            tys_elems_ok(tys),
            off as int == offset_of(tys, idx as int),
        decreases len - idx,
    {
        proof {
            assert(slots@[idx as int].typed == tys[idx as int]);
            assert(slots@[idx - 1].typed == tys[idx - 1]);
            lemma_offset_chain(tys, idx as int + 1);
            lemma_offset_chain(tys, idx as int);
            lemma_ttype_align_pos(tys[idx as int]);
            lemma_ttype_size_nonneg(tys[idx - 1]);
            lemma_end_le(tys, idx as int);
            lemma_struct_size_bounds(tys);
        }
        let ka = slots[idx].typed.align();
        let psz = slots[idx - 1].typed.size();
        if off > usize::MAX - psz {
            proof {
                lemma_struct_align_bounds(tys);
                lemma_struct_size_bounds(tys);
            }
            return false;
        }
        let n = off + psz;
        off = match checked_round_up(ka, n) {
            Some(v) => v,
            None => {
                proof {
                    lemma_end_le(tys, idx as int + 1);
                    lemma_ttype_size_nonneg(tys[idx as int]);
                    lemma_struct_align_bounds(tys);
                    lemma_struct_size_bounds(tys);
                }
                return false;
            },
        };
        idx = idx + 1;
    }
    proof {
        assert(slots@[len - 1].typed == tys[len - 1]);
        lemma_ttype_size_nonneg(tys[len - 1]);
        lemma_struct_size_bounds(tys);
        lemma_round_up_props(struct_align(tys), struct_end(tys));
    }
    let lsz = slots[len - 1].typed.size();
    if off > usize::MAX - lsz {
        return false;
    }
    let end = off + lsz;
    match checked_round_up(al, end) {
        Some(_) => true,
        None => false,
    }
}

// ---------------------------------------------------------------------------
// Shader-text rendering
// ---------------------------------------------------------------------------

/// The keyword that names a primitive kind in shader source.
pub open spec fn ptype_keyword(p: PType) -> Seq<char> {
    match p {
        PType::Bool => seq!['b', 'o', 'o', 'l'],
        PType::I32 => seq!['i', '3', '2'],
        PType::I64 => seq!['i', '6', '4'],
        PType::U32 => seq!['u', '3', '2'],
        PType::U64 => seq!['u', '6', '4'],
        PType::F16 => seq!['f', '1', '6'],
        PType::F32 => seq!['f', '3', '2'],
        PType::F64 => seq!['f', '6', '4'],
    }
}

/// The shader-source text of a type expression.
pub open spec fn ttype_text(t: TType) -> Seq<char>
    decreases t,
{
    match t {
        TType::Scalar(p) => ptype_keyword(p),
        TType::Vector(c, p) => seq!['v', 'e', 'c'] + crate::scan::dec_digits(c as int) + seq!['<']
            + ptype_keyword(p) + seq!['>'],
        TType::Matrix { m, n, typed } => seq!['m', 'a', 't'] + crate::scan::dec_digits(m as int)
            + seq!['x'] + crate::scan::dec_digits(n as int) + seq!['<'] + ptype_keyword(typed)
            + seq!['>'],
        TType::Array(c, e) => seq!['a', 'r', 'r', 'a', 'y', '<'] + ttype_text(*e) + seq![',']
            + crate::scan::dec_digits(c as int) + seq!['>'],
    }
}

impl PType {
    /// The shader keyword for this kind.
    pub fn keyword(&self) -> (r: &'static str)
        ensures
            r@ == ptype_keyword(*self),
    {
        proof {
            reveal_strlit("bool");
            reveal_strlit("i32");
            reveal_strlit("i64");
            reveal_strlit("u32");
            reveal_strlit("u64");
            reveal_strlit("f16");
            reveal_strlit("f32");
            reveal_strlit("f64");
        }
        let r = match self {
            PType::Bool => "bool",
            PType::I32 => "i32",
            PType::I64 => "i64",
            PType::U32 => "u32",
            PType::U64 => "u64",
            PType::F16 => "f16",
            PType::F32 => "f32",
            PType::F64 => "f64",
        };
        proof {
            assert(r@ =~= ptype_keyword(*self));
        }
        r
    }
}

impl TType {
    /// The shader-source text of this type.
    pub fn type_text(&self) -> (r: String)
        ensures
            r@ == ttype_text(*self),
        decreases self,
    {
        match self {
            TType::Scalar(p) => {
                let mut out = String::new();
                out.append(p.keyword());
                proof {
                    assert(out@ =~= ttype_text(*self));
                }
                out
            },
            TType::Vector(c, p) => {
                proof {
                    reveal_strlit("vec");
                    reveal_strlit("<");
                    reveal_strlit(">");
                }
                let mut out = String::new();
                out.append("vec");
                crate::scan::push_decimal(*c, &mut out);
                out.append("<");
                out.append(p.keyword());
                out.append(">");
                proof {
                    assert(out@ =~= ttype_text(*self));
                }
                out
            },
            TType::Matrix { m, n, typed } => {
                proof {
                    reveal_strlit("mat");
                    reveal_strlit("x");
                    reveal_strlit("<");
                    reveal_strlit(">");
                }
                let mut out = String::new();
                out.append("mat");
                crate::scan::push_decimal(*m, &mut out);
                out.append("x");
                crate::scan::push_decimal(*n, &mut out);
                out.append("<");
                out.append(typed.keyword());
                out.append(">");
                proof {
                    assert(out@ =~= ttype_text(*self));
                }
                out
            },
            TType::Array(c, e) => {
                proof {
                    reveal_strlit("array<");
                    reveal_strlit(",");
                    reveal_strlit(">");
                }
                let inner = e.type_text();
                let mut out = String::new();
                out.append("array<");
                out.append(inner.as_str());
                out.append(",");
                crate::scan::push_decimal(*c, &mut out);
                out.append(">");
                proof {
                    assert(out@ =~= ttype_text(*self));
                }
                out
            },
        }
    }
}

/// The accessor snippet generated for one slot: a zero-argument shader
/// function returning the field's current value from the uniform block.
pub open spec fn slot_definition(s: SlotModel) -> Seq<char> {
    seq!['f', 'n', ' '] + s.ident + seq!['(', ')', ' ', '-', '>', ' '] + ttype_text(s.typed) + seq![
        ' ',
        '{',
        'r',
        'e',
        't',
        'u',
        'r',
        'n',
        ' ',
        '_',
        'g',
        'u',
        'i',
        '.',
    ] + s.ident + seq![';', '}']
}

impl StructSlot {
    /// Emit the accessor definition for this slot.
    pub fn generate_definition(&self) -> (r: String)
        ensures
            r@ == slot_definition(self@),
    {
        proof {
            reveal_strlit("fn ");
            reveal_strlit("() -> ");
            reveal_strlit(" {return _gui.");
            reveal_strlit(";}");
        }
        let mut out = String::new();
        out.append("fn ");
        out.append(self.identifier.as_str());
        out.append("() -> ");
        let ty = self.typed.type_text();
        out.append(ty.as_str());
        out.append(" {return _gui.");
        out.append(self.identifier.as_str());
        out.append(";}");
        proof {
            assert(out@ =~= slot_definition(self@));
        }
        out
    }
}

// ---------------------------------------------------------------------------
// Runtime typed buffer
// ---------------------------------------------------------------------------

/// Typed access to a slot failed: the 1-based index names no slot, or the
/// value's byte length differs from the slot's declared size.
#[derive(Debug, Clone, Copy, PartialEq, Eq, Structural)]
pub enum SlotError {
    NoSuchSlot,
    SizeMismatch,
}

/// The byte buffer after writing `data` at offset `off`.
pub open spec fn spec_write(bytes: Seq<u8>, off: int, data: Seq<u8>) -> Seq<u8>
    recommends
        0 <= off,
        off + data.len() <= bytes.len(),
{
    bytes.subrange(0, off) + data + bytes.subrange(off + data.len(), bytes.len() as int)
}

/// Round-trip law: writing a value of a slot's declared size into a buffer of
/// the struct's size and reading the same slot back yields exactly the bytes
/// written.
pub proof fn lemma_write_read_round_trip(tys: Seq<TType>, bytes: Seq<u8>, slot: int, data: Seq<u8>)
    requires
        tys_wf(tys),
        1 <= slot <= tys.len(),
        data.len() == ttype_size(tys[slot - 1]),
        bytes.len() == struct_size(tys),
    ensures
        spec_write(bytes, offset_of(tys, slot), data).subrange(
            offset_of(tys, slot),
            offset_of(tys, slot) + data.len(),
        ) == data,
{
    lemma_offset_chain(tys, slot);
    lemma_end_le(tys, slot);
    lemma_struct_size_bounds(tys);
    let off = offset_of(tys, slot);
    assert(spec_write(bytes, off, data).subrange(off, off + data.len()) =~= data);
}

/// Two slot sequences are structurally identical: same identifiers, same
/// types, same order. Interface hints play no part.
pub open spec fn slots_structurally_eq(a: Seq<StructSlot>, b: Seq<StructSlot>) -> bool {
    a.len() == b.len() && forall|i: int|
        0 <= i < a.len() ==> (#[trigger] a[i]).identifier@ == b[i].identifier@ && a[i].typed
            == b[i].typed
}

/// Character-for-character string equality, decided without any assumption
/// about the derived comparison.
pub fn str_eq(a: &str, b: &str) -> (r: bool)
    ensures
        r == (a@ == b@),
{
    let la = a.unicode_len();
    let lb = b.unicode_len();
    if la != lb {
        return false;
    }
    let mut i: usize = 0;
    while i < la
        invariant
            0 <= i <= la,
            la == a@.len(),
            la == b@.len(),
            forall|j: int| 0 <= j < i ==> a@[j] == b@[j],
        decreases la - i,
    {
        if a.get_char(i) != b.get_char(i) {
            return false;
        }
        i = i + 1;
    }
    proof {
        assert(a@ =~= b@);
    }
    true
}

/// Structural equality of two type expressions.
pub fn ttype_eq(a: &TType, b: &TType) -> (r: bool)
    ensures
        r == (a == b),
    decreases a,
{
    match (a, b) {
        (TType::Scalar(x), TType::Scalar(y)) => x == y,
        (TType::Vector(c1, x), TType::Vector(c2, y)) => c1 == c2 && x == y,
        (
            TType::Matrix { m: m1, n: n1, typed: t1 },
            TType::Matrix { m: m2, n: n2, typed: t2 },
        ) => m1 == m2 && n1 == n2 && t1 == t2,
        (TType::Array(c1, e1), TType::Array(c2, e2)) => c1 == c2 && ttype_eq(e1, e2),
        _ => false,
    }
}

/// Structural identity of two slot sequences.
pub fn slots_structural_eq(a: &Vec<StructSlot>, b: &Vec<StructSlot>) -> (r: bool)
    ensures
        r == slots_structurally_eq(a@, b@),
{
    if a.len() != b.len() {
        return false;
    }
    let mut i: usize = 0;
    while i < a.len()
        invariant
            0 <= i <= a@.len(),
            a@.len() == b@.len(),
            forall|j: int|
                0 <= j < i ==> (#[trigger] a@[j]).identifier@ == b@[j].identifier@ && a@[j].typed
                    == b@[j].typed,
        decreases a@.len() - i,
    {
        if !str_eq(a[i].identifier.as_str(), b[i].identifier.as_str()) {
            return false;
        }
        if !ttype_eq(&a[i].typed, &b[i].typed) {
            return false;
        }
        i = i + 1;
    }
    true
}

/// The slot metadata of one parsed struct together with a packed byte buffer
/// of exactly the computed struct size; reads and writes are checked against
/// the declared slot sizes before any byte moves.
#[derive(Debug)]
pub struct RuntimeStruct {
    slots: Vec<StructSlot>,
    buffer: Vec<u8>,
}

impl RuntimeStruct {
    /// The slot sequence, immutable after construction.
    pub closed spec fn slots_view(&self) -> Seq<StructSlot> {
        self.slots@
    }

    /// The packed bytes.
    pub closed spec fn bytes(&self) -> Seq<u8> {
        self.buffer@
    }

    /// The slot sequence lays out, and the buffer has exactly the struct size.
    pub open spec fn wf(&self) -> bool {
        tys_wf(slot_types(self.slots_view())) && self.bytes().len() == struct_size(
            slot_types(self.slots_view()),
        )
    }

    /// A fresh, zero-initialized buffer for the given slots.
    pub fn new(slots: Vec<StructSlot>) -> (r: Self)
        requires
            tys_wf(slot_types(slots@)),
        ensures
            r.wf(),
            r.slots_view() == slots@,
            r.bytes().len() == struct_size(slot_types(slots@)),
            forall|j: int| 0 <= j < r.bytes().len() ==> r.bytes()[j] == 0,
    {
        let size = slots.size();
        let mut buffer: Vec<u8> = Vec::new();
        while buffer.len() < size
            invariant
                buffer@.len() <= size,
                forall|j: int| 0 <= j < buffer@.len() ==> buffer@[j] == 0,
            decreases size - buffer@.len(),
        {
            buffer.push(0);
        }
        RuntimeStruct { slots, buffer }
    }

    pub fn slots(&self) -> (r: &Vec<StructSlot>)
        ensures
            r@ == self.slots_view(),
    {
        &self.slots
    }

    /// The whole packed buffer, for bulk upload.
    pub fn buffer(&self) -> (r: &Vec<u8>)
        ensures
            r@ == self.bytes(),
    {
        &self.buffer
    }

    /// First slot whose identifier equals `slot_name`, as a 1-based index.
    pub fn get_slot_number(&self, slot_name: &str) -> (r: Option<usize>)
        ensures
            match r {
                Some(k) => 1 <= k <= self.slots_view().len() && self.slots_view()[k
                    - 1].identifier@ == slot_name@ && forall|j: int|
                    0 <= j < k - 1 ==> (#[trigger] self.slots_view()[j]).identifier@ != slot_name@,
                None => forall|j: int|
                    0 <= j < self.slots_view().len() ==> (
                    #[trigger] self.slots_view()[j]).identifier@ != slot_name@,
            },
    {
        let mut i: usize = 0;
        while i < self.slots.len()
            invariant
                0 <= i <= self.slots@.len(),
                forall|j: int|
                    0 <= j < i ==> (#[trigger] self.slots@[j]).identifier@ != slot_name@,
            decreases self.slots@.len() - i,
        {
            if str_eq(self.slots[i].identifier.as_str(), slot_name) {
                return Some(i + 1);
            }
            i = i + 1;
        }
        None
    }

    /// Copy `data` into the 1-based `slot`, after checking that the slot
    /// exists and that `data` has exactly the slot's declared size.
    pub fn write_to_slot(&mut self, slot: usize, data: &[u8]) -> (r: Result<(), SlotError>)
        requires
            old(self).wf(),
        ensures
            final(self).wf(),
            final(self).slots_view() == old(self).slots_view(),
            ({
                let tys = slot_types(old(self).slots_view());
                match r {
                    Ok(()) => 1 <= slot <= tys.len() && data@.len() == ttype_size(
                        tys[slot - 1],
                    ) && final(self).bytes() == spec_write(
                        old(self).bytes(),
                        offset_of(tys, slot as int),
                        data@,
                    ),
                    Err(SlotError::NoSuchSlot) => !(1 <= slot <= tys.len()) && final(self).bytes()
                        == old(self).bytes(),
                    Err(SlotError::SizeMismatch) => 1 <= slot <= tys.len() && data@.len()
                        != ttype_size(tys[slot - 1]) && final(self).bytes() == old(self).bytes(),
                }
            }),
    {
        let ghost tys = slot_types(self.slots@);
        if slot < 1 || slot > self.slots.len() {
            return Err(SlotError::NoSuchSlot);
        }
        proof {
            assert(self.slots@[slot - 1].typed == tys[slot - 1]);
            lemma_offset_chain(tys, slot as int);
            lemma_end_le(tys, slot as int);
            lemma_struct_size_bounds(tys);
            lemma_ttype_size_nonneg(tys[slot - 1]);
        }
        let size = self.slots[slot - 1].typed.size();
        if data.len() != size {
            return Err(SlotError::SizeMismatch);
        }
        let off = offset_of_member(&self.slots, slot);
        let ghost bytes0 = self.buffer@;
        let mut j: usize = 0;
        while j < size
            invariant
                0 <= j <= size,
                off + size <= usize::MAX,
                off + size <= bytes0.len(),
                data@.len() == size,
                self.buffer@.len() == bytes0.len(),
                self.slots@ == old(self).slots@,
                forall|l: int| 0 <= l < off ==> self.buffer@[l] == bytes0[l],
                forall|l: int| off <= l < off + j ==> self.buffer@[l] == data@[l - off],
                forall|l: int|
                    off + size <= l < bytes0.len() ==> self.buffer@[l] == bytes0[l],
                forall|l: int| off + j <= l < off + size ==> self.buffer@[l] == bytes0[l],
            decreases size - j,
        {
            self.buffer.set(off + j, data[j]);
            j = j + 1;
        }
        proof {
            assert(self.buffer@ =~= spec_write(bytes0, off as int, data@));
        }
        Ok(())
    }

    /// Copy the bytes of the 1-based `slot` out of the buffer; the result has
    /// exactly the slot's declared size.
    pub fn read_from_slot(&self, slot: usize) -> (r: Result<Vec<u8>, SlotError>)
        requires
            self.wf(),
        ensures
            ({
                let tys = slot_types(self.slots_view());
                match r {
                    Ok(v) => 1 <= slot <= tys.len() && v@.len() == ttype_size(tys[slot - 1])
                        && v@ == self.bytes().subrange(
                        offset_of(tys, slot as int),
                        offset_of(tys, slot as int) + ttype_size(tys[slot - 1]),
                    ),
                    Err(SlotError::NoSuchSlot) => !(1 <= slot <= tys.len()),
                    Err(SlotError::SizeMismatch) => false,
                }
            }),
    {
        let ghost tys = slot_types(self.slots@);
        if slot < 1 || slot > self.slots.len() {
            return Err(SlotError::NoSuchSlot);
        }
        proof {
            assert(self.slots@[slot - 1].typed == tys[slot - 1]);
            lemma_offset_chain(tys, slot as int);
            lemma_end_le(tys, slot as int);
            lemma_struct_size_bounds(tys);
            lemma_ttype_size_nonneg(tys[slot - 1]);
        }
        let size = self.slots[slot - 1].typed.size();
        let off = offset_of_member(&self.slots, slot);
        let mut v: Vec<u8> = Vec::new();
        let mut j: usize = 0;
        while j < size
            invariant
                0 <= j <= size,
                off + size <= usize::MAX,
                off + size <= self.buffer@.len(),
                v@.len() == j,
                forall|l: int| 0 <= l < j ==> v@[l] == self.buffer@[off + l],
            decreases size - j,
        {
            v.push(self.buffer[off + j]);
            j = j + 1;
        }
        proof {
            assert(v@ =~= self.buffer@.subrange(off as int, off + size));
        }
        Ok(v)
    }

    /// Hot-reload policy: when the freshly parsed slots are structurally
    /// identical to the current ones, the buffer — and with it every current
    /// field value — is retained; otherwise it is replaced by a fresh
    /// zero-initialized buffer sized for the new slots.
    pub fn reload(self, new_slots: Vec<StructSlot>) -> (r: Self)
        requires
            self.wf(),
            tys_wf(slot_types(new_slots@)),
        ensures
            r.wf(),
            slots_structurally_eq(self.slots_view(), new_slots@) ==> r.slots_view()
                == self.slots_view() && r.bytes() == self.bytes(),
            !slots_structurally_eq(self.slots_view(), new_slots@) ==> r.slots_view() == new_slots@
                && r.bytes().len() == struct_size(slot_types(new_slots@)) && forall|j: int|
                0 <= j < r.bytes().len() ==> r.bytes()[j] == 0,
    {
        if slots_structural_eq(&self.slots, &new_slots) {
            self
        } else {
            RuntimeStruct::new(new_slots)
        }
    }
}

} // verus!
