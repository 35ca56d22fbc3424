//! The bit-level interaction graph: which individual BDD variables a design's operators relate
//! to one another.
//!
//! A node is one bit of a leaf (state or input) cell. Walking the design once in declaration
//! order, each node carries a per-bit support (the leaf bits each of its output bits depends
//! on), and each operator adds edges according to its structure:
//!
//! | operator | edges |
//! |---|---|
//! | bitwise, `eq`, `iff` … | `a_i — b_i`, aligned and sparse |
//! | `add` / `sub` / comparisons | aligned, plus the `a_i — a_{i+1}` carry chain |
//! | shifts by a symbolic amount | every amount bit — every data bit, the amount bits selectors |
//! | `mul` / division / remainder | dense, unless one operand is constant |
//! | `concat` / `slice` / `uext` / `sext` / `not` / `neg` | re-map only, no coupling |
//! | `ite` | condition bits — every output bit, the condition bits selectors |
//!
//! The graph is the input a reordering pass would consume; it computes no order itself.

use vstd::prelude::*;
use std::collections::BTreeSet;
use crate::text::{all_hex_digits, hex_digit_value, hex_prefixes_end, is_hex_digit, str_chars, strip_hex_prefixes};
use std::collections::BTreeMap;
use crate::btor2::{Btor2File, ConstValue, Line, Nid, Node, Op, Operand, Sort};

verus! {

broadcast use vstd::std_specs::btree::group_btree_axioms, vstd::laws_cmp::group_laws_cmp;

/// One BDD variable: a bit of a leaf (state or input) cell.
pub type BitRef = (Nid, usize);

/// An undirected edge, stored with the smaller endpoint first.
pub type Edge = (BitRef, BitRef);

/// A set of leaf bits.
pub type Bits = BTreeSet<BitRef>;

/// The elements of `src`, each once.
#[verifier::spinoff_prover]
fn bits_to_vec(src: &Bits) -> (v: Vec<BitRef>)
    ensures
        v@.to_set() == src@,
{
    let mut v: Vec<BitRef> = Vec::new();
    for x in it: src.iter()
        invariant
            it.seq().unref().to_set() == src@,
            v@.len() == it.index(),
            forall|j: int| 0 <= j < it.index() ==> v@[j] == it.seq().unref()[j],
            forall|y: BitRef|
                v@.contains(y) <==> exists|j: int| 0 <= j < it.index() && it.seq().unref()[j] == y,
    {
        let ghost v0 = v@;
        v.push(*x);
        proof {
            assert forall|y: BitRef| v@.contains(y) implies exists|j: int|
                0 <= j < it.index() + 1 && it.seq().unref()[j] == y by {
                let k = choose|k: int| 0 <= k < v@.len() && v@[k] == y;
                assert(it.seq().unref()[k] == y);
            }
            assert forall|y: BitRef| (exists|j: int|
                0 <= j < it.index() + 1 && it.seq().unref()[j] == y) implies v@.contains(y) by {
                let k = choose|k: int| 0 <= k < it.index() + 1 && it.seq().unref()[k] == y;
                assert(v@[k] == y);
            }
        }
    }
    v
}

/// The elements of `src`, each once.
#[verifier::spinoff_prover]
fn edges_to_vec(src: &BTreeSet<Edge>) -> (v: Vec<Edge>)
    ensures
        v@.to_set() == src@,
{
    let mut v: Vec<Edge> = Vec::new();
    for x in it: src.iter()
        invariant
            it.seq().unref().to_set() == src@,
            v@.len() == it.index(),
            forall|j: int| 0 <= j < it.index() ==> v@[j] == it.seq().unref()[j],
            forall|y: Edge|
                v@.contains(y) <==> exists|j: int| 0 <= j < it.index() && it.seq().unref()[j] == y,
    {
        let ghost v0 = v@;
        v.push(*x);
        proof {
            assert forall|y: Edge| v@.contains(y) implies exists|j: int|
                0 <= j < it.index() + 1 && it.seq().unref()[j] == y by {
                let k = choose|k: int| 0 <= k < v@.len() && v@[k] == y;
                assert(it.seq().unref()[k] == y);
            }
            assert forall|y: Edge| (exists|j: int|
                0 <= j < it.index() + 1 && it.seq().unref()[j] == y) implies v@.contains(y) by {
                let k = choose|k: int| 0 <= k < it.index() + 1 && it.seq().unref()[k] == y;
                assert(v@[k] == y);
            }
        }
    }
    v
}

// ---- the graph, stated over sets ------------------------------------------------------------

/// The order edges are stored in: by node id, then by bit.
pub open spec fn bit_lt(a: BitRef, b: BitRef) -> bool {
    a.0 < b.0 || (a.0 == b.0 && a.1 < b.1)
}

/// The edges between every member of `xs` and every member of `ys`, a bit never meeting
/// itself, each stored once with the smaller endpoint first.
pub open spec fn cross(xs: Set<BitRef>, ys: Set<BitRef>) -> Set<Edge> {
    Set::new(
        |e: Edge|
            bit_lt(e.0, e.1) && ((xs.contains(e.0) && ys.contains(e.1)) || (xs.contains(e.1)
                && ys.contains(e.0))),
    )
}

/// The sets a per-bit support holds, bit by bit.
pub open spec fn sets_of(v: Seq<Bits>) -> Seq<Set<BitRef>> {
    v.map_values(|b: Bits| b@)
}

/// The support of bit `i`; nothing for a bit the node does not have.
pub open spec fn bit_of(s: Seq<Set<BitRef>>, i: int) -> Set<BitRef> {
    if 0 <= i < s.len() {
        s[i]
    } else {
        Set::empty()
    }
}

/// Every leaf bit any bit of the node depends on.
pub open spec fn all_bits(s: Seq<Set<BitRef>>) -> Set<BitRef> {
    Set::new(|x: BitRef| exists|i: int| 0 <= i < s.len() && #[trigger] s[i].contains(x))
}

/// Bit `i` of one operand meets bit `i` of the other, for every `i < n`.
pub open spec fn aligned_edges(sa: Seq<Set<BitRef>>, sb: Seq<Set<BitRef>>, n: int) -> Set<Edge> {
    Set::new(
        |e: Edge|
            exists|i: int| 0 <= i < n && #[trigger] cross(bit_of(sa, i), bit_of(sb, i)).contains(e),
    )
}

/// Bit `i` meets bit `i + 1` of the same operand, for every `i + 1 < n`: a carry chain.
pub open spec fn chain_edges(s: Seq<Set<BitRef>>, n: int) -> Set<Edge> {
    Set::new(
        |e: Edge|
            exists|i: int|
                0 <= i && i + 1 < n && #[trigger] cross(bit_of(s, i), bit_of(s, i + 1)).contains(e),
    )
}

/// Every bit at or below `i` of either operand: what bit `i` of a sum depends on.
pub open spec fn prefix_union(sa: Seq<Set<BitRef>>, sb: Seq<Set<BitRef>>, i: int) -> Set<BitRef> {
    Set::new(
        |x: BitRef|
            exists|j: int|
                0 <= j <= i && (#[trigger] bit_of(sa, j).contains(x) || bit_of(sb, j).contains(x)),
    )
}

/// Each member of `live` meets the next larger one: the carry chain of a shift-and-add.
pub open spec fn consecutive_edges(live: Set<BitRef>) -> Set<Edge> {
    Set::new(
        |e: Edge|
            bit_lt(e.0, e.1) && live.contains(e.0) && live.contains(e.1) && !exists|z: BitRef|
                #![trigger live.contains(z)]
                live.contains(z) && bit_lt(e.0, z) && bit_lt(z, e.1),
    )
}

/// The edges an `ite` adds over `w` output bits: the condition meets every bit of both
/// branches, and the branches meet each other bit by bit.
pub open spec fn ite_edges(
    cond: Set<BitRef>,
    st: Seq<Set<BitRef>>,
    sf: Seq<Set<BitRef>>,
    w: int,
) -> Set<Edge> {
    Set::new(
        |e: Edge|
            exists|i: int|
                0 <= i < w && (#[trigger] cross(cond, bit_of(st, i)).contains(e) || cross(
                    cond,
                    bit_of(sf, i),
                ).contains(e) || cross(bit_of(st, i), bit_of(sf, i)).contains(e)),
    )
}

pub open spec fn max_nat(a: nat, b: nat) -> nat {
    if a >= b {
        a
    } else {
        b
    }
}

/// `n` copies of the same support.
pub open spec fn repeat(x: Set<BitRef>, n: nat) -> Seq<Set<BitRef>> {
    Seq::new(n, |i: int| x)
}

/// How an operator couples the bits of its operands.
#[derive(Debug, Clone, Copy, PartialEq, Eq, Structural)]
pub enum OpClass {
    /// Aligned and sparse; the result is bit-wise.
    Bitwise,
    /// Aligned; the one-bit result depends on everything.
    Equality,
    /// Aligned, plus both operands' carry chains; bit `i` of the result depends on every bit
    /// at or below `i`.
    Arithmetic,
    /// Aligned, plus the first operand's chain; the one-bit result depends on everything.
    Comparison,
    /// A barrel shifter when the amount is symbolic, wiring when it is constant.
    Shift,
    /// Dense unless an operand is constant.
    Multiplicative,
    /// One output bit over all input bits, which all meet.
    Reduction,
    /// A re-map of the first operand, bit for bit.
    Remap,
    Concat,
    Slice,
    Ite,
    /// Overflow predicates and memory operations: conservatively dense.
    Dense,
}

pub open spec fn op_class(op: Op) -> OpClass {
    match op {
        Op::And | Op::Or | Op::Xor | Op::Nand | Op::Nor | Op::Xnor | Op::Iff | Op::Implies =>
            OpClass::Bitwise,
        Op::Eq | Op::Neq => OpClass::Equality,
        Op::Add | Op::Sub | Op::Inc | Op::Dec => OpClass::Arithmetic,
        Op::Sgt | Op::Ugt | Op::Sgte | Op::Ugte | Op::Slt | Op::Ult | Op::Slte | Op::Ulte =>
            OpClass::Comparison,
        Op::Sll | Op::Srl | Op::Sra | Op::Rol | Op::Ror => OpClass::Shift,
        Op::Mul | Op::Sdiv | Op::Udiv | Op::Smod | Op::Srem | Op::Urem => OpClass::Multiplicative,
        Op::Redand | Op::Redor | Op::Redxor => OpClass::Reduction,
        Op::Not | Op::Neg | Op::Uext | Op::Sext => OpClass::Remap,
        Op::Concat => OpClass::Concat,
        Op::Slice => OpClass::Slice,
        Op::Ite => OpClass::Ite,
        _ => OpClass::Dense,
    }
}

/// What one operator adds: its edges, its selector bits, and the per-bit support of its
/// result. `sa`, `sb`, `sc` are the supports of its first three operands (empty when absent),
/// `a_pow2`/`b_pow2` whether the first/second operand is a power-of-two constant, `lower` the
/// lower bound of a slice.
pub open spec fn op_effect(
    op: Op,
    w: nat,
    sa: Seq<Set<BitRef>>,
    sb: Seq<Set<BitRef>>,
    sc: Seq<Set<BitRef>>,
    a_pow2: bool,
    b_pow2: bool,
    lower: int,
) -> (Set<Edge>, Set<BitRef>, Seq<Set<BitRef>>) {
    let x = all_bits(sa);
    let y = all_bits(sb);
    match op_class(op) {
        OpClass::Bitwise => (
            aligned_edges(sa, sb, w as int),
            Set::empty(),
            Seq::new(w, |i: int| bit_of(sa, i).union(bit_of(sb, i))),
        ),
        OpClass::Equality => (
            aligned_edges(sa, sb, max_nat(sa.len(), sb.len()) as int),
            Set::empty(),
            repeat(x.union(y), max_nat(w, 1)),
        ),
        OpClass::Arithmetic => {
            let n = max_nat(max_nat(sa.len(), sb.len()), w) as int;
            (
                aligned_edges(sa, sb, n).union(chain_edges(sa, n)).union(chain_edges(sb, n)),
                Set::empty(),
                Seq::new(w, |i: int| prefix_union(sa, sb, i)),
            )
        },
        OpClass::Comparison => {
            let n = max_nat(sa.len(), sb.len()) as int;
            (
                aligned_edges(sa, sb, n).union(chain_edges(sa, n)),
                Set::empty(),
                repeat(x.union(y), max_nat(w, 1)),
            )
        },
        OpClass::Shift => if y.is_empty() {
            (Set::empty(), Set::empty(), Seq::new(w, |i: int| bit_of(sa, i)))
        } else {
            (cross(x, y), y, repeat(x.union(y), w))
        },
        OpClass::Multiplicative => if (y.is_empty() && b_pow2) || (x.is_empty() && a_pow2) {
            (Set::empty(), Set::empty(), Seq::new(w, |i: int| bit_of(sa, i).union(bit_of(sb, i))))
        } else if x.is_empty() || y.is_empty() {
            (
                consecutive_edges(
                    if x.is_empty() {
                        y
                    } else {
                        x
                    },
                ),
                Set::empty(),
                repeat(x.union(y), w),
            )
        } else {
            (cross(x, y).union(cross(x, x)), Set::empty(), repeat(x.union(y), w))
        },
        OpClass::Reduction => (cross(x, x), Set::empty(), repeat(x, max_nat(w, 1))),
        OpClass::Remap => (Set::empty(), Set::empty(), Seq::new(w, |i: int| bit_of(sa, i))),
        OpClass::Concat => (
            Set::empty(),
            Set::empty(),
            Seq::new(
                w,
                |i: int|
                    if i < sb.len() {
                        bit_of(sb, i)
                    } else {
                        bit_of(sa, i - sb.len())
                    },
            ),
        ),
        OpClass::Slice => (Set::empty(), Set::empty(), Seq::new(w, |i: int| bit_of(sa, i + lower))),
        OpClass::Ite => (
            ite_edges(x, sb, sc, w as int),
            if w > 0 {
                x
            } else {
                Set::empty()
            },
            Seq::new(w, |i: int| x.union(bit_of(sb, i)).union(bit_of(sc, i))),
        ),
        OpClass::Dense => (cross(x, y).union(cross(x, x)), Set::empty(), repeat(x.union(y), max_nat(w, 1))),
    }
}

// ---- constants that are powers of two ------------------------------------------------------

/// Whether `n` is a power of two.
pub open spec fn is_pow2(n: nat) -> bool
    decreases n,
{
    if n == 1 {
        true
    } else if n > 1 && n % 2 == 0 {
        is_pow2(n / 2)
    } else {
        false
    }
}

/// How many `'1'` characters `s` holds.
pub open spec fn count_ones(s: Seq<char>) -> nat
    decreases s.len(),
{
    if s.len() == 0 {
        0
    } else {
        count_ones(s.drop_last()) + if s.last() == '1' {
            1nat
        } else {
            0nat
        }
    }
}

/// How many bits of a hexadecimal digit's value are set.
pub open spec fn nibble_ones(d: nat) -> nat {
    d % 2 + (d / 2) % 2 + (d / 4) % 2 + (d / 8) % 2
}

/// How many bits the hexadecimal digits of `s` set in all.
pub open spec fn hex_ones(s: Seq<char>) -> nat
    decreases s.len(),
{
    if s.len() == 0 {
        0
    } else {
        hex_ones(s.drop_last()) + nibble_ones(hex_digit_value(s.last()))
    }
}

/// The digits of a hexadecimal literal: after its `0x` prefixes and an optional `+`.
pub open spec fn hex_literal_digits(h: Seq<char>) -> Seq<char> {
    let t = strip_hex_prefixes(h);
    if t.len() > 0 && t[0] == '+' {
        t.drop_first()
    } else {
        t
    }
}

/// Is this constant a power of two? `x * 2^k` is pure wiring; `x * 3` carries. `one` is
/// (`2^0`), `zero` and `ones` are not; a decimal literal is when it is a positive power of
/// two; a binary literal when exactly one of its digits is `1`; a hexadecimal one when its
/// digits are all hexadecimal and exactly one bit of them is set, however many digits it has.
pub open spec fn const_is_pow2_spec(v: ConstValue) -> bool {
    match v {
        ConstValue::Zero => false,
        ConstValue::One => true,
        ConstValue::Dec(d) => d > 0 && is_pow2(d as nat),
        ConstValue::Bin(b) => count_ones(b@) == 1,
        ConstValue::Hex(h) => {
            let digits = hex_literal_digits(h@);
            digits.len() > 0 && all_hex_digits(digits) && hex_ones(digits) == 1
        },
        ConstValue::Ones => false,
    }
}

proof fn lemma_is_pow2_from_power(k: nat)
    ensures
        is_pow2(vstd::arithmetic::power2::pow2(k)),
    decreases k,
{
    vstd::arithmetic::power2::lemma_pow2_pos(k);
    if k == 0 {
        vstd::arithmetic::power2::lemma2_to64();
    } else {
        vstd::arithmetic::power2::lemma_pow2_unfold(k);
        let p = vstd::arithmetic::power2::pow2((k - 1) as nat);
        vstd::arithmetic::power2::lemma_pow2_pos((k - 1) as nat);
        lemma_is_pow2_from_power((k - 1) as nat);
        assert(2 * p > 1 && (2 * p) % 2 == 0 && (2 * p) / 2 == p);
    }
}

proof fn lemma_power_from_is_pow2(n: nat)
    requires
        is_pow2(n),
    ensures
        exists|k: nat| n == #[trigger] vstd::arithmetic::power2::pow2(k),
    decreases n,
{
    if n == 1 {
        vstd::arithmetic::power2::lemma2_to64();
        assert(n == vstd::arithmetic::power2::pow2(0));
    } else {
        lemma_power_from_is_pow2(n / 2);
        let k = choose|k: nat| n / 2 == #[trigger] vstd::arithmetic::power2::pow2(k);
        vstd::arithmetic::power2::lemma_pow2_unfold(k + 1);
        assert(n == vstd::arithmetic::power2::pow2(k + 1));
    }
}

/// A constant counts as a power of two exactly when the number it denotes is `2^k` for some
/// `k`: `one` does, `zero` and `ones` do not, a decimal literal does when it is `2^k`, and a
/// binary literal does when exactly one of its digits is `1`.
pub proof fn lemma_power_of_two_constants(d: i128, b: String)
    ensures
        !const_is_pow2_spec(ConstValue::Zero),
        const_is_pow2_spec(ConstValue::One),
        !const_is_pow2_spec(ConstValue::Ones),
        const_is_pow2_spec(ConstValue::Dec(d)) <==> d > 0 && exists|k: nat|
            d as int == #[trigger] vstd::arithmetic::power2::pow2(k),
        const_is_pow2_spec(ConstValue::Bin(b)) <==> exists|i: int| #[trigger] only_one_at(b@, i),
{
    if d > 0 {
        if is_pow2(d as nat) {
            lemma_power_from_is_pow2(d as nat);
        }
        if exists|k: nat| d as int == #[trigger] vstd::arithmetic::power2::pow2(k) {
            let k = choose|k: nat| d as int == #[trigger] vstd::arithmetic::power2::pow2(k);
            lemma_is_pow2_from_power(k);
        }
    }
    lemma_count_ones_one(b@);
}

/// `s[i]` is the only `'1'` in `s`.
pub open spec fn only_one_at(s: Seq<char>, i: int) -> bool {
    0 <= i < s.len() && s[i] == '1' && forall|j: int| 0 <= j < s.len() && j != i ==> #[trigger] s[j] != '1'
}

proof fn lemma_count_ones_one(s: Seq<char>)
    ensures
        count_ones(s) == 1 <==> exists|i: int| #[trigger] only_one_at(s, i),
    decreases s.len(),
{
    if s.len() > 0 {
        let t = s.drop_last();
        let n = s.len() - 1;
        assert forall|j: int| 0 <= j < t.len() implies #[trigger] t[j] == s[j] by {}
        lemma_count_ones_one(t);
        lemma_count_ones_zero(t);
        if count_ones(s) == 1 {
            if s.last() == '1' {
                assert(count_ones(t) == 0);
                assert forall|j: int| 0 <= j < s.len() && j != n implies #[trigger] s[j] != '1' by {
                    assert(t[j] == s[j]);
                    assert(t[j] != '1');
                }
                assert(only_one_at(s, n));
            } else {
                assert(count_ones(t) == 1);
                let i = choose|i: int| #[trigger] only_one_at(t, i);
                assert forall|j: int| 0 <= j < s.len() && j != i implies #[trigger] s[j] != '1' by {
                    if j < n {
                        assert(t[j] == s[j]);
                        assert(t[j] != '1');
                    }
                }
                assert(t[i] == s[i]);
                assert(only_one_at(s, i));
            }
        }
        if exists|i: int| #[trigger] only_one_at(s, i) {
            let i = choose|i: int| #[trigger] only_one_at(s, i);
            if i == n {
                assert(count_ones(t) == 0);
            } else {
                assert(s[n] != '1');
                assert(only_one_at(t, i));
            }
        }
    }
}

proof fn lemma_count_ones_zero(s: Seq<char>)
    ensures
        count_ones(s) == 0 <==> forall|j: int| 0 <= j < s.len() ==> #[trigger] s[j] != '1',
    decreases s.len(),
{
    if s.len() > 0 {
        let t = s.drop_last();
        lemma_count_ones_zero(t);
        if count_ones(s) == 0 {
            assert forall|j: int| 0 <= j < s.len() implies #[trigger] s[j] != '1' by {
                if j < s.len() - 1 {
                    assert(t[j] == s[j]);
                }
            }
        }
        if forall|j: int| 0 <= j < s.len() ==> #[trigger] s[j] != '1' {
            assert(s[s.len() - 1] != '1');
            assert forall|j: int| 0 <= j < t.len() implies #[trigger] t[j] != '1' by {
                assert(s[j] != '1');
            }
        }
    }
}

// ---- the walk over the design ---------------------------------------------------------------

/// The graph as sets: its edges, its nodes (every leaf bit declared), and its selector bits.
pub type GraphView = (Set<Edge>, Set<BitRef>, Set<BitRef>);

/// The per-bit support of every node walked so far, by node id.
pub type SupportView = Map<Nid, Seq<Set<BitRef>>>;

/// The state of the walk: the graph so far, the supports, and the power-of-two constants.
pub type WalkState = (GraphView, SupportView, Set<Nid>);

/// The width of every bit-vector sort, a later declaration of an id replacing an earlier one.
pub open spec fn sort_widths_spec(lines: Seq<Line>) -> Map<Nid, nat>
    decreases lines.len(),
{
    if lines.len() == 0 {
        Map::empty()
    } else {
        let m = sort_widths_spec(lines.drop_last());
        match lines.last().node {
            Node::Sort { sort: Sort::BitVec { width } } => m.insert(lines.last().nid, width as nat),
            _ => m,
        }
    }
}

/// The width of a sort; 0 for an id that is not a bit-vector sort.
pub open spec fn width_of_sort(widths: Map<Nid, nat>, sort: Nid) -> nat {
    if widths.contains_key(sort) {
        widths[sort]
    } else {
        0
    }
}

/// The support of the node an operand names; nothing when there is no such operand or node.
pub open spec fn lookup(sup: SupportView, n: Option<Nid>) -> Seq<Set<BitRef>> {
    match n {
        Some(k) => if sup.contains_key(k) {
            sup[k]
        } else {
            seq![]
        },
        None => seq![],
    }
}

pub open spec fn arg_nid(args: Seq<Operand>, k: int) -> Option<Nid> {
    if 0 <= k < args.len() {
        Some(args[k].nid)
    } else {
        None
    }
}

/// The lower bound of a slice, its third argument (0 when absent or negative).
pub open spec fn slice_lower(args: Seq<Operand>) -> int {
    if args.len() > 2 && args[2].nid > 0 {
        args[2].nid as int
    } else {
        0
    }
}

pub open spec fn is_pow2_operand(pow2: Set<Nid>, n: Option<Nid>) -> bool {
    match n {
        Some(k) => pow2.contains(k),
        None => false,
    }
}

/// The leaf bits of a cell `w` bits wide.
pub open spec fn leaf_bits(nid: Nid, w: nat) -> Set<BitRef> {
    Set::new(|b: BitRef| b.0 == nid && b.1 < w)
}

/// Each bit of a leaf cell depends on itself alone.
pub open spec fn leaf_support(nid: Nid, w: nat) -> Seq<Set<BitRef>> {
    Seq::new(w, |i: int| set![(nid, i as usize)])
}

/// One line of the walk: a state or input declares its bits; a constant has empty support
/// (and is remembered when it is a power of two); an operator adds its edges and selectors
/// and records its result's support; every other line changes nothing.
pub open spec fn line_step(widths: Map<Nid, nat>, st: WalkState, line: Line) -> WalkState {
    let (g, sup, pow2) = st;
    match line.node {
        Node::State { sort, .. } => {
            let w = width_of_sort(widths, sort);
            ((g.0, g.1.union(leaf_bits(line.nid, w)), g.2), sup.insert(line.nid, leaf_support(line.nid, w)), pow2)
        },
        Node::Input { sort, .. } => {
            let w = width_of_sort(widths, sort);
            ((g.0, g.1.union(leaf_bits(line.nid, w)), g.2), sup.insert(line.nid, leaf_support(line.nid, w)), pow2)
        },
        Node::Const { sort, value } => {
            let w = width_of_sort(widths, sort);
            (
                g,
                sup.insert(line.nid, repeat(Set::empty(), w)),
                if const_is_pow2_spec(value) {
                    pow2.insert(line.nid)
                } else {
                    pow2
                },
            )
        },
        Node::Op { op, sort, args } => {
            let w = width_of_sort(widths, sort);
            let a = arg_nid(args@, 0);
            let b = arg_nid(args@, 1);
            let eff = op_effect(
                op,
                w,
                lookup(sup, a),
                lookup(sup, b),
                lookup(sup, arg_nid(args@, 2)),
                is_pow2_operand(pow2, a),
                is_pow2_operand(pow2, b),
                slice_lower(args@),
            );
            ((g.0.union(eff.0), g.1, g.2.union(eff.1)), sup.insert(line.nid, eff.2), pow2)
        },
        _ => st,
    }
}

/// The walk over the first lines of a design.
pub open spec fn walk(widths: Map<Nid, nat>, lines: Seq<Line>) -> WalkState
    decreases lines.len(),
{
    if lines.len() == 0 {
        ((Set::empty(), Set::empty(), Set::empty()), Map::empty(), Set::empty())
    } else {
        line_step(widths, walk(widths, lines.drop_last()), lines.last())
    }
}

/// The bit-level interaction graph of a design.
pub open spec fn graph_of(file: Btor2File) -> GraphView {
    walk(sort_widths_spec(file.lines@), file.lines@).0
}

// ---- the graph -------------------------------------------------------------------------------

/// The bit-level interaction graph of a design.
#[derive(Debug)]
pub struct BitGraph {
    /// Undirected edges, each stored once with the smaller endpoint first.
    pub edges: BTreeSet<Edge>,
    /// Every leaf bit the design declares, whether or not it has an edge.
    pub nodes: Bits,
    /// Bits that select rather than combine: a symbolic shift amount, an `ite` condition.
    pub selectors: Bits,
}

impl View for BitGraph {
    type V = GraphView;

    open spec fn view(&self) -> GraphView {
        (self.edges@, self.nodes@, self.selectors@)
    }
}

impl Default for BitGraph {
    fn default() -> (g: Self)
        ensures
            g@ == (Set::<Edge>::empty(), Set::<BitRef>::empty(), Set::<BitRef>::empty()),
    {
        BitGraph { edges: BTreeSet::new(), nodes: BTreeSet::new(), selectors: BTreeSet::new() }
    }
}

fn bit_less(a: BitRef, b: BitRef) -> (r: bool)
    ensures
        r == bit_lt(a, b),
{
    a.0 < b.0 || (a.0 == b.0 && a.1 < b.1)
}

proof fn lemma_take_to_set_step<A>(s: Seq<A>, i: int)
    requires
        0 <= i < s.len(),
    ensures
        s.take(i + 1).to_set() == s.take(i).to_set().insert(s[i]),
{
    assert forall|x: A| s.take(i + 1).to_set().contains(x) implies s.take(i).to_set().insert(
        s[i],
    ).contains(x) by {
        let k = choose|k: int| 0 <= k < i + 1 && #[trigger] s.take(i + 1)[k] == x;
        if k < i {
            assert(s.take(i)[k] == x);
        }
    }
    assert forall|x: A| s.take(i).to_set().insert(s[i]).contains(x) implies s.take(
        i + 1,
    ).to_set().contains(x) by {
        if x == s[i] {
            assert(s.take(i + 1)[i] == x);
        } else {
            let k = choose|k: int| 0 <= k < i && #[trigger] s.take(i)[k] == x;
            assert(s.take(i + 1)[k] == x);
        }
    }
    assert(s.take(i + 1).to_set() =~= s.take(i).to_set().insert(s[i]));
}

proof fn lemma_take_all_to_set<A>(s: Seq<A>)
    ensures
        s.take(s.len() as int).to_set() == s.to_set(),
{
    assert(s.take(s.len() as int) =~= s);
}

/// Union `src` into `dst`.
fn union_into(dst: &mut Bits, src: &Bits)
    ensures
        final(dst)@ == old(dst)@.union(src@),
{
    let v = bits_to_vec(src);
    let ghost d0 = dst@;
    let mut i: usize = 0;
    while i < v.len()
        invariant
            i <= v@.len(),
            v@.to_set() == src@,
            dst@ == d0.union(v@.take(i as int).to_set()),
        decreases v@.len() - i,
    {
        dst.insert(v[i]);
        proof {
            lemma_take_to_set_step(v@, i as int);
        }
        i = i + 1;
        assert(dst@ =~= d0.union(v@.take(i as int).to_set()));
    }
    proof {
        lemma_take_all_to_set(v@);
    }
    assert(dst@ =~= d0.union(src@));
}

impl BitGraph {
    /// Add the edge between `a` and `b`; a bit meeting itself carries no ordering information.
    fn add_edge(&mut self, a: BitRef, b: BitRef)
        ensures
            final(self)@ == (old(self)@.0.union(cross(set![a], set![b])), old(self)@.1, old(self)@.2),
    {
        if a.0 == b.0 && a.1 == b.1 {
            assert(cross(set![a], set![b]) =~= Set::<Edge>::empty());
            assert(self.edges@.union(cross(set![a], set![b])) =~= self.edges@);
            return;
        }
        let e = if bit_less(a, b) {
            (a, b)
        } else {
            (b, a)
        };
        assert(cross(set![a], set![b]) =~= set![e]);
        self.edges.insert(e);
    }

    /// Edges between every member of `xs` and every member of `ys`: the dense case.
    fn add_cross(&mut self, xs: &Bits, ys: &Bits)
        ensures
            final(self)@ == (old(self)@.0.union(cross(xs@, ys@)), old(self)@.1, old(self)@.2),
    {
        let xv = bits_to_vec(xs);
        let yv = bits_to_vec(ys);
        let ghost g0 = self@;
        let mut i: usize = 0;
        while i < xv.len()
            invariant
                i <= xv@.len(),
                xv@.to_set() == xs@,
                yv@.to_set() == ys@,
                self@ == (g0.0.union(cross(xv@.take(i as int).to_set(), ys@)), g0.1, g0.2),
            decreases xv@.len() - i,
        {
            let x = xv[i];
            let ghost gi = self@;
            let mut j: usize = 0;
            while j < yv.len()
                invariant
                    j <= yv@.len(),
                    self@ == (gi.0.union(cross(set![x], yv@.take(j as int).to_set())), gi.1, gi.2),
                decreases yv@.len() - j,
            {
                self.add_edge(x, yv[j]);
                proof {
                    lemma_take_to_set_step(yv@, j as int);
                    assert(cross(set![x], yv@.take(j + 1).to_set()) =~= cross(
                        set![x],
                        yv@.take(j as int).to_set(),
                    ).union(cross(set![x], set![yv@[j as int]])));
                }
                j = j + 1;
                assert(self@.0 =~= gi.0.union(cross(set![x], yv@.take(j as int).to_set())));
            }
            proof {
                lemma_take_all_to_set(yv@);
                lemma_take_to_set_step(xv@, i as int);
                assert(cross(xv@.take(i + 1).to_set(), ys@) =~= cross(
                    xv@.take(i as int).to_set(),
                    ys@,
                ).union(cross(set![x], ys@)));
            }
            i = i + 1;
            assert(self@.0 =~= g0.0.union(cross(xv@.take(i as int).to_set(), ys@)));
        }
        proof {
            lemma_take_all_to_set(xv@);
        }
        assert(self@.0 =~= g0.0.union(cross(xs@, ys@)));
    }
}


// ---- per-bit supports ---------------------------------------------------------------------------

/// The support of bit `i`.
fn bit(s: &Vec<Bits>, i: usize) -> (r: Bits)
    ensures
        r@ == bit_of(sets_of(s@), i as int),
{
    if i < s.len() {
        s[i].clone()
    } else {
        BTreeSet::new()
    }
}

/// Every leaf bit any bit of the node depends on.
fn all(s: &Vec<Bits>) -> (r: Bits)
    ensures
        r@ == all_bits(sets_of(s@)),
{
    let ghost ss = sets_of(s@);
    let mut r: Bits = BTreeSet::new();
    let mut i: usize = 0;
    while i < s.len()
        invariant
            i <= s@.len(),
            ss == sets_of(s@),
            r@ == all_bits(ss.take(i as int)),
        decreases s@.len() - i,
    {
        union_into(&mut r, &s[i]);
        proof {
            let t = ss.take(i as int);
            let t1 = ss.take(i + 1);
            assert forall|x: BitRef| all_bits(t1).contains(x) implies r@.contains(x) by {
                let k = choose|k: int| 0 <= k < t1.len() && #[trigger] t1[k].contains(x);
                if k < i {
                    assert(t[k].contains(x));
                }
            }
            assert forall|x: BitRef| r@.contains(x) implies all_bits(t1).contains(x) by {
                if all_bits(t).contains(x) {
                    let k = choose|k: int| 0 <= k < t.len() && #[trigger] t[k].contains(x);
                    assert(t1[k].contains(x));
                } else {
                    assert(t1[i as int].contains(x));
                }
            }
        }
        i = i + 1;
        assert(r@ =~= all_bits(ss.take(i as int)));
    }
    assert(ss.take(s@.len() as int) =~= ss);
    r
}

fn union_of(a: &Bits, b: &Bits) -> (r: Bits)
    ensures
        r@ == a@.union(b@),
{
    let mut r = a.clone();
    union_into(&mut r, b);
    r
}

impl BitGraph {
    /// Bit `i` of `sa` meets bit `i` of `sb`, for every `i < n`.
    fn add_aligned(&mut self, sa: &Vec<Bits>, sb: &Vec<Bits>, n: usize)
        ensures
            final(self)@ == (
                old(self)@.0.union(aligned_edges(sets_of(sa@), sets_of(sb@), n as int)),
                old(self)@.1,
                old(self)@.2,
            ),
    {
        let ghost g0 = self@;
        let ghost (a, b) = (sets_of(sa@), sets_of(sb@));
        let mut i: usize = 0;
        while i < n
            invariant
                i <= n,
                a == sets_of(sa@),
                b == sets_of(sb@),
                self@ == (g0.0.union(aligned_edges(a, b, i as int)), g0.1, g0.2),
            decreases n - i,
        {
            let x = bit(sa, i);
            let y = bit(sb, i);
            self.add_cross(&x, &y);
            proof {
                assert forall|e: Edge| aligned_edges(a, b, i + 1).contains(e) implies self@.0.contains(
                    e,
                ) by {
                    let k = choose|k: int|
                        0 <= k < i + 1 && #[trigger] cross(bit_of(a, k), bit_of(b, k)).contains(e);
                    if k < i {
                        assert(aligned_edges(a, b, i as int).contains(e));
                    }
                }
                assert forall|e: Edge| self@.0.contains(e) && !g0.0.contains(e) implies aligned_edges(
                    a,
                    b,
                    i + 1,
                ).contains(e) by {
                    if aligned_edges(a, b, i as int).contains(e) {
                        let k = choose|k: int|
                            0 <= k < i && #[trigger] cross(bit_of(a, k), bit_of(b, k)).contains(e);
                        assert(cross(bit_of(a, k), bit_of(b, k)).contains(e));
                    } else {
                        assert(cross(bit_of(a, i as int), bit_of(b, i as int)).contains(e));
                    }
                }
            }
            i = i + 1;
            assert(self@.0 =~= g0.0.union(aligned_edges(a, b, i as int)));
        }
    }

    /// Bit `i` of `s` meets bit `i + 1`, for every `i + 1 < n`.
    fn add_chain(&mut self, s: &Vec<Bits>, n: usize)
        ensures
            final(self)@ == (old(self)@.0.union(chain_edges(sets_of(s@), n as int)), old(self)@.1, old(self)@.2),
    {
        let ghost g0 = self@;
        let ghost a = sets_of(s@);
        assert(chain_edges(a, 1) =~= Set::<Edge>::empty());
        assert(g0.0.union(chain_edges(a, 1)) =~= g0.0);
        let mut i: usize = 0;
        while i + 1 < n
            invariant
                i + 1 <= n || (i == 0 && n == 0),
                a == sets_of(s@),
                self@ == (g0.0.union(chain_edges(a, i + 1)), g0.1, g0.2),
            decreases n - i,
        {
            let x = bit(s, i);
            let y = bit(s, i + 1);
            self.add_cross(&x, &y);
            proof {
                assert forall|e: Edge| chain_edges(a, i + 2).contains(e) implies self@.0.contains(e) by {
                    let k = choose|k: int|
                        0 <= k && k + 1 < i + 2 && #[trigger] cross(bit_of(a, k), bit_of(a, k + 1)).contains(e);
                    if k < i {
                        assert(chain_edges(a, i + 1).contains(e));
                    }
                }
                assert forall|e: Edge| self@.0.contains(e) && !g0.0.contains(e) implies chain_edges(
                    a,
                    i + 2,
                ).contains(e) by {
                    if chain_edges(a, i + 1).contains(e) {
                        let k = choose|k: int|
                            0 <= k && k + 1 < i + 1 && #[trigger] cross(bit_of(a, k), bit_of(a, k + 1)).contains(e);
                        assert(cross(bit_of(a, k), bit_of(a, k + 1)).contains(e));
                    } else {
                        assert(cross(bit_of(a, i as int), bit_of(a, i + 1)).contains(e));
                    }
                }
            }
            i = i + 1;
            assert(self@.0 =~= g0.0.union(chain_edges(a, i + 1)));
        }
        assert(chain_edges(a, n as int) =~= chain_edges(a, i + 1));
    }
}


fn push_bits(out: &mut Vec<Bits>, x: Bits)
    ensures
        sets_of(final(out)@) == sets_of(old(out)@).push(x@),
{
    let ghost o = out@;
    out.push(x);
    assert(sets_of(out@) =~= sets_of(o).push(x@));
}

/// Bits `offset .. offset + w` of `sa`, re-mapped to bits `0 .. w`.
fn shifted_support(sa: &Vec<Bits>, w: usize, offset: u64) -> (out: Vec<Bits>)
    ensures
        sets_of(out@) == Seq::new(w as nat, |i: int| bit_of(sets_of(sa@), i + offset)),
{
    let ghost a = sets_of(sa@);
    let mut out: Vec<Bits> = Vec::new();
    let mut i: usize = 0;
    while i < w
        invariant
            i <= w,
            a == sets_of(sa@),
            sets_of(out@) == Seq::new(i as nat, |k: int| bit_of(a, k + offset)),
        decreases w - i,
    {
        let idx: u128 = i as u128 + offset as u128;
        let b = if idx < sa.len() as u128 {
            sa[idx as usize].clone()
        } else {
            BTreeSet::new()
        };
        push_bits(&mut out, b);
        i = i + 1;
        assert(sets_of(out@) =~= Seq::new(i as nat, |k: int| bit_of(a, k + offset)));
    }
    out
}

/// Bit `i` of the result depends on bit `i` of both operands.
fn pairwise_support(sa: &Vec<Bits>, sb: &Vec<Bits>, w: usize) -> (out: Vec<Bits>)
    ensures
        sets_of(out@) == Seq::new(
            w as nat,
            |i: int| bit_of(sets_of(sa@), i).union(bit_of(sets_of(sb@), i)),
        ),
{
    let ghost (a, b) = (sets_of(sa@), sets_of(sb@));
    let mut out: Vec<Bits> = Vec::new();
    let mut i: usize = 0;
    while i < w
        invariant
            i <= w,
            a == sets_of(sa@),
            b == sets_of(sb@),
            sets_of(out@) == Seq::new(i as nat, |k: int| bit_of(a, k).union(bit_of(b, k))),
        decreases w - i,
    {
        let u = union_of(&bit(sa, i), &bit(sb, i));
        push_bits(&mut out, u);
        i = i + 1;
        assert(sets_of(out@) =~= Seq::new(i as nat, |k: int| bit_of(a, k).union(bit_of(b, k))));
    }
    out
}

/// `n` copies of `x`.
fn repeat_support(x: &Bits, n: usize) -> (out: Vec<Bits>)
    ensures
        sets_of(out@) == repeat(x@, n as nat),
{
    let mut out: Vec<Bits> = Vec::new();
    let mut i: usize = 0;
    while i < n
        invariant
            i <= n,
            sets_of(out@) == repeat(x@, i as nat),
        decreases n - i,
    {
        push_bits(&mut out, x.clone());
        i = i + 1;
        assert(sets_of(out@) =~= repeat(x@, i as nat));
    }
    out
}

/// Bit `i` of a sum depends on every bit at or below `i` of either operand.
fn prefix_support(sa: &Vec<Bits>, sb: &Vec<Bits>, w: usize) -> (out: Vec<Bits>)
    ensures
        sets_of(out@) == Seq::new(w as nat, |i: int| prefix_union(sets_of(sa@), sets_of(sb@), i)),
{
    let ghost (a, b) = (sets_of(sa@), sets_of(sb@));
    let mut out: Vec<Bits> = Vec::new();
    let mut acc: Bits = BTreeSet::new();
    let mut i: usize = 0;
    assert(acc@ =~= prefix_union(a, b, -1));
    while i < w
        invariant
            i <= w,
            a == sets_of(sa@),
            b == sets_of(sb@),
            acc@ == prefix_union(a, b, i - 1),
            sets_of(out@) == Seq::new(i as nat, |k: int| prefix_union(a, b, k)),
        decreases w - i,
    {
        union_into(&mut acc, &bit(sa, i));
        union_into(&mut acc, &bit(sb, i));
        proof {
            assert forall|x: BitRef| prefix_union(a, b, i as int).contains(x) implies acc@.contains(x) by {
                let j = choose|j: int|
                    0 <= j <= i && (#[trigger] bit_of(a, j).contains(x) || bit_of(b, j).contains(x));
                if j < i {
                    assert(prefix_union(a, b, i - 1).contains(x));
                }
            }
            assert forall|x: BitRef| acc@.contains(x) implies prefix_union(a, b, i as int).contains(x) by {
                if prefix_union(a, b, i - 1).contains(x) {
                    let j = choose|j: int|
                        0 <= j <= i - 1 && (#[trigger] bit_of(a, j).contains(x) || bit_of(b, j).contains(x));
                    assert(bit_of(a, j).contains(x) || bit_of(b, j).contains(x));
                } else {
                    assert(bit_of(a, i as int).contains(x) || bit_of(b, i as int).contains(x));
                }
            }
            assert(acc@ =~= prefix_union(a, b, i as int));
        }
        push_bits(&mut out, acc.clone());
        i = i + 1;
        assert(sets_of(out@) =~= Seq::new(i as nat, |k: int| prefix_union(a, b, k)));
    }
    out
}

/// `concat a b`: the low bits come from `b`, the high ones from `a`.
fn concat_support(sa: &Vec<Bits>, sb: &Vec<Bits>, w: usize) -> (out: Vec<Bits>)
    ensures
        sets_of(out@) == Seq::new(
            w as nat,
            |i: int|
                if i < sb@.len() {
                    bit_of(sets_of(sb@), i)
                } else {
                    bit_of(sets_of(sa@), i - sb@.len())
                },
        ),
{
    let ghost (a, b) = (sets_of(sa@), sets_of(sb@));
    let lo = sb.len();
    let mut out: Vec<Bits> = Vec::new();
    let mut i: usize = 0;
    while i < w
        invariant
            i <= w,
            lo == sb@.len(),
            a == sets_of(sa@),
            b == sets_of(sb@),
            sets_of(out@) == Seq::new(
                i as nat,
                |k: int|
                    if k < lo {
                        bit_of(b, k)
                    } else {
                        bit_of(a, k - lo)
                    },
            ),
        decreases w - i,
    {
        let x = if i < lo {
            bit(sb, i)
        } else {
            bit(sa, i - lo)
        };
        push_bits(&mut out, x);
        i = i + 1;
        assert(sets_of(out@) =~= Seq::new(
            i as nat,
            |k: int|
                if k < lo {
                    bit_of(b, k)
                } else {
                    bit_of(a, k - lo)
                },
        ));
    }
    out
}


fn classify(op: Op) -> (c: OpClass)
    ensures
        c == op_class(op),
{
    match op {
        Op::And | Op::Or | Op::Xor | Op::Nand | Op::Nor | Op::Xnor | Op::Iff | Op::Implies =>
            OpClass::Bitwise,
        Op::Eq | Op::Neq => OpClass::Equality,
        Op::Add | Op::Sub | Op::Inc | Op::Dec => OpClass::Arithmetic,
        Op::Sgt | Op::Ugt | Op::Sgte | Op::Ugte | Op::Slt | Op::Ult | Op::Slte | Op::Ulte =>
            OpClass::Comparison,
        Op::Sll | Op::Srl | Op::Sra | Op::Rol | Op::Ror => OpClass::Shift,
        Op::Mul | Op::Sdiv | Op::Udiv | Op::Smod | Op::Srem | Op::Urem => OpClass::Multiplicative,
        Op::Redand | Op::Redor | Op::Redxor => OpClass::Reduction,
        Op::Not | Op::Neg | Op::Uext | Op::Sext => OpClass::Remap,
        Op::Concat => OpClass::Concat,
        Op::Slice => OpClass::Slice,
        Op::Ite => OpClass::Ite,
        _ => OpClass::Dense,
    }
}

/// The smallest member of `v` above `x`, if any.
fn successor(v: &Vec<BitRef>, x: BitRef) -> (r: Option<BitRef>)
    ensures
        match r {
            Some(b) => v@.contains(b) && bit_lt(x, b) && forall|k: int|
                0 <= k < v@.len() ==> !(bit_lt(x, #[trigger] v@[k]) && bit_lt(v@[k], b)),
            None => forall|k: int| 0 <= k < v@.len() ==> !bit_lt(x, #[trigger] v@[k]),
        },
{
    let mut best: Option<BitRef> = None;
    let mut j: usize = 0;
    while j < v.len()
        invariant
            j <= v@.len(),
            match best {
                Some(b) => v@.contains(b) && bit_lt(x, b) && forall|k: int|
                    0 <= k < j ==> !(bit_lt(x, #[trigger] v@[k]) && bit_lt(v@[k], b)),
                None => forall|k: int| 0 <= k < j ==> !bit_lt(x, #[trigger] v@[k]),
            },
        decreases v@.len() - j,
    {
        let y = v[j];
        if bit_less(x, y) {
            match best {
                None => {
                    best = Some(y);
                },
                Some(b) => {
                    if bit_less(y, b) {
                        best = Some(y);
                    }
                },
            }
        }
        j = j + 1;
    }
    best
}

impl BitGraph {
    /// Each member of `live` meets the next larger one.
    fn add_consecutive(&mut self, live: &Bits)
        ensures
            final(self)@ == (old(self)@.0.union(consecutive_edges(live@)), old(self)@.1, old(self)@.2),
    {
        let v = bits_to_vec(live);
        let ghost g0 = self@;
        let ghost l = live@;
        let mut i: usize = 0;
        while i < v.len()
            invariant
                i <= v@.len(),
                v@.to_set() == l,
                l == live@,
                self@ == (
                    g0.0.union(
                        consecutive_edges(l).filter(|e: Edge| v@.take(i as int).to_set().contains(e.0)),
                    ),
                    g0.1,
                    g0.2,
                ),
            decreases v@.len() - i,
        {
            let x = v[i];
            let ghost before = self@.0;
            let s = successor(&v, x);
            proof {
                lemma_take_to_set_step(v@, i as int);
            }
            let ghost from_old = v@.take(i as int).to_set();
            let ghost from_new = v@.take(i + 1).to_set();
            match s {
                Some(b) => {
                    self.add_edge(x, b);
                    proof {
                        assert(cross(set![x], set![b]) =~= set![(x, b)]);
                        assert forall|e: Edge|
                            consecutive_edges(l).filter(|e: Edge| from_new.contains(e.0)).contains(e)
                            implies self@.0.contains(e) by {
                            if e.0 == x {
                                if e.1 != b {
                                    assert(v@.contains(e.1));
                                    let k = choose|k: int| 0 <= k < v@.len() && v@[k] == e.1;
                                    assert(!(bit_lt(x, v@[k]) && bit_lt(v@[k], b)));
                                    assert(l.contains(b));
                                }
                            } else {
                                assert(from_old.contains(e.0));
                            }
                        }
                        assert forall|e: Edge| self@.0.contains(e) && !g0.0.contains(e) implies consecutive_edges(l).filter(|e: Edge| from_new.contains(e.0)).contains(e) by {
                            if e == (x, b) {
                                assert(l.contains(x));
                                assert(l.contains(b));
                                assert forall|z: BitRef| l.contains(z) implies !(bit_lt(x, z) && bit_lt(z, b)) by {
                                    assert(v@.contains(z));
                                    let k = choose|k: int| 0 <= k < v@.len() && v@[k] == z;
                                    assert(!(bit_lt(x, v@[k]) && bit_lt(v@[k], b)));
                                }
                            }
                        }
                    }
                },
                None => {
                    proof {
                        assert forall|e: Edge|
                            consecutive_edges(l).filter(|e: Edge| from_new.contains(e.0)).contains(e)
                            implies self@.0.contains(e) by {
                            if e.0 == x {
                                assert(v@.contains(e.1));
                                let k = choose|k: int| 0 <= k < v@.len() && v@[k] == e.1;
                                assert(!bit_lt(x, v@[k]));
                            } else {
                                assert(from_old.contains(e.0));
                            }
                        }
                    }
                },
            }
            i = i + 1;
            assert(self@.0 =~= g0.0.union(
                consecutive_edges(l).filter(|e: Edge| v@.take(i as int).to_set().contains(e.0)),
            ));
        }
        proof {
            lemma_take_all_to_set(v@);
        }
        assert(consecutive_edges(l).filter(|e: Edge| v@.take(v@.len() as int).to_set().contains(e.0))
            =~= consecutive_edges(l));
    }

    /// The condition bits meet every bit of both branches and become selectors; the branches
    /// meet each other bit by bit.
    fn add_ite(&mut self, cond: &Bits, st: &Vec<Bits>, sf: &Vec<Bits>, w: usize) -> (out: Vec<Bits>)
        ensures
            final(self)@ == (
                old(self)@.0.union(ite_edges(cond@, sets_of(st@), sets_of(sf@), w as int)),
                old(self)@.1,
                old(self)@.2.union(
                    if w > 0 {
                        cond@
                    } else {
                        Set::empty()
                    },
                ),
            ),
            sets_of(out@) == Seq::new(
                w as nat,
                |i: int| cond@.union(bit_of(sets_of(st@), i)).union(bit_of(sets_of(sf@), i)),
            ),
    {
        let ghost g0 = self@;
        let ghost (t, f) = (sets_of(st@), sets_of(sf@));
        let mut out: Vec<Bits> = Vec::new();
        let mut i: usize = 0;
        assert(g0.2.union(Set::empty()) =~= g0.2);
        while i < w
            invariant
                i <= w,
                t == sets_of(st@),
                f == sets_of(sf@),
                self@ == (
                    g0.0.union(ite_edges(cond@, t, f, i as int)),
                    g0.1,
                    g0.2.union(
                        if i > 0 {
                            cond@
                        } else {
                            Set::empty()
                        },
                    ),
                ),
                sets_of(out@) == Seq::new(
                    i as nat,
                    |k: int| cond@.union(bit_of(t, k)).union(bit_of(f, k)),
                ),
            decreases w - i,
        {
            let ti = bit(st, i);
            let fi = bit(sf, i);
            self.add_cross(cond, &ti);
            self.add_cross(cond, &fi);
            union_into(&mut self.selectors, cond);
            self.add_cross(&ti, &fi);
            let u = union_of(&union_of(cond, &ti), &fi);
            push_bits(&mut out, u);
            proof {
                let ii = i as int;
                assert forall|e: Edge| ite_edges(cond@, t, f, ii + 1).contains(e) implies self@.0.contains(e) by {
                    let k = choose|k: int|
                        0 <= k < ii + 1 && (#[trigger] cross(cond@, bit_of(t, k)).contains(e) || cross(
                            cond@,
                            bit_of(f, k),
                        ).contains(e) || cross(bit_of(t, k), bit_of(f, k)).contains(e));
                    if k < ii {
                        assert(ite_edges(cond@, t, f, ii).contains(e));
                    }
                }
                assert forall|e: Edge| self@.0.contains(e) && !g0.0.contains(e) implies ite_edges(cond@, t, f, ii + 1).contains(e) by {
                    if ite_edges(cond@, t, f, ii).contains(e) {
                        let k = choose|k: int|
                            0 <= k < ii && (#[trigger] cross(cond@, bit_of(t, k)).contains(e) || cross(
                                cond@,
                                bit_of(f, k),
                            ).contains(e) || cross(bit_of(t, k), bit_of(f, k)).contains(e));
                        assert(cross(cond@, bit_of(t, k)).contains(e) || cross(cond@, bit_of(f, k)).contains(e) || cross(bit_of(t, k), bit_of(f, k)).contains(e));
                    } else {
                        assert(cross(cond@, bit_of(t, ii)).contains(e) || cross(cond@, bit_of(f, ii)).contains(e) || cross(bit_of(t, ii), bit_of(f, ii)).contains(e));
                    }
                }
            }
            i = i + 1;
            assert(self@.0 =~= g0.0.union(ite_edges(cond@, t, f, i as int)));
            assert(self@.2 =~= g0.2.union(cond@));
            assert(sets_of(out@) =~= Seq::new(
                i as nat,
                |k: int| cond@.union(bit_of(t, k)).union(bit_of(f, k)),
            ));
        }
        assert(ite_edges(cond@, t, f, 0) =~= Set::<Edge>::empty());
        if w == 0 {
            assert(self@.0 =~= g0.0.union(ite_edges(cond@, t, f, 0)));
        }
        out
    }
}


fn max_usize(a: usize, b: usize) -> (r: usize)
    ensures
        r == max_nat(a as nat, b as nat),
{
    if a >= b {
        a
    } else {
        b
    }
}

impl BitGraph {
    /// Apply one operator: add its edges and selectors, and return its result's per-bit
    /// support. The step only adds: every edge and selector stays, the declared bits are
    /// unchanged, and edges stored smaller endpoint first stay so.
    #[verifier::rlimit(50)]
    pub fn eval(
        &mut self,
        op: Op,
        w: usize,
        sa: &Vec<Bits>,
        sb: &Vec<Bits>,
        sc: &Vec<Bits>,
        a_pow2: bool,
        b_pow2: bool,
        lower: u64,
    ) -> (out: Vec<Bits>)
        ensures
            ({
                let eff = op_effect(
                    op,
                    w as nat,
                    sets_of(sa@),
                    sets_of(sb@),
                    sets_of(sc@),
                    a_pow2,
                    b_pow2,
                    lower as int,
                );
                &&& final(self)@ == (old(self)@.0.union(eff.0), old(self)@.1, old(self)@.2.union(eff.1))
                &&& sets_of(out@) == eff.2
            }),
            old(self)@.0.subset_of(final(self)@.0),
            old(self)@.2.subset_of(final(self)@.2),
            final(self)@.1 == old(self)@.1,
            edges_ordered(old(self)@.0) ==> edges_ordered(final(self)@.0),
    {
        proof {
            lemma_operator_step_only_adds(
                self@,
                op,
                w as nat,
                sets_of(sa@),
                sets_of(sb@),
                sets_of(sc@),
                a_pow2,
                b_pow2,
                lower as int,
            );
        }
        let ghost g0 = self@;
        let ghost (a, b, c) = (sets_of(sa@), sets_of(sb@), sets_of(sc@));
        let x = all(sa);
        let y = all(sb);
        assert(g0.2.union(Set::<BitRef>::empty()) =~= g0.2);
        assert(g0.0.union(Set::<Edge>::empty()) =~= g0.0);
        match classify(op) {
            OpClass::Bitwise => {
                self.add_aligned(sa, sb, w);
                pairwise_support(sa, sb, w)
            },
            OpClass::Equality => {
                self.add_aligned(sa, sb, max_usize(sa.len(), sb.len()));
                repeat_support(&union_of(&x, &y), max_usize(w, 1))
            },
            OpClass::Arithmetic => {
                let n = max_usize(max_usize(sa.len(), sb.len()), w);
                self.add_aligned(sa, sb, n);
                self.add_chain(sa, n);
                self.add_chain(sb, n);
                assert(self@.0 =~= g0.0.union(
                    aligned_edges(a, b, n as int).union(chain_edges(a, n as int)).union(chain_edges(b, n as int)),
                ));
                prefix_support(sa, sb, w)
            },
            OpClass::Comparison => {
                let n = max_usize(sa.len(), sb.len());
                self.add_aligned(sa, sb, n);
                self.add_chain(sa, n);
                assert(self@.0 =~= g0.0.union(aligned_edges(a, b, n as int).union(chain_edges(a, n as int))));
                repeat_support(&union_of(&x, &y), max_usize(w, 1))
            },
            OpClass::Shift => {
                if y.is_empty() {
                    let out = shifted_support(sa, w, 0);
                    assert(sets_of(out@) =~= Seq::new(w as nat, |i: int| bit_of(a, i)));
                    out
                } else {
                    self.add_cross(&x, &y);
                    union_into(&mut self.selectors, &y);
                    repeat_support(&union_of(&x, &y), w)
                }
            },
            OpClass::Multiplicative => {
                if (y.is_empty() && b_pow2) || (x.is_empty() && a_pow2) {
                    pairwise_support(sa, sb, w)
                } else if x.is_empty() || y.is_empty() {
                    if x.is_empty() {
                        self.add_consecutive(&y);
                    } else {
                        self.add_consecutive(&x);
                    }
                    repeat_support(&union_of(&x, &y), w)
                } else {
                    self.add_cross(&x, &y);
                    self.add_cross(&x, &x);
                    assert(self@.0 =~= g0.0.union(cross(x@, y@).union(cross(x@, x@))));
                    repeat_support(&union_of(&x, &y), w)
                }
            },
            OpClass::Reduction => {
                self.add_cross(&x, &x);
                repeat_support(&x, max_usize(w, 1))
            },
            OpClass::Remap => {
                let out = shifted_support(sa, w, 0);
                assert(sets_of(out@) =~= Seq::new(w as nat, |i: int| bit_of(a, i)));
                out
            },
            OpClass::Concat => concat_support(sa, sb, w),
            OpClass::Slice => shifted_support(sa, w, lower),
            OpClass::Ite => self.add_ite(&x, sb, sc, w),
            OpClass::Dense => {
                self.add_cross(&x, &y);
                self.add_cross(&x, &x);
                assert(self@.0 =~= g0.0.union(cross(x@, y@).union(cross(x@, x@))));
                repeat_support(&union_of(&x, &y), max_usize(w, 1))
            },
        }
    }
}


// ---- the walk, executed -------------------------------------------------------------------------

fn is_power_of_two(n: u128) -> (b: bool)
    ensures
        b == is_pow2(n as nat),
{
    let mut m = n;
    while m > 1 && m % 2 == 0
        invariant
            is_pow2(n as nat) == is_pow2(m as nat),
        decreases m,
    {
        m = m / 2;
    }
    m == 1
}

fn count_ones_in(s: &str) -> (n: usize)
    ensures
        n == count_ones(s@),
{
    let v = str_chars(s);
    let mut n: usize = 0;
    let mut i: usize = 0;
    while i < v.len()
        invariant
            i <= v@.len(),
            v@ == s@,
            n == count_ones(v@.take(i as int)),
            n <= i,
        decreases v@.len() - i,
    {
        assert(v@.take(i + 1).drop_last() =~= v@.take(i as int));
        if v[i] == '1' {
            n = n + 1;
        }
        i = i + 1;
    }
    assert(v@.take(v@.len() as int) =~= v@);
    n
}

/// Whether the hexadecimal digits `s[from..]` are all hexadecimal and set exactly one bit.
fn hex_digits_one_bit(s: &Vec<char>, from: usize) -> (b: bool)
    requires
        from <= s@.len(),
    ensures
        b == ({
            let digits = s@.skip(from as int);
            digits.len() > 0 && all_hex_digits(digits) && hex_ones(digits) == 1
        }),
{
    let ghost digits = s@.skip(from as int);
    if from == s.len() {
        return false;
    }
    let mut ones: u128 = 0;
    let mut k: usize = from;
    while k < s.len()
        invariant
            from <= k <= s@.len(),
            from < s@.len(),
            digits == s@.skip(from as int),
            all_hex_digits(s@.subrange(from as int, k as int)),
            ones == hex_ones(s@.subrange(from as int, k as int)),
            ones <= 4 * (k - from),
        decreases s@.len() - k,
    {
        let c = s[k];
        let d: u32 = if '0' <= c && c <= '9' {
            (c as u32) - ('0' as u32)
        } else if 'a' <= c && c <= 'f' {
            (c as u32) - ('a' as u32) + 10
        } else if 'A' <= c && c <= 'F' {
            (c as u32) - ('A' as u32) + 10
        } else {
            assert(!is_hex_digit(digits[k - from]));
            return false;
        };
        assert(d as nat == hex_digit_value(c));
        let n: u32 = d % 2 + (d / 2) % 2 + (d / 4) % 2 + (d / 8) % 2;
        assert(s@.subrange(from as int, k + 1).drop_last() =~= s@.subrange(from as int, k as int));
        ones = ones + n as u128;
        k = k + 1;
    }
    assert(s@.subrange(from as int, s@.len() as int) =~= digits);
    ones == 1
}

/// Is this constant a power of two?
fn const_is_pow2(v: &ConstValue) -> (b: bool)
    ensures
        b == const_is_pow2_spec(*v),
{
    match v {
        ConstValue::Zero => false,
        ConstValue::One => true,
        ConstValue::Dec(d) => *d > 0 && is_power_of_two(*d as u128),
        ConstValue::Bin(b) => count_ones_in(b.as_str()) == 1,
        ConstValue::Hex(h) => {
            let chars = str_chars(h.as_str());
            let start = hex_prefixes_end(&chars);
            let from: usize = if start < chars.len() && chars[start] == '+' {
                start + 1
            } else {
                start
            };
            assert(chars@.skip(from as int) =~= hex_literal_digits(h@));
            hex_digits_one_bit(&chars, from)
        },
        ConstValue::Ones => false,
    }
}

pub open spec fn widths_view(m: Map<Nid, usize>) -> Map<Nid, nat> {
    m.map_values(|w: usize| w as nat)
}

pub open spec fn support_view(m: Map<Nid, Vec<Bits>>) -> SupportView {
    m.map_values(|v: Vec<Bits>| sets_of(v@))
}

/// `sort nid -> width`, for the bit-vector sorts.
fn sort_widths(file: &Btor2File) -> (m: BTreeMap<Nid, usize>)
    ensures
        widths_view(m@) == sort_widths_spec(file.lines@),
{
    let lines = &file.lines;
    let mut m: BTreeMap<Nid, usize> = BTreeMap::new();
    let mut i: usize = 0;
    assert(widths_view(m@) =~= sort_widths_spec(lines@.take(0)));
    while i < lines.len()
        invariant
            i <= lines@.len(),
            lines == &file.lines,
            widths_view(m@) == sort_widths_spec(lines@.take(i as int)),
        decreases lines@.len() - i,
    {
        let line = &lines[i];
        assert(lines@.take(i + 1).drop_last() =~= lines@.take(i as int));
        assert(lines@.take(i + 1).last() == lines@[i as int]);
        match &line.node {
            Node::Sort { sort: Sort::BitVec { width } } => {
                m.insert(line.nid, *width as usize);
                assert(widths_view(m@) =~= sort_widths_spec(lines@.take(i + 1)));
            },
            _ => {},
        }
        i = i + 1;
    }
    assert(lines@.take(lines@.len() as int) =~= lines@);
    m
}

fn width_lookup(widths: &BTreeMap<Nid, usize>, sort: Nid) -> (w: usize)
    ensures
        w == width_of_sort(widths_view(widths@), sort),
{
    match widths.get(&sort) {
        Some(w) => *w,
        None => 0,
    }
}

/// Build the bit-level interaction graph of `file`: walk the design once in declaration
/// order, carrying a per-bit support for every node and adding each operator's edges.
pub fn build(file: &Btor2File) -> (g: BitGraph)
    ensures
        g@ == graph_of(*file),
{
    let widths = sort_widths(file);
    let ghost wv = sort_widths_spec(file.lines@);
    let lines = &file.lines;
    let mut g = BitGraph::default();
    let mut support: BTreeMap<Nid, Vec<Bits>> = BTreeMap::new();
    let mut pow2: BTreeSet<Nid> = BTreeSet::new();
    let empty: Vec<Bits> = Vec::new();
    assert(sets_of(empty@) =~= Seq::<Set<BitRef>>::empty());
    assert(support_view(support@) =~= Map::<Nid, Seq<Set<BitRef>>>::empty());
    let mut i: usize = 0;
    while i < lines.len()
        invariant
            i <= lines@.len(),
            lines == &file.lines,
            widths_view(widths@) == wv,
            sets_of(empty@) == Seq::<Set<BitRef>>::empty(),
            (g@, support_view(support@), pow2@) == walk(wv, lines@.take(i as int)),
        decreases lines@.len() - i,
    {
        let line = &lines[i];
        let ghost st = walk(wv, lines@.take(i as int));
        proof {
            assert(lines@.take(i + 1).drop_last() =~= lines@.take(i as int));
            assert(lines@.take(i + 1).last() == lines@[i as int]);
        }
        let nid = line.nid;
        match &line.node {
            Node::State { sort, .. } | Node::Input { sort, .. } => {
                let w = width_lookup(&widths, *sort);
                let mut bits: Vec<Bits> = Vec::new();
                let ghost nodes0 = g.nodes@;
                let mut k: usize = 0;
                while k < w
                    invariant
                        k <= w,
                        g.edges@ == st.0.0,
                        g.selectors@ == st.0.2,
                        nodes0 == st.0.1,
                        g.nodes@ == nodes0.union(leaf_bits(nid, k as nat)),
                        sets_of(bits@) == leaf_support(nid, k as nat),
                    decreases w - k,
                {
                    g.nodes.insert((nid, k));
                    let mut one: Bits = BTreeSet::new();
                    one.insert((nid, k));
                    push_bits(&mut bits, one);
                    k = k + 1;
                    assert(g.nodes@ =~= nodes0.union(leaf_bits(nid, k as nat)));
                    assert(sets_of(bits@) =~= leaf_support(nid, k as nat));
                }
                support.insert(nid, bits);
                assert(support_view(support@) =~= st.1.insert(nid, leaf_support(nid, w as nat)));
            },
            Node::Const { sort, value } => {
                let w = width_lookup(&widths, *sort);
                let nothing: Bits = BTreeSet::new();
                let bits = repeat_support(&nothing, w);
                if const_is_pow2(value) {
                    pow2.insert(nid);
                }
                support.insert(nid, bits);
                assert(support_view(support@) =~= st.1.insert(nid, repeat(Set::empty(), w as nat)));
            },
            Node::Op { op, sort, args } => {
                let w = width_lookup(&widths, *sort);
                let a: Option<Nid> = if args.len() > 0 {
                    Some(args[0].nid())
                } else {
                    None
                };
                let b: Option<Nid> = if args.len() > 1 {
                    Some(args[1].nid())
                } else {
                    None
                };
                let c: Option<Nid> = if args.len() > 2 {
                    Some(args[2].nid())
                } else {
                    None
                };
                let lower: u64 = if args.len() > 2 && args[2].nid() > 0 {
                    args[2].nid() as u64
                } else {
                    0
                };
                let a_pow2 = match a {
                    Some(n) => pow2.contains(&n),
                    None => false,
                };
                let b_pow2 = match b {
                    Some(n) => pow2.contains(&n),
                    None => false,
                };
                let sa: &Vec<Bits> = match a {
                    Some(n) => match support.get(&n) {
                        Some(v) => v,
                        None => &empty,
                    },
                    None => &empty,
                };
                let sb: &Vec<Bits> = match b {
                    Some(n) => match support.get(&n) {
                        Some(v) => v,
                        None => &empty,
                    },
                    None => &empty,
                };
                let sc: &Vec<Bits> = match c {
                    Some(n) => match support.get(&n) {
                        Some(v) => v,
                        None => &empty,
                    },
                    None => &empty,
                };
                assert(sets_of(sa@) == lookup(st.1, arg_nid(args@, 0)));
                assert(sets_of(sb@) == lookup(st.1, arg_nid(args@, 1)));
                assert(sets_of(sc@) == lookup(st.1, arg_nid(args@, 2)));
                let out = g.eval(*op, w, sa, sb, sc, a_pow2, b_pow2, lower);
                support.insert(nid, out);
                assert(support_view(support@) =~= st.1.insert(
                    nid,
                    op_effect(
                        *op,
                        w as nat,
                        lookup(st.1, arg_nid(args@, 0)),
                        lookup(st.1, arg_nid(args@, 1)),
                        lookup(st.1, arg_nid(args@, 2)),
                        is_pow2_operand(st.2, arg_nid(args@, 0)),
                        is_pow2_operand(st.2, arg_nid(args@, 1)),
                        slice_lower(args@),
                    ).2,
                ));
            },
            _ => {},
        }
        i = i + 1;
    }
    assert(lines@.take(lines@.len() as int) =~= lines@);
    g
}


// ---- laws -----------------------------------------------------------------------------------------

proof fn lemma_effect_edges_ordered(
    op: Op,
    w: nat,
    sa: Seq<Set<BitRef>>,
    sb: Seq<Set<BitRef>>,
    sc: Seq<Set<BitRef>>,
    a_pow2: bool,
    b_pow2: bool,
    lower: int,
)
    ensures
        forall|e: Edge|
            #![trigger op_effect(op, w, sa, sb, sc, a_pow2, b_pow2, lower).0.contains(e)]
            op_effect(op, w, sa, sb, sc, a_pow2, b_pow2, lower).0.contains(e) ==> bit_lt(e.0, e.1),
{
    let eff = op_effect(op, w, sa, sb, sc, a_pow2, b_pow2, lower);
    assert forall|e: Edge| eff.0.contains(e) implies bit_lt(e.0, e.1) by {
        let x = all_bits(sa);
        let y = all_bits(sb);
        if aligned_edges(sa, sb, max_nat(max_nat(sa.len(), sb.len()), w) as int).contains(e) {
            let n = max_nat(max_nat(sa.len(), sb.len()), w) as int;
            let k = choose|k: int| 0 <= k < n && #[trigger] cross(bit_of(sa, k), bit_of(sb, k)).contains(e);
        }
        if aligned_edges(sa, sb, max_nat(sa.len(), sb.len()) as int).contains(e) {
            let n = max_nat(sa.len(), sb.len()) as int;
            let k = choose|k: int| 0 <= k < n && #[trigger] cross(bit_of(sa, k), bit_of(sb, k)).contains(e);
        }
        if aligned_edges(sa, sb, w as int).contains(e) {
            let k = choose|k: int| 0 <= k < w && #[trigger] cross(bit_of(sa, k), bit_of(sb, k)).contains(e);
        }
        if chain_edges(sa, max_nat(max_nat(sa.len(), sb.len()), w) as int).contains(e) {
            let n = max_nat(max_nat(sa.len(), sb.len()), w) as int;
            let k = choose|k: int| 0 <= k && k + 1 < n && #[trigger] cross(bit_of(sa, k), bit_of(sa, k + 1)).contains(e);
        }
        if chain_edges(sb, max_nat(max_nat(sa.len(), sb.len()), w) as int).contains(e) {
            let n = max_nat(max_nat(sa.len(), sb.len()), w) as int;
            let k = choose|k: int| 0 <= k && k + 1 < n && #[trigger] cross(bit_of(sb, k), bit_of(sb, k + 1)).contains(e);
        }
        if chain_edges(sa, max_nat(sa.len(), sb.len()) as int).contains(e) {
            let n = max_nat(sa.len(), sb.len()) as int;
            let k = choose|k: int| 0 <= k && k + 1 < n && #[trigger] cross(bit_of(sa, k), bit_of(sa, k + 1)).contains(e);
        }
        if ite_edges(x, sb, sc, w as int).contains(e) {
            let k = choose|k: int|
                0 <= k < w && (#[trigger] cross(x, bit_of(sb, k)).contains(e) || cross(x, bit_of(sc, k)).contains(e)
                    || cross(bit_of(sb, k), bit_of(sc, k)).contains(e));
        }
    }
}

/// Every edge of the graph joins two different bits and is stored once, smaller endpoint
/// first.
pub proof fn lemma_edges_are_ordered(file: Btor2File)
    ensures
        forall|e: Edge| #[trigger] graph_of(file).0.contains(e) ==> bit_lt(e.0, e.1),
{
    lemma_walk_edges_ordered(sort_widths_spec(file.lines@), file.lines@);
}

proof fn lemma_walk_edges_ordered(widths: Map<Nid, nat>, lines: Seq<Line>)
    ensures
        forall|e: Edge| #[trigger] walk(widths, lines).0.0.contains(e) ==> bit_lt(e.0, e.1),
    decreases lines.len(),
{
    if lines.len() > 0 {
        lemma_walk_edges_ordered(widths, lines.drop_last());
        let st = walk(widths, lines.drop_last());
        let line = lines.last();
        match line.node {
            Node::Op { op, sort, args } => {
                let w = width_of_sort(widths, sort);
                let a = arg_nid(args@, 0);
                let b = arg_nid(args@, 1);
                lemma_effect_edges_ordered(
                    op,
                    w,
                    lookup(st.1, a),
                    lookup(st.1, b),
                    lookup(st.1, arg_nid(args@, 2)),
                    is_pow2_operand(st.2, a),
                    is_pow2_operand(st.2, b),
                    slice_lower(args@),
                );
            },
            _ => {},
        }
    }
}


/// Every bit of every support in `s` is in `n`.
pub open spec fn bits_within(s: Seq<Set<BitRef>>, n: Set<BitRef>) -> bool {
    forall|i: int, x: BitRef| 0 <= i < s.len() && #[trigger] s[i].contains(x) ==> n.contains(x)
}

/// The graph's edges join declared bits, and its selectors are declared bits.
pub open spec fn graph_closed(g: GraphView) -> bool {
    &&& forall|e: Edge| #[trigger] g.0.contains(e) ==> g.1.contains(e.0) && g.1.contains(e.1)
    &&& forall|x: BitRef| #[trigger] g.2.contains(x) ==> g.1.contains(x)
}

proof fn lemma_effect_within(
    op: Op,
    w: nat,
    sa: Seq<Set<BitRef>>,
    sb: Seq<Set<BitRef>>,
    sc: Seq<Set<BitRef>>,
    a_pow2: bool,
    b_pow2: bool,
    lower: int,
    n: Set<BitRef>,
)
    requires
        bits_within(sa, n),
        bits_within(sb, n),
        bits_within(sc, n),
    ensures
        ({
            let eff = op_effect(op, w, sa, sb, sc, a_pow2, b_pow2, lower);
            &&& forall|e: Edge| #[trigger] eff.0.contains(e) ==> n.contains(e.0) && n.contains(e.1)
            &&& forall|x: BitRef| #[trigger] eff.1.contains(x) ==> n.contains(x)
            &&& bits_within(eff.2, n)
        }),
{
    let eff = op_effect(op, w, sa, sb, sc, a_pow2, b_pow2, lower);
    let x = all_bits(sa);
    let y = all_bits(sb);
    assert forall|b: BitRef| x.contains(b) implies n.contains(b) by {
        let i = choose|i: int| 0 <= i < sa.len() && #[trigger] sa[i].contains(b);
    }
    assert forall|b: BitRef| y.contains(b) implies n.contains(b) by {
        let i = choose|i: int| 0 <= i < sb.len() && #[trigger] sb[i].contains(b);
    }
    assert forall|i: int, b: BitRef| #[trigger] bit_of(sa, i).contains(b) implies n.contains(b) by {}
    assert forall|i: int, b: BitRef| #[trigger] bit_of(sb, i).contains(b) implies n.contains(b) by {}
    assert forall|i: int, b: BitRef| #[trigger] bit_of(sc, i).contains(b) implies n.contains(b) by {}
    assert forall|e: Edge| eff.0.contains(e) implies n.contains(e.0) && n.contains(e.1) by {
        if ite_edges(x, sb, sc, w as int).contains(e) {
            let k = choose|k: int|
                0 <= k < w && (#[trigger] cross(x, bit_of(sb, k)).contains(e) || cross(x, bit_of(sc, k)).contains(e)
                    || cross(bit_of(sb, k), bit_of(sc, k)).contains(e));
        }
        let m3 = max_nat(max_nat(sa.len(), sb.len()), w) as int;
        let m2 = max_nat(sa.len(), sb.len()) as int;
        if aligned_edges(sa, sb, m3).contains(e) {
            let k = choose|k: int| 0 <= k < m3 && #[trigger] cross(bit_of(sa, k), bit_of(sb, k)).contains(e);
        }
        if aligned_edges(sa, sb, m2).contains(e) {
            let k = choose|k: int| 0 <= k < m2 && #[trigger] cross(bit_of(sa, k), bit_of(sb, k)).contains(e);
        }
        if aligned_edges(sa, sb, w as int).contains(e) {
            let k = choose|k: int| 0 <= k < w && #[trigger] cross(bit_of(sa, k), bit_of(sb, k)).contains(e);
        }
        if chain_edges(sa, m3).contains(e) {
            let k = choose|k: int| 0 <= k && k + 1 < m3 && #[trigger] cross(bit_of(sa, k), bit_of(sa, k + 1)).contains(e);
        }
        if chain_edges(sb, m3).contains(e) {
            let k = choose|k: int| 0 <= k && k + 1 < m3 && #[trigger] cross(bit_of(sb, k), bit_of(sb, k + 1)).contains(e);
        }
        if chain_edges(sa, m2).contains(e) {
            let k = choose|k: int| 0 <= k && k + 1 < m2 && #[trigger] cross(bit_of(sa, k), bit_of(sa, k + 1)).contains(e);
        }
    }
    assert forall|i: int, b: BitRef| 0 <= i < eff.2.len() && #[trigger] eff.2[i].contains(b) implies n.contains(b) by {
        if op_class(op) == OpClass::Arithmetic {
            let j = choose|j: int| 0 <= j <= i && (#[trigger] bit_of(sa, j).contains(b) || bit_of(sb, j).contains(b));
        }
    }
}

/// The state of a walk is closed: supports and selectors are declared bits, and edges join
/// declared bits.
proof fn lemma_walk_closed(widths: Map<Nid, nat>, lines: Seq<Line>)
    ensures
        graph_closed(walk(widths, lines).0),
        forall|k: Nid| #[trigger] walk(widths, lines).1.contains_key(k) ==> bits_within(
            walk(widths, lines).1[k],
            walk(widths, lines).0.1,
        ),
    decreases lines.len(),
{
    if lines.len() > 0 {
        lemma_walk_closed(widths, lines.drop_last());
        let st = walk(widths, lines.drop_last());
        let line = lines.last();
        let nxt = walk(widths, lines);
        assert(nxt == line_step(widths, st, line));
        match line.node {
            Node::State { sort, .. } => {
                let w = width_of_sort(widths, sort);
                assert forall|k: Nid| #[trigger] nxt.1.contains_key(k) implies bits_within(nxt.1[k], nxt.0.1) by {
                    if k != line.nid {
                        assert(bits_within(st.1[k], st.0.1));
                    }
                }
            },
            Node::Input { sort, .. } => {
                let w = width_of_sort(widths, sort);
                assert forall|k: Nid| #[trigger] nxt.1.contains_key(k) implies bits_within(nxt.1[k], nxt.0.1) by {
                    if k != line.nid {
                        assert(bits_within(st.1[k], st.0.1));
                    }
                }
            },
            Node::Const { .. } => {
                assert forall|k: Nid| #[trigger] nxt.1.contains_key(k) implies bits_within(nxt.1[k], nxt.0.1) by {
                    if k != line.nid {
                        assert(bits_within(st.1[k], st.0.1));
                    }
                }
            },
            Node::Op { op, sort, args } => {
                let w = width_of_sort(widths, sort);
                let a = arg_nid(args@, 0);
                let b = arg_nid(args@, 1);
                let c = arg_nid(args@, 2);
                assert(bits_within(lookup(st.1, a), st.0.1));
                assert(bits_within(lookup(st.1, b), st.0.1));
                assert(bits_within(lookup(st.1, c), st.0.1));
                lemma_effect_within(
                    op,
                    w,
                    lookup(st.1, a),
                    lookup(st.1, b),
                    lookup(st.1, c),
                    is_pow2_operand(st.2, a),
                    is_pow2_operand(st.2, b),
                    slice_lower(args@),
                    st.0.1,
                );
                assert forall|k: Nid| #[trigger] nxt.1.contains_key(k) implies bits_within(nxt.1[k], nxt.0.1) by {
                    if k != line.nid {
                        assert(bits_within(st.1[k], st.0.1));
                    }
                }
            },
            _ => {},
        }
    }
}

/// Every edge joins two bits the design declares, and every selector is a declared bit: the
/// graph never mentions a bit of a constant or of an intermediate node.
pub proof fn lemma_edges_join_declared_bits(file: Btor2File)
    ensures
        graph_closed(graph_of(file)),
{
    lemma_walk_closed(sort_widths_spec(file.lines@), file.lines@);
}


/// Every edge of `es` is stored smaller endpoint first.
pub open spec fn edges_ordered(es: Set<Edge>) -> bool {
    forall|e: Edge| #[trigger] es.contains(e) ==> bit_lt(e.0, e.1)
}

/// Applying one operator to a graph only adds: every edge and selector stays, the declared
/// bits are unchanged, and a graph whose edges are stored smaller endpoint first stays so.
pub proof fn lemma_operator_step_only_adds(
    g: GraphView,
    op: Op,
    w: nat,
    sa: Seq<Set<BitRef>>,
    sb: Seq<Set<BitRef>>,
    sc: Seq<Set<BitRef>>,
    a_pow2: bool,
    b_pow2: bool,
    lower: int,
)
    ensures
        ({
            let eff = op_effect(op, w, sa, sb, sc, a_pow2, b_pow2, lower);
            let h = (g.0.union(eff.0), g.1, g.2.union(eff.1));
            &&& g.0.subset_of(h.0)
            &&& g.2.subset_of(h.2)
            &&& h.1 == g.1
            &&& edges_ordered(g.0) ==> edges_ordered(h.0)
        }),
{
    lemma_effect_edges_ordered(op, w, sa, sb, sc, a_pow2, b_pow2, lower);
}

/// The width of the bits a line declares: a state's or an input's sort width; `None` for
/// every other line.
pub open spec fn leaf_width(widths: Map<Nid, nat>, line: Line) -> Option<nat> {
    match line.node {
        Node::State { sort, .. } => Some(width_of_sort(widths, sort)),
        Node::Input { sort, .. } => Some(width_of_sort(widths, sort)),
        _ => None,
    }
}

/// Whether `line` declares bit `b`.
pub open spec fn declares(widths: Map<Nid, nat>, line: Line, b: BitRef) -> bool {
    match leaf_width(widths, line) {
        Some(w) => b.0 == line.nid && (b.1 as int) < w,
        None => false,
    }
}

/// The bits the lines declare: bit `i` of every state or input line, for each `i` below its
/// sort's width.
pub open spec fn declared_bits(widths: Map<Nid, nat>, lines: Seq<Line>) -> Set<BitRef> {
    Set::new(|b: BitRef| exists|j: int| 0 <= j < lines.len() && #[trigger] declares(widths, lines[j], b))
}

proof fn lemma_walk_nodes(widths: Map<Nid, nat>, lines: Seq<Line>)
    ensures
        walk(widths, lines).0.1 == declared_bits(widths, lines),
    decreases lines.len(),
{
    if lines.len() == 0 {
        assert(declared_bits(widths, lines) =~= Set::<BitRef>::empty());
    } else {
        let init = lines.drop_last();
        lemma_walk_nodes(widths, init);
        let n = lines.len() - 1;
        let line = lines.last();
        let before = walk(widths, init).0.1;
        let after = walk(widths, lines).0.1;
        assert forall|b: BitRef| after.contains(b) implies #[trigger] declared_bits(
            widths,
            lines,
        ).contains(b) by {
            if before.contains(b) {
                let j = choose|j: int| 0 <= j < init.len() && #[trigger] declares(widths, init[j], b);
                assert(lines[j] == init[j]);
                assert(declares(widths, lines[j], b));
            } else {
                assert(lines[n] == line);
                assert(declares(widths, lines[n], b));
            }
        }
        assert forall|b: BitRef| #[trigger] declared_bits(widths, lines).contains(b) implies after.contains(b) by {
            let j = choose|j: int| 0 <= j < lines.len() && #[trigger] declares(widths, lines[j], b);
            if j < n {
                assert(init[j] == lines[j]);
                assert(declared_bits(widths, init).contains(b));
            } else {
                assert(lines[j] == line);
            }
        }
        assert(after =~= declared_bits(widths, lines));
    }
}

/// The graph's bits are exactly those the design declares: bit `i` of every state and input
/// line, for each `i` below its sort's width, whether or not it has an edge.
pub proof fn lemma_nodes_are_declared_bits(file: Btor2File)
    ensures
        graph_of(file).1 == declared_bits(sort_widths_spec(file.lines@), file.lines@),
{
    lemma_walk_nodes(sort_widths_spec(file.lines@), file.lines@);
}

// ---- what the graph says about an order ------------------------------------------------------

/// An edge that leaves its own cell.
pub open spec fn is_cross_cell(e: Edge) -> bool {
    e.0.0 != e.1.0
}

/// A cross-cell edge joining bits at the same index (`a_i — b_i`).
pub open spec fn is_aligned_cross(e: Edge) -> bool {
    e.0.0 != e.1.0 && e.0.1 == e.1.1
}

/// A cross-cell edge with a selector endpoint.
pub open spec fn is_selector_cross(sel: Set<BitRef>, e: Edge) -> bool {
    e.0.0 != e.1.0 && (sel.contains(e.0) || sel.contains(e.1))
}

/// The integer readings of a design's graph: how many bits and edges it has, how many edges
/// leave their cell, how many of those are aligned, and how many touch a selector.
#[derive(Debug, Clone, Copy, PartialEq, Eq, Structural)]
pub struct EdgeCensus {
    pub bits: usize,
    pub edges: usize,
    pub cross_cell: usize,
    pub aligned: usize,
    pub selector: usize,
}

pub open spec fn census_of(g: GraphView) -> EdgeCensus {
    EdgeCensus {
        bits: g.1.len() as usize,
        edges: g.0.len() as usize,
        cross_cell: g.0.filter(|e: Edge| is_cross_cell(e)).len() as usize,
        aligned: g.0.filter(|e: Edge| is_aligned_cross(e)).len() as usize,
        selector: g.0.filter(|e: Edge| is_selector_cross(g.2, e)).len() as usize,
    }
}

impl BitGraph {
    /// Count the graph's bits and edges, and its cross-cell, aligned and selector edges.
    pub fn census(&self) -> (c: EdgeCensus)
        ensures
            c == census_of(self@),
    {
        let v = edges_to_vec(&self.edges);
        let ghost sel = self.selectors@;
        let mut cross: BTreeSet<Edge> = BTreeSet::new();
        let mut aligned: BTreeSet<Edge> = BTreeSet::new();
        let mut selector: BTreeSet<Edge> = BTreeSet::new();
        let mut i: usize = 0;
        assert(v@.take(0).to_set() =~= Set::<Edge>::empty());
        while i < v.len()
            invariant
                i <= v@.len(),
                v@.to_set() == self.edges@,
                sel == self.selectors@,
                cross@ == v@.take(i as int).to_set().filter(|e: Edge| is_cross_cell(e)),
                aligned@ == v@.take(i as int).to_set().filter(|e: Edge| is_aligned_cross(e)),
                selector@ == v@.take(i as int).to_set().filter(|e: Edge| is_selector_cross(sel, e)),
            decreases v@.len() - i,
        {
            let e = v[i];
            if e.0.0 != e.1.0 {
                cross.insert(e);
                if e.0.1 == e.1.1 {
                    aligned.insert(e);
                }
                if self.selectors.contains(&e.0) || self.selectors.contains(&e.1) {
                    selector.insert(e);
                }
            }
            proof {
                lemma_take_to_set_step(v@, i as int);
            }
            i = i + 1;
            assert(cross@ =~= v@.take(i as int).to_set().filter(|e: Edge| is_cross_cell(e)));
            assert(aligned@ =~= v@.take(i as int).to_set().filter(|e: Edge| is_aligned_cross(e)));
            assert(selector@ =~= v@.take(i as int).to_set().filter(|e: Edge| is_selector_cross(sel, e)));
        }
        proof {
            lemma_take_all_to_set(v@);
        }
        EdgeCensus {
            bits: self.nodes.len(),
            edges: self.edges.len(),
            cross_cell: cross.len(),
            aligned: aligned.len(),
            selector: selector.len(),
        }
    }
}

/// Summarise `file`'s graph into the integer readings of an order verdict.
pub fn order_census(file: &Btor2File) -> (c: EdgeCensus)
    ensures
        c == census_of(graph_of(*file)),
{
    let g = build(file);
    g.census()
}


/// An operator whose operands depend on no leaf bit (constants, or nodes built only from
/// constants) adds no edges and no selectors, and its result depends on no leaf bit either:
/// this is why `x * 32` or a shift by a constant costs nothing while `x * y` does.
pub proof fn lemma_constant_operands_couple_nothing(
    op: Op,
    w: nat,
    sa: Seq<Set<BitRef>>,
    sb: Seq<Set<BitRef>>,
    sc: Seq<Set<BitRef>>,
    a_pow2: bool,
    b_pow2: bool,
    lower: int,
)
    requires
        bits_within(sa, Set::empty()),
        bits_within(sb, Set::empty()),
        bits_within(sc, Set::empty()),
    ensures
        op_effect(op, w, sa, sb, sc, a_pow2, b_pow2, lower).0 == Set::<Edge>::empty(),
        op_effect(op, w, sa, sb, sc, a_pow2, b_pow2, lower).1 == Set::<BitRef>::empty(),
        bits_within(op_effect(op, w, sa, sb, sc, a_pow2, b_pow2, lower).2, Set::empty()),
{
    lemma_effect_within(op, w, sa, sb, sc, a_pow2, b_pow2, lower, Set::empty());
    let eff = op_effect(op, w, sa, sb, sc, a_pow2, b_pow2, lower);
    assert(eff.0 =~= Set::<Edge>::empty());
    assert(eff.1 =~= Set::<BitRef>::empty());
}

} // verus!
