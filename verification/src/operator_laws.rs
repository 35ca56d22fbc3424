//! What each BTOR2 operator contributes to the bit-level interaction graph, stated bit by bit:
//! which pairs of bits it must join, which it may join, which bits it marks as selectors, and
//! what each bit of its result depends on.
//!
//! `BitGraph::eval` adds exactly `op_effect`'s edges and selectors; the laws here say, operator
//! family by operator family, what those are in terms of the operands' per-bit supports.

use vstd::prelude::*;
use crate::bit_interaction::{
    aligned_edges, all_bits, bit_lt, bit_of, chain_edges, cross, ite_edges, max_nat, op_effect, BitRef,
    Edge,
};
use crate::btor2::Op;

verus! {

/// `x` and `y` are joined by an edge of `es`, whichever of them is stored first.
pub open spec fn joins(es: Set<Edge>, x: BitRef, y: BitRef) -> bool {
    es.contains((x, y)) || es.contains((y, x))
}

/// Bit `x` is somewhere in the per-bit support `s`.
pub open spec fn occurs(s: Seq<Set<BitRef>>, x: BitRef) -> bool {
    exists|j: int| 0 <= j < s.len() && #[trigger] s[j].contains(x)
}

/// Two distinct bits, one from each side, are joined by the cross edges of the two sides.
proof fn lemma_cross_joins(xs: Set<BitRef>, ys: Set<BitRef>, x: BitRef, y: BitRef)
    requires
        xs.contains(x),
        ys.contains(y),
        x != y,
    ensures
        joins(cross(xs, ys), x, y),
        cross(xs, ys).contains(if bit_lt(x, y) { (x, y) } else { (y, x) }),
{
}

/// The comparisons (`sgt`, `ugt`, `sgte`, `ugte`, `slt`, `ult`, `slte`, `ulte`) join bit `i`
/// of each operand to bit `i` of the other and bit `i` of the first operand to its bit `i + 1`
/// (the borrow chain), for every position below the wider operand's width; they join nothing
/// else and select nothing, and every bit of the one-bit result depends on every operand bit.
pub proof fn lemma_comparison_edges(
    op: Op,
    w: nat,
    sa: Seq<Set<BitRef>>,
    sb: Seq<Set<BitRef>>,
    sc: Seq<Set<BitRef>>,
    a_pow2: bool,
    b_pow2: bool,
    lower: int,
)
    requires
        op is Sgt || op is Ugt || op is Sgte || op is Ugte || op is Slt || op is Ult || op is Slte
            || op is Ulte,
    ensures
        ({
            let eff = op_effect(op, w, sa, sb, sc, a_pow2, b_pow2, lower);
            let n = if sa.len() >= sb.len() { sa.len() as int } else { sb.len() as int };
            &&& forall|i: int, x: BitRef, y: BitRef|
                0 <= i < n && #[trigger] bit_of(sa, i).contains(x) && #[trigger] bit_of(
                    sb,
                    i,
                ).contains(y) && x != y ==> joins(eff.0, x, y)
            &&& forall|i: int, x: BitRef, y: BitRef|
                0 <= i && i + 1 < n && #[trigger] bit_of(sa, i).contains(x) && #[trigger] bit_of(
                    sa,
                    i + 1,
                ).contains(y) && x != y ==> joins(eff.0, x, y)
            &&& forall|e: Edge|
                #[trigger] eff.0.contains(e) ==> exists|i: int|
                    0 <= i < n && ((#[trigger] bit_of(sa, i).contains(e.0) && bit_of(sb, i).contains(e.1))
                        || (bit_of(sa, i).contains(e.1) && bit_of(sb, i).contains(e.0))
                        || (i + 1 < n && bit_of(sa, i).contains(e.0) && bit_of(sa, i + 1).contains(e.1))
                        || (i + 1 < n && bit_of(sa, i).contains(e.1) && bit_of(sa, i + 1).contains(e.0)))
            &&& eff.1 == Set::<BitRef>::empty()
            &&& eff.2.len() == if w >= 1 { w } else { 1 }
            &&& forall|i: int, x: BitRef|
                0 <= i < eff.2.len() ==> (#[trigger] eff.2[i].contains(x) <==> occurs(sa, x) || occurs(sb, x))
        }),
{
    let eff = op_effect(op, w, sa, sb, sc, a_pow2, b_pow2, lower);
    let n = if sa.len() >= sb.len() { sa.len() as int } else { sb.len() as int };
    assert forall|i: int, x: BitRef, y: BitRef|
        0 <= i < n && #[trigger] bit_of(sa, i).contains(x) && #[trigger] bit_of(sb, i).contains(y)
            && x != y implies joins(eff.0, x, y) by {
        lemma_cross_joins(bit_of(sa, i), bit_of(sb, i), x, y);
    }
    assert forall|i: int, x: BitRef, y: BitRef|
        0 <= i && i + 1 < n && #[trigger] bit_of(sa, i).contains(x) && #[trigger] bit_of(
            sa,
            i + 1,
        ).contains(y) && x != y implies joins(eff.0, x, y) by {
        lemma_cross_joins(bit_of(sa, i), bit_of(sa, i + 1), x, y);
    }
    assert forall|e: Edge| #[trigger] eff.0.contains(e) implies exists|i: int|
        0 <= i < n && ((#[trigger] bit_of(sa, i).contains(e.0) && bit_of(sb, i).contains(e.1))
            || (bit_of(sa, i).contains(e.1) && bit_of(sb, i).contains(e.0))
            || (i + 1 < n && bit_of(sa, i).contains(e.0) && bit_of(sa, i + 1).contains(e.1))
            || (i + 1 < n && bit_of(sa, i).contains(e.1) && bit_of(sa, i + 1).contains(e.0))) by {
        if exists|i: int| 0 <= i < n && #[trigger] cross(bit_of(sa, i), bit_of(sb, i)).contains(e) {
            let i = choose|i: int| 0 <= i < n && #[trigger] cross(bit_of(sa, i), bit_of(sb, i)).contains(e);
            assert(bit_of(sa, i).contains(e.0) || bit_of(sa, i).contains(e.1));
        } else {
            let i = choose|i: int|
                0 <= i && i + 1 < n && #[trigger] cross(bit_of(sa, i), bit_of(sa, i + 1)).contains(e);
            assert(bit_of(sa, i).contains(e.0) || bit_of(sa, i).contains(e.1));
        }
    }
    assert forall|i: int, x: BitRef| 0 <= i < eff.2.len() implies (#[trigger] eff.2[i].contains(x)
        <==> occurs(sa, x) || occurs(sb, x)) by {
        if occurs(sa, x) {
            let j = choose|j: int| 0 <= j < sa.len() && #[trigger] sa[j].contains(x);
        }
        if occurs(sb, x) {
            let j = choose|j: int| 0 <= j < sb.len() && #[trigger] sb[j].contains(x);
        }
    }
}

/// The bit-wise operators (`and`, `or`, `xor`, `nand`, `nor`, `xnor`, `iff`, `implies`) join
/// bit `i` of each operand to bit `i` of the other for every result bit `i`, and nothing else;
/// they select nothing, and bit `i` of the result depends on bit `i` of each operand alone.
pub proof fn lemma_bitwise_edges(
    op: Op,
    w: nat,
    sa: Seq<Set<BitRef>>,
    sb: Seq<Set<BitRef>>,
    sc: Seq<Set<BitRef>>,
    a_pow2: bool,
    b_pow2: bool,
    lower: int,
)
    requires
        op is And || op is Or || op is Xor || op is Nand || op is Nor || op is Xnor || op is Iff
            || op is Implies,
    ensures
        ({
            let eff = op_effect(op, w, sa, sb, sc, a_pow2, b_pow2, lower);
            &&& forall|i: int, x: BitRef, y: BitRef|
                0 <= i < w && #[trigger] bit_of(sa, i).contains(x) && #[trigger] bit_of(
                    sb,
                    i,
                ).contains(y) && x != y ==> joins(eff.0, x, y)
            &&& forall|e: Edge|
                #[trigger] eff.0.contains(e) ==> exists|i: int|
                    0 <= i < w && ((#[trigger] bit_of(sa, i).contains(e.0) && bit_of(sb, i).contains(e.1))
                        || (bit_of(sa, i).contains(e.1) && bit_of(sb, i).contains(e.0)))
            &&& eff.1 == Set::<BitRef>::empty()
            &&& eff.2.len() == w
            &&& forall|i: int, x: BitRef|
                0 <= i < w ==> (#[trigger] eff.2[i].contains(x) <==> bit_of(sa, i).contains(x)
                    || bit_of(sb, i).contains(x))
        }),
{
    let eff = op_effect(op, w, sa, sb, sc, a_pow2, b_pow2, lower);
    assert forall|i: int, x: BitRef, y: BitRef|
        0 <= i < w && #[trigger] bit_of(sa, i).contains(x) && #[trigger] bit_of(sb, i).contains(y)
            && x != y implies joins(eff.0, x, y) by {
        lemma_cross_joins(bit_of(sa, i), bit_of(sb, i), x, y);
    }
    assert forall|e: Edge| #[trigger] eff.0.contains(e) implies exists|i: int|
        0 <= i < w && ((#[trigger] bit_of(sa, i).contains(e.0) && bit_of(sb, i).contains(e.1))
            || (bit_of(sa, i).contains(e.1) && bit_of(sb, i).contains(e.0))) by {
        let i = choose|i: int| 0 <= i < w && #[trigger] cross(bit_of(sa, i), bit_of(sb, i)).contains(e);
        assert(bit_of(sa, i).contains(e.0) || bit_of(sa, i).contains(e.1));
    }
}

/// `eq` and `neq` join bit `i` of each operand to bit `i` of the other for every position below
/// the wider operand's width, and nothing else; they select nothing, and every bit of the
/// one-bit result depends on every operand bit.
pub proof fn lemma_equality_edges(
    op: Op,
    w: nat,
    sa: Seq<Set<BitRef>>,
    sb: Seq<Set<BitRef>>,
    sc: Seq<Set<BitRef>>,
    a_pow2: bool,
    b_pow2: bool,
    lower: int,
)
    requires
        op is Eq || op is Neq,
    ensures
        ({
            let eff = op_effect(op, w, sa, sb, sc, a_pow2, b_pow2, lower);
            let n = if sa.len() >= sb.len() { sa.len() as int } else { sb.len() as int };
            &&& forall|i: int, x: BitRef, y: BitRef|
                0 <= i < n && #[trigger] bit_of(sa, i).contains(x) && #[trigger] bit_of(
                    sb,
                    i,
                ).contains(y) && x != y ==> joins(eff.0, x, y)
            &&& forall|e: Edge|
                #[trigger] eff.0.contains(e) ==> exists|i: int|
                    0 <= i < n && ((#[trigger] bit_of(sa, i).contains(e.0) && bit_of(sb, i).contains(e.1))
                        || (bit_of(sa, i).contains(e.1) && bit_of(sb, i).contains(e.0)))
            &&& eff.1 == Set::<BitRef>::empty()
            &&& eff.2.len() == if w >= 1 { w } else { 1 }
            &&& forall|i: int, x: BitRef|
                0 <= i < eff.2.len() ==> (#[trigger] eff.2[i].contains(x) <==> occurs(sa, x) || occurs(sb, x))
        }),
{
    let eff = op_effect(op, w, sa, sb, sc, a_pow2, b_pow2, lower);
    let n = if sa.len() >= sb.len() { sa.len() as int } else { sb.len() as int };
    assert forall|i: int, x: BitRef, y: BitRef|
        0 <= i < n && #[trigger] bit_of(sa, i).contains(x) && #[trigger] bit_of(sb, i).contains(y)
            && x != y implies joins(eff.0, x, y) by {
        lemma_cross_joins(bit_of(sa, i), bit_of(sb, i), x, y);
    }
    assert forall|e: Edge| #[trigger] eff.0.contains(e) implies exists|i: int|
        0 <= i < n && ((#[trigger] bit_of(sa, i).contains(e.0) && bit_of(sb, i).contains(e.1))
            || (bit_of(sa, i).contains(e.1) && bit_of(sb, i).contains(e.0))) by {
        let i = choose|i: int| 0 <= i < n && #[trigger] cross(bit_of(sa, i), bit_of(sb, i)).contains(e);
        assert(bit_of(sa, i).contains(e.0) || bit_of(sa, i).contains(e.1));
    }
    assert forall|i: int, x: BitRef| 0 <= i < eff.2.len() implies (#[trigger] eff.2[i].contains(x)
        <==> occurs(sa, x) || occurs(sb, x)) by {
        if occurs(sa, x) {
            let j = choose|j: int| 0 <= j < sa.len() && #[trigger] sa[j].contains(x);
        }
        if occurs(sb, x) {
            let j = choose|j: int| 0 <= j < sb.len() && #[trigger] sb[j].contains(x);
        }
    }
}

/// `add`, `sub`, `inc` and `dec` join bit `i` of each operand to bit `i` of the other, and bit
/// `i` of each operand to its own bit `i + 1` (the carry chains), over every position below the
/// widest of the operands and the result, and nothing else; they select nothing, and bit `i` of
/// the result depends on every operand bit at or below `i`.
pub proof fn lemma_arithmetic_edges(
    op: Op,
    w: nat,
    sa: Seq<Set<BitRef>>,
    sb: Seq<Set<BitRef>>,
    sc: Seq<Set<BitRef>>,
    a_pow2: bool,
    b_pow2: bool,
    lower: int,
)
    requires
        op is Add || op is Sub || op is Inc || op is Dec,
    ensures
        ({
            let eff = op_effect(op, w, sa, sb, sc, a_pow2, b_pow2, lower);
            let m = if sa.len() >= sb.len() { sa.len() as int } else { sb.len() as int };
            let n = if m >= w { m } else { w as int };
            &&& forall|i: int, x: BitRef, y: BitRef|
                0 <= i < n && #[trigger] bit_of(sa, i).contains(x) && #[trigger] bit_of(
                    sb,
                    i,
                ).contains(y) && x != y ==> joins(eff.0, x, y)
            &&& forall|i: int, x: BitRef, y: BitRef|
                0 <= i && i + 1 < n && #[trigger] bit_of(sa, i).contains(x) && #[trigger] bit_of(
                    sa,
                    i + 1,
                ).contains(y) && x != y ==> joins(eff.0, x, y)
            &&& forall|i: int, x: BitRef, y: BitRef|
                0 <= i && i + 1 < n && #[trigger] bit_of(sb, i).contains(x) && #[trigger] bit_of(
                    sb,
                    i + 1,
                ).contains(y) && x != y ==> joins(eff.0, x, y)
            &&& forall|e: Edge|
                #[trigger] eff.0.contains(e) ==> exists|i: int|
                    #![trigger bit_of(sa, i)]
                    #![trigger bit_of(sb, i)]
                    0 <= i < n && ((bit_of(sa, i).contains(e.0) && bit_of(sb, i).contains(e.1))
                        || (bit_of(sa, i).contains(e.1) && bit_of(sb, i).contains(e.0))
                        || (i + 1 < n && bit_of(sa, i).contains(e.0) && bit_of(sa, i + 1).contains(e.1))
                        || (i + 1 < n && bit_of(sa, i).contains(e.1) && bit_of(sa, i + 1).contains(e.0))
                        || (i + 1 < n && bit_of(sb, i).contains(e.0) && bit_of(sb, i + 1).contains(e.1))
                        || (i + 1 < n && bit_of(sb, i).contains(e.1) && bit_of(sb, i + 1).contains(e.0)))
            &&& eff.1 == Set::<BitRef>::empty()
            &&& eff.2.len() == w
            &&& forall|i: int, x: BitRef|
                0 <= i < w ==> (#[trigger] eff.2[i].contains(x) <==> exists|j: int|
                    0 <= j <= i && (#[trigger] bit_of(sa, j).contains(x) || bit_of(sb, j).contains(x)))
        }),
{
    let eff = op_effect(op, w, sa, sb, sc, a_pow2, b_pow2, lower);
    let m = if sa.len() >= sb.len() { sa.len() as int } else { sb.len() as int };
    let n = if m >= w { m } else { w as int };
    assert(n == max_nat(max_nat(sa.len(), sb.len()), w) as int);
    assert(eff.0 == aligned_edges(sa, sb, n).union(chain_edges(sa, n)).union(chain_edges(sb, n)));
    assert forall|i: int, x: BitRef, y: BitRef|
        0 <= i < n && #[trigger] bit_of(sa, i).contains(x) && #[trigger] bit_of(sb, i).contains(y)
            && x != y implies joins(eff.0, x, y) by {
        lemma_cross_joins(bit_of(sa, i), bit_of(sb, i), x, y);
    }
    assert forall|i: int, x: BitRef, y: BitRef|
        0 <= i && i + 1 < n && #[trigger] bit_of(sa, i).contains(x) && #[trigger] bit_of(
            sa,
            i + 1,
        ).contains(y) && x != y implies joins(eff.0, x, y) by {
        lemma_cross_joins(bit_of(sa, i), bit_of(sa, i + 1), x, y);
    }
    assert forall|i: int, x: BitRef, y: BitRef|
        0 <= i && i + 1 < n && #[trigger] bit_of(sb, i).contains(x) && #[trigger] bit_of(
            sb,
            i + 1,
        ).contains(y) && x != y implies joins(eff.0, x, y) by {
        lemma_cross_joins(bit_of(sb, i), bit_of(sb, i + 1), x, y);
    }
    assert forall|e: Edge| #[trigger] eff.0.contains(e) implies exists|i: int|
        #![trigger bit_of(sa, i)]
        #![trigger bit_of(sb, i)]
        0 <= i < n && ((bit_of(sa, i).contains(e.0) && bit_of(sb, i).contains(e.1))
            || (bit_of(sa, i).contains(e.1) && bit_of(sb, i).contains(e.0))
            || (i + 1 < n && bit_of(sa, i).contains(e.0) && bit_of(sa, i + 1).contains(e.1))
            || (i + 1 < n && bit_of(sa, i).contains(e.1) && bit_of(sa, i + 1).contains(e.0))
            || (i + 1 < n && bit_of(sb, i).contains(e.0) && bit_of(sb, i + 1).contains(e.1))
            || (i + 1 < n && bit_of(sb, i).contains(e.1) && bit_of(sb, i + 1).contains(e.0))) by {
        if exists|i: int| 0 <= i < n && #[trigger] cross(bit_of(sa, i), bit_of(sb, i)).contains(e) {
            let i = choose|i: int| 0 <= i < n && #[trigger] cross(bit_of(sa, i), bit_of(sb, i)).contains(e);
            assert(bit_of(sa, i).contains(e.0) || bit_of(sa, i).contains(e.1));
        } else if exists|i: int| 0 <= i && i + 1 < n && #[trigger] cross(bit_of(sa, i), bit_of(sa, i + 1)).contains(e) {
            let i = choose|i: int|
                0 <= i && i + 1 < n && #[trigger] cross(bit_of(sa, i), bit_of(sa, i + 1)).contains(e);
            assert(bit_of(sa, i).contains(e.0) || bit_of(sa, i).contains(e.1));
        } else {
            let i = choose|i: int|
                0 <= i && i + 1 < n && #[trigger] cross(bit_of(sb, i), bit_of(sb, i + 1)).contains(e);
            assert(bit_of(sb, i).contains(e.0) || bit_of(sb, i).contains(e.1));
            assert(bit_of(sa, i).contains(e.0) || !bit_of(sa, i).contains(e.0));
        }
    }
    assert(eff.2.len() == w);
    assert forall|i: int, x: BitRef| 0 <= i < w && #[trigger] eff.2[i].contains(x) implies exists|j: int|
        0 <= j <= i && (#[trigger] bit_of(sa, j).contains(x) || bit_of(sb, j).contains(x)) by {
        assert(eff.2[i] == crate::bit_interaction::prefix_union(sa, sb, i));
        assert(crate::bit_interaction::prefix_union(sa, sb, i).contains(x));
        let j = choose|j: int|
            0 <= j <= i && (#[trigger] bit_of(sa, j).contains(x) || bit_of(sb, j).contains(x));
        assert(0 <= j <= i);
        assert(bit_of(sa, j).contains(x) || bit_of(sb, j).contains(x));
    }
    assert forall|i: int, x: BitRef| 0 <= i < w && (exists|j: int|
        0 <= j <= i && (#[trigger] bit_of(sa, j).contains(x) || bit_of(sb, j).contains(x))) implies #[trigger] eff.2[i].contains(x) by {
        assert(eff.2[i] == crate::bit_interaction::prefix_union(sa, sb, i));
    }
}

/// No bit of either operand's support lies strictly between `x` and `y` in the edge order.
pub open spec fn none_between(sa: Seq<Set<BitRef>>, sb: Seq<Set<BitRef>>, x: BitRef, y: BitRef) -> bool {
    forall|z: BitRef|
        #![trigger occurs(sa, z)]
        #![trigger occurs(sb, z)]
        (occurs(sa, z) || occurs(sb, z)) ==> !(bit_lt(x, z) && bit_lt(z, y))
}

proof fn lemma_ite_member(
    cond: Set<BitRef>,
    sb: Seq<Set<BitRef>>,
    sc: Seq<Set<BitRef>>,
    w: nat,
    i: int,
    e: Edge,
)
    requires
        0 <= i < w,
        cross(cond, bit_of(sb, i)).contains(e) || cross(cond, bit_of(sc, i)).contains(e) || cross(
            bit_of(sb, i),
            bit_of(sc, i),
        ).contains(e),
    ensures
        ite_edges(cond, sb, sc, w as int).contains(e),
{
}

proof fn lemma_all_bits_occurs(s: Seq<Set<BitRef>>)
    ensures
        forall|x: BitRef| #[trigger] all_bits(s).contains(x) <==> occurs(s, x),
{
    assert forall|x: BitRef| #[trigger] all_bits(s).contains(x) <==> occurs(s, x) by {
        if all_bits(s).contains(x) {
            let j = choose|j: int| 0 <= j < s.len() && #[trigger] s[j].contains(x);
        }
        if occurs(s, x) {
            let j = choose|j: int| 0 <= j < s.len() && #[trigger] s[j].contains(x);
        }
    }
}

/// The shifts and rotations (`sll`, `srl`, `sra`, `rol`, `ror`). With a constant amount (no
/// bit in the amount's support) they are wiring: no edge, no selector, and bit `i` of the
/// result is bit `i` of the data. With a symbolic amount they are a barrel shifter: every data
/// bit meets every amount bit and nothing else, the amount bits are exactly the selectors, and
/// every result bit depends on every operand bit.
pub proof fn lemma_shift_edges(
    op: Op,
    w: nat,
    sa: Seq<Set<BitRef>>,
    sb: Seq<Set<BitRef>>,
    sc: Seq<Set<BitRef>>,
    a_pow2: bool,
    b_pow2: bool,
    lower: int,
)
    requires
        op is Sll || op is Srl || op is Sra || op is Rol || op is Ror,
    ensures
        ({
            let eff = op_effect(op, w, sa, sb, sc, a_pow2, b_pow2, lower);
            &&& eff.2.len() == w
            &&& (forall|y: BitRef| !#[trigger] occurs(sb, y)) ==> {
                &&& eff.0 == Set::<Edge>::empty()
                &&& eff.1 == Set::<BitRef>::empty()
                &&& forall|i: int| 0 <= i < w ==> #[trigger] eff.2[i] == bit_of(sa, i)
            }
            &&& (exists|y: BitRef| #[trigger] occurs(sb, y)) ==> {
                &&& forall|x: BitRef, y: BitRef|
                    #[trigger] occurs(sa, x) && #[trigger] occurs(sb, y) && x != y ==> joins(eff.0, x, y)
                &&& forall|e: Edge|
                    #[trigger] eff.0.contains(e) ==> (occurs(sa, e.0) && occurs(sb, e.1)) || (occurs(
                        sa,
                        e.1,
                    ) && occurs(sb, e.0))
                &&& forall|y: BitRef| #[trigger] eff.1.contains(y) <==> occurs(sb, y)
                &&& forall|i: int, x: BitRef|
                    0 <= i < w ==> (#[trigger] eff.2[i].contains(x) <==> occurs(sa, x) || occurs(sb, x))
            }
        }),
{
    let eff = op_effect(op, w, sa, sb, sc, a_pow2, b_pow2, lower);
    lemma_all_bits_occurs(sa);
    lemma_all_bits_occurs(sb);
    if forall|y: BitRef| !#[trigger] occurs(sb, y) {
        assert(all_bits(sb) =~= Set::<BitRef>::empty());
        assert(eff.0 =~= Set::<Edge>::empty());
        assert(eff.1 =~= Set::<BitRef>::empty());
    } else {
        let y0 = choose|y: BitRef| #[trigger] occurs(sb, y);
        assert(all_bits(sb).contains(y0));
        assert forall|x: BitRef, y: BitRef|
            #[trigger] occurs(sa, x) && #[trigger] occurs(sb, y) && x != y implies joins(eff.0, x, y) by {
            lemma_cross_joins(all_bits(sa), all_bits(sb), x, y);
        }
    }
}

/// The multiplicative operators (`mul`, `sdiv`, `udiv`, `smod`, `srem`, `urem`).
/// - By a constant power of two (the other operand's support is empty) they are a shift:
///   no edge, no selector, and bit `i` of the result is bit `i` of either operand.
/// - By another constant they are a sum of shifted copies: the live operand's bits, in order,
///   each meet the next one, and nothing else is joined.
/// - Symbolic by symbolic they are dense: every bit of the first operand meets every other
///   bit of either operand, and nothing else is joined.
/// Outside the first case they select nothing and every result bit depends on every operand bit.
pub proof fn lemma_multiplicative_edges(
    op: Op,
    w: nat,
    sa: Seq<Set<BitRef>>,
    sb: Seq<Set<BitRef>>,
    sc: Seq<Set<BitRef>>,
    a_pow2: bool,
    b_pow2: bool,
    lower: int,
)
    requires
        op is Mul || op is Sdiv || op is Udiv || op is Smod || op is Srem || op is Urem,
    ensures
        ({
            let eff = op_effect(op, w, sa, sb, sc, a_pow2, b_pow2, lower);
            let a_const = forall|x: BitRef| !#[trigger] occurs(sa, x);
            let b_const = forall|y: BitRef| !#[trigger] occurs(sb, y);
            let free = (b_const && b_pow2) || (a_const && a_pow2);
            &&& eff.2.len() == w
            &&& free ==> {
                &&& eff.0 == Set::<Edge>::empty()
                &&& eff.1 == Set::<BitRef>::empty()
                &&& forall|i: int, x: BitRef|
                    0 <= i < w ==> (#[trigger] eff.2[i].contains(x) <==> bit_of(sa, i).contains(x)
                        || bit_of(sb, i).contains(x))
            }
            &&& !free ==> {
                &&& eff.1 == Set::<BitRef>::empty()
                &&& forall|i: int, x: BitRef|
                    0 <= i < w ==> (#[trigger] eff.2[i].contains(x) <==> occurs(sa, x) || occurs(sb, x))
            }
            &&& (!free && (a_const || b_const)) ==> {
                &&& forall|x: BitRef, y: BitRef|
                    (occurs(sa, x) || occurs(sb, x)) && (occurs(sa, y) || occurs(sb, y)) && bit_lt(x, y)
                        && none_between(sa, sb, x, y) ==> #[trigger] eff.0.contains((x, y))
                &&& forall|e: Edge|
                    #[trigger] eff.0.contains(e) ==> (occurs(sa, e.0) || occurs(sb, e.0)) && (occurs(
                        sa,
                        e.1,
                    ) || occurs(sb, e.1)) && bit_lt(e.0, e.1) && none_between(sa, sb, e.0, e.1)
            }
            &&& (!a_const && !b_const) ==> {
                &&& forall|x: BitRef, y: BitRef|
                    #[trigger] occurs(sa, x) && (occurs(sa, y) || occurs(sb, y)) && x != y ==> #[trigger] joins(
                        eff.0,
                        x,
                        y,
                    )
                &&& forall|e: Edge|
                    #[trigger] eff.0.contains(e) ==> (occurs(sa, e.0) && (occurs(sa, e.1) || occurs(sb, e.1)))
                        || (occurs(sa, e.1) && occurs(sb, e.0))
            }
        }),
{
    let eff = op_effect(op, w, sa, sb, sc, a_pow2, b_pow2, lower);
    lemma_all_bits_occurs(sa);
    lemma_all_bits_occurs(sb);
    let a_const = forall|x: BitRef| !#[trigger] occurs(sa, x);
    let b_const = forall|y: BitRef| !#[trigger] occurs(sb, y);
    if a_const {
        assert(all_bits(sa) =~= Set::<BitRef>::empty());
    } else {
        let x0 = choose|x: BitRef| #[trigger] occurs(sa, x);
        assert(all_bits(sa).contains(x0));
    }
    if b_const {
        assert(all_bits(sb) =~= Set::<BitRef>::empty());
    } else {
        let y0 = choose|y: BitRef| #[trigger] occurs(sb, y);
        assert(all_bits(sb).contains(y0));
    }
    let free = (b_const && b_pow2) || (a_const && a_pow2);
    if !free && (a_const || b_const) {
        let live_set = if all_bits(sa).is_empty() { all_bits(sb) } else { all_bits(sa) };
        assert(eff.0 == crate::bit_interaction::consecutive_edges(live_set));
        assert forall|z: BitRef| #[trigger] live_set.contains(z) <==> (occurs(sa, z) || occurs(sb, z)) by {
            if a_const {
                assert(!occurs(sa, z));
            } else {
                assert(!occurs(sb, z));
            }
        }
        assert forall|x: BitRef, y: BitRef|
            (occurs(sa, x) || occurs(sb, x)) && (occurs(sa, y) || occurs(sb, y)) && bit_lt(x, y)
                && none_between(sa, sb, x, y) implies #[trigger] eff.0.contains((x, y)) by {
            assert(live_set.contains(x) && live_set.contains(y));
            if exists|z: BitRef| #![trigger live_set.contains(z)] live_set.contains(z) && bit_lt(x, z) && bit_lt(z, y) {
                let z = choose|z: BitRef| #![trigger live_set.contains(z)] live_set.contains(z) && bit_lt(x, z) && bit_lt(z, y);
                assert(occurs(sa, z) || occurs(sb, z));
                assert(!(bit_lt(x, z) && bit_lt(z, y)));
            }
            assert(!exists|z: BitRef| #![trigger live_set.contains(z)] live_set.contains(z) && bit_lt(x, z) && bit_lt(z, y));
            assert(crate::bit_interaction::consecutive_edges(live_set).contains((x, y)));
        }
        assert forall|e: Edge| #[trigger] eff.0.contains(e) implies (occurs(sa, e.0) || occurs(sb, e.0))
            && (occurs(sa, e.1) || occurs(sb, e.1)) && bit_lt(e.0, e.1) && none_between(sa, sb, e.0, e.1) by {
            assert(crate::bit_interaction::consecutive_edges(live_set).contains(e));
            assert(live_set.contains(e.0) && live_set.contains(e.1));
            assert(occurs(sa, e.0) || occurs(sb, e.0));
            assert(occurs(sa, e.1) || occurs(sb, e.1));
            assert(bit_lt(e.0, e.1));
            assert forall|z: BitRef| #![trigger occurs(sa, z)] #![trigger occurs(sb, z)] (occurs(sa, z) || occurs(sb, z)) implies !(bit_lt(e.0, z) && bit_lt(z, e.1)) by {
                assert(live_set.contains(z));
            }
            assert(none_between(sa, sb, e.0, e.1));
        }
    }
    if !a_const && !b_const {
        assert forall|x: BitRef, y: BitRef|
            #[trigger] occurs(sa, x) && (occurs(sa, y) || occurs(sb, y)) && x != y implies #[trigger] joins(
                eff.0,
                x,
                y,
            ) by {
            if occurs(sb, y) {
                lemma_cross_joins(all_bits(sa), all_bits(sb), x, y);
            } else {
                lemma_cross_joins(all_bits(sa), all_bits(sa), x, y);
            }
        }
    }
}

/// The reductions (`redand`, `redor`, `redxor`) join every two distinct bits of the operand and
/// nothing else; they select nothing, and every bit of the one-bit result depends on every bit
/// of the operand.
pub proof fn lemma_reduction_edges(
    op: Op,
    w: nat,
    sa: Seq<Set<BitRef>>,
    sb: Seq<Set<BitRef>>,
    sc: Seq<Set<BitRef>>,
    a_pow2: bool,
    b_pow2: bool,
    lower: int,
)
    requires
        op is Redand || op is Redor || op is Redxor,
    ensures
        ({
            let eff = op_effect(op, w, sa, sb, sc, a_pow2, b_pow2, lower);
            &&& forall|x: BitRef, y: BitRef|
                #[trigger] occurs(sa, x) && #[trigger] occurs(sa, y) && x != y ==> joins(eff.0, x, y)
            &&& forall|e: Edge| #[trigger] eff.0.contains(e) ==> occurs(sa, e.0) && occurs(sa, e.1)
            &&& eff.1 == Set::<BitRef>::empty()
            &&& eff.2.len() == if w >= 1 { w } else { 1 }
            &&& forall|i: int, x: BitRef|
                0 <= i < eff.2.len() ==> (#[trigger] eff.2[i].contains(x) <==> occurs(sa, x))
        }),
{
    let eff = op_effect(op, w, sa, sb, sc, a_pow2, b_pow2, lower);
    lemma_all_bits_occurs(sa);
    assert forall|x: BitRef, y: BitRef|
        #[trigger] occurs(sa, x) && #[trigger] occurs(sa, y) && x != y implies joins(eff.0, x, y) by {
        lemma_cross_joins(all_bits(sa), all_bits(sa), x, y);
    }
}

/// The pure re-maps (`not`, `neg`, `uext`, `sext`) join nothing and select nothing; bit `i` of
/// the result depends on bit `i` of the operand (nothing, past its width).
pub proof fn lemma_remap_edges(
    op: Op,
    w: nat,
    sa: Seq<Set<BitRef>>,
    sb: Seq<Set<BitRef>>,
    sc: Seq<Set<BitRef>>,
    a_pow2: bool,
    b_pow2: bool,
    lower: int,
)
    requires
        op is Not || op is Neg || op is Uext || op is Sext,
    ensures
        ({
            let eff = op_effect(op, w, sa, sb, sc, a_pow2, b_pow2, lower);
            &&& eff.0 == Set::<Edge>::empty()
            &&& eff.1 == Set::<BitRef>::empty()
            &&& eff.2.len() == w
            &&& forall|i: int| 0 <= i < w ==> #[trigger] eff.2[i] == bit_of(sa, i)
        }),
{
}

/// `concat` joins nothing and selects nothing: the low bits of the result are the second
/// operand's, bit for bit, and the bits above them the first operand's.
pub proof fn lemma_concat_edges(
    op: Op,
    w: nat,
    sa: Seq<Set<BitRef>>,
    sb: Seq<Set<BitRef>>,
    sc: Seq<Set<BitRef>>,
    a_pow2: bool,
    b_pow2: bool,
    lower: int,
)
    requires
        op is Concat,
    ensures
        ({
            let eff = op_effect(op, w, sa, sb, sc, a_pow2, b_pow2, lower);
            &&& eff.0 == Set::<Edge>::empty()
            &&& eff.1 == Set::<BitRef>::empty()
            &&& eff.2.len() == w
            &&& forall|i: int| 0 <= i < w && i < sb.len() ==> #[trigger] eff.2[i] == sb[i]
            &&& forall|i: int| 0 <= i < w && i >= sb.len() ==> #[trigger] eff.2[i] == bit_of(sa, i - sb.len())
        }),
{
}

/// `slice` joins nothing and selects nothing: bit `i` of the result is bit `lower + i` of the
/// operand.
pub proof fn lemma_slice_edges(
    op: Op,
    w: nat,
    sa: Seq<Set<BitRef>>,
    sb: Seq<Set<BitRef>>,
    sc: Seq<Set<BitRef>>,
    a_pow2: bool,
    b_pow2: bool,
    lower: int,
)
    requires
        op is Slice,
    ensures
        ({
            let eff = op_effect(op, w, sa, sb, sc, a_pow2, b_pow2, lower);
            &&& eff.0 == Set::<Edge>::empty()
            &&& eff.1 == Set::<BitRef>::empty()
            &&& eff.2.len() == w
            &&& forall|i: int| 0 <= i < w ==> #[trigger] eff.2[i] == bit_of(sa, i + lower)
        }),
{
}

/// `ite` with condition support `sa` and branches `sb` (then) and `sc` (else): for every result
/// bit `i`, every condition bit meets bit `i` of both branches, and bit `i` of one branch meets
/// bit `i` of the other; nothing else is joined. The condition bits are exactly the selectors
/// (none for a zero-width result), and bit `i` of the result depends on the condition and on
/// bit `i` of each branch.
pub proof fn lemma_ite_edges(
    op: Op,
    w: nat,
    sa: Seq<Set<BitRef>>,
    sb: Seq<Set<BitRef>>,
    sc: Seq<Set<BitRef>>,
    a_pow2: bool,
    b_pow2: bool,
    lower: int,
)
    requires
        op is Ite,
    ensures
        ({
            let eff = op_effect(op, w, sa, sb, sc, a_pow2, b_pow2, lower);
            &&& forall|i: int, x: BitRef, y: BitRef|
                0 <= i < w && #[trigger] occurs(sa, x) && (#[trigger] bit_of(sb, i).contains(y)
                    || bit_of(sc, i).contains(y)) && x != y ==> joins(eff.0, x, y)
            &&& forall|i: int, x: BitRef, y: BitRef|
                0 <= i < w && #[trigger] bit_of(sb, i).contains(x) && #[trigger] bit_of(sc, i).contains(y)
                    && x != y ==> joins(eff.0, x, y)
            &&& forall|e: Edge|
                #[trigger] eff.0.contains(e) ==> exists|i: int|
                    #![trigger bit_of(sb, i)]
                    0 <= i < w && ((occurs(sa, e.0) && (bit_of(sb, i).contains(e.1) || bit_of(sc, i).contains(e.1)))
                        || (occurs(sa, e.1) && (bit_of(sb, i).contains(e.0) || bit_of(sc, i).contains(e.0)))
                        || (bit_of(sb, i).contains(e.0) && bit_of(sc, i).contains(e.1))
                        || (bit_of(sb, i).contains(e.1) && bit_of(sc, i).contains(e.0)))
            &&& w > 0 ==> forall|y: BitRef| #[trigger] eff.1.contains(y) <==> occurs(sa, y)
            &&& w == 0 ==> eff.1 == Set::<BitRef>::empty()
            &&& eff.2.len() == w
            &&& forall|i: int, x: BitRef|
                0 <= i < w ==> (#[trigger] eff.2[i].contains(x) <==> occurs(sa, x) || bit_of(sb, i).contains(x)
                    || bit_of(sc, i).contains(x))
        }),
{
    let eff = op_effect(op, w, sa, sb, sc, a_pow2, b_pow2, lower);
    lemma_all_bits_occurs(sa);
    let cond = all_bits(sa);
    assert forall|i: int, x: BitRef, y: BitRef|
        0 <= i < w && #[trigger] occurs(sa, x) && (#[trigger] bit_of(sb, i).contains(y)
            || bit_of(sc, i).contains(y)) && x != y implies joins(eff.0, x, y) by {
        let e = if bit_lt(x, y) { (x, y) } else { (y, x) };
        if bit_of(sb, i).contains(y) {
            lemma_cross_joins(cond, bit_of(sb, i), x, y);
        } else {
            lemma_cross_joins(cond, bit_of(sc, i), x, y);
        }
        assert(cross(cond, bit_of(sb, i)).contains(e) || cross(cond, bit_of(sc, i)).contains(e));
        lemma_ite_member(cond, sb, sc, w, i, e);
    }
    assert forall|i: int, x: BitRef, y: BitRef|
        0 <= i < w && #[trigger] bit_of(sb, i).contains(x) && #[trigger] bit_of(sc, i).contains(y)
            && x != y implies joins(eff.0, x, y) by {
        let e = if bit_lt(x, y) { (x, y) } else { (y, x) };
        lemma_cross_joins(bit_of(sb, i), bit_of(sc, i), x, y);
        assert(cross(cond, bit_of(sb, i)).contains(e) || cross(bit_of(sb, i), bit_of(sc, i)).contains(e));
        lemma_ite_member(cond, sb, sc, w, i, e);
    }
    assert forall|e: Edge| #[trigger] eff.0.contains(e) implies exists|i: int|
        #![trigger bit_of(sb, i)]
        0 <= i < w && ((occurs(sa, e.0) && (bit_of(sb, i).contains(e.1) || bit_of(sc, i).contains(e.1)))
            || (occurs(sa, e.1) && (bit_of(sb, i).contains(e.0) || bit_of(sc, i).contains(e.0)))
            || (bit_of(sb, i).contains(e.0) && bit_of(sc, i).contains(e.1))
            || (bit_of(sb, i).contains(e.1) && bit_of(sc, i).contains(e.0))) by {
        let i = choose|i: int|
            0 <= i < w && (#[trigger] cross(cond, bit_of(sb, i)).contains(e) || cross(
                cond,
                bit_of(sc, i),
            ).contains(e) || cross(bit_of(sb, i), bit_of(sc, i)).contains(e));
        assert(cond.contains(e.0) || cond.contains(e.1) || bit_of(sb, i).contains(e.0) || bit_of(sb, i).contains(e.1));
    }
}

/// The overflow predicates (`saddo`, `uaddo`, `sdivo`, `udivo`, `smulo`, `umulo`, `ssubo`,
/// `usubo`) and the array operators (`read`, `write`) are treated as dense: every bit of the
/// first operand meets every other bit of either operand, and nothing else is joined; they
/// select nothing, and every result bit depends on every operand bit.
pub proof fn lemma_dense_edges(
    op: Op,
    w: nat,
    sa: Seq<Set<BitRef>>,
    sb: Seq<Set<BitRef>>,
    sc: Seq<Set<BitRef>>,
    a_pow2: bool,
    b_pow2: bool,
    lower: int,
)
    requires
        op is Saddo || op is Uaddo || op is Sdivo || op is Udivo || op is Smulo || op is Umulo
            || op is Ssubo || op is Usubo || op is Read || op is Write,
    ensures
        ({
            let eff = op_effect(op, w, sa, sb, sc, a_pow2, b_pow2, lower);
            &&& forall|x: BitRef, y: BitRef|
                #[trigger] occurs(sa, x) && (occurs(sa, y) || occurs(sb, y)) && x != y ==> #[trigger] joins(
                    eff.0,
                    x,
                    y,
                )
            &&& forall|e: Edge|
                #[trigger] eff.0.contains(e) ==> (occurs(sa, e.0) && (occurs(sa, e.1) || occurs(sb, e.1)))
                    || (occurs(sa, e.1) && occurs(sb, e.0))
            &&& eff.1 == Set::<BitRef>::empty()
            &&& eff.2.len() == if w >= 1 { w } else { 1 }
            &&& forall|i: int, x: BitRef|
                0 <= i < eff.2.len() ==> (#[trigger] eff.2[i].contains(x) <==> occurs(sa, x) || occurs(sb, x))
        }),
{
    let eff = op_effect(op, w, sa, sb, sc, a_pow2, b_pow2, lower);
    lemma_all_bits_occurs(sa);
    lemma_all_bits_occurs(sb);
    assert forall|x: BitRef, y: BitRef|
        #[trigger] occurs(sa, x) && (occurs(sa, y) || occurs(sb, y)) && x != y implies #[trigger] joins(
            eff.0,
            x,
            y,
        ) by {
        if occurs(sb, y) {
            lemma_cross_joins(all_bits(sa), all_bits(sb), x, y);
        } else {
            lemma_cross_joins(all_bits(sa), all_bits(sa), x, y);
        }
    }
}

} // verus!
