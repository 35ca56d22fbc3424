use std::collections::BTreeSet;
use mununu_core::bit_interaction::{build, order_census, BitGraph, BitRef};
use mununu_core::btor2::{Btor2File, ConstValue, Line, Nid, Node, Op, Operand, Sort};

/// Read the BTOR2 subset these tests use into a design.
fn parse(src: &str) -> Btor2File {
    let mut lines = Vec::new();
    for raw in src.lines() {
        let toks: Vec<&str> = raw.split_whitespace().collect();
        if toks.is_empty() {
            continue;
        }
        let nid: Nid = toks[0].parse().expect("nid");
        let num = |k: usize| -> Nid { toks[k].parse().expect("number") };
        let sym = |k: usize| toks.get(k).map(|s| s.to_string());
        let node = match toks[1] {
            "sort" => match toks[2] {
                "bitvec" => Node::Sort {
                    sort: Sort::BitVec {
                        width: toks[3].parse().expect("width"),
                    },
                },
                _ => Node::Sort {
                    sort: Sort::Array {
                        index: num(3),
                        element: num(4),
                    },
                },
            },
            "state" => Node::State {
                sort: num(2),
                symbol: sym(3),
            },
            "input" => Node::Input {
                sort: num(2),
                symbol: sym(3),
            },
            "zero" => Node::Const {
                sort: num(2),
                value: ConstValue::Zero,
            },
            "one" => Node::Const {
                sort: num(2),
                value: ConstValue::One,
            },
            "ones" => Node::Const {
                sort: num(2),
                value: ConstValue::Ones,
            },
            "constd" => Node::Const {
                sort: num(2),
                value: ConstValue::Dec(toks[3].parse().expect("decimal")),
            },
            "const" => Node::Const {
                sort: num(2),
                value: ConstValue::Bin(toks[3].to_string()),
            },
            "consth" => Node::Const {
                sort: num(2),
                value: ConstValue::Hex(toks[3].to_string()),
            },
            "init" => Node::Init {
                sort: num(2),
                state: num(3),
                value: num(4),
            },
            "next" => Node::Next {
                sort: num(2),
                state: num(3),
                value: num(4),
            },
            "bad" => Node::Bad { cond: num(2) },
            "constraint" => Node::Constraint { cond: num(2) },
            "output" => Node::Output { value: num(2) },
            kw => {
                let op = match kw {
                    "not" => Op::Not,
                    "inc" => Op::Inc,
                    "dec" => Op::Dec,
                    "neg" => Op::Neg,
                    "redand" => Op::Redand,
                    "redor" => Op::Redor,
                    "redxor" => Op::Redxor,
                    "sext" => Op::Sext,
                    "uext" => Op::Uext,
                    "slice" => Op::Slice,
                    "iff" => Op::Iff,
                    "implies" => Op::Implies,
                    "eq" => Op::Eq,
                    "neq" => Op::Neq,
                    "sgt" => Op::Sgt,
                    "sgte" => Op::Sgte,
                    "slt" => Op::Slt,
                    "slte" => Op::Slte,
                    "ugt" => Op::Ugt,
                    "ugte" => Op::Ugte,
                    "ult" => Op::Ult,
                    "ulte" => Op::Ulte,
                    "and" => Op::And,
                    "nand" => Op::Nand,
                    "nor" => Op::Nor,
                    "or" => Op::Or,
                    "xnor" => Op::Xnor,
                    "xor" => Op::Xor,
                    "concat" => Op::Concat,
                    "add" => Op::Add,
                    "mul" => Op::Mul,
                    "sdiv" => Op::Sdiv,
                    "udiv" => Op::Udiv,
                    "smod" => Op::Smod,
                    "srem" => Op::Srem,
                    "urem" => Op::Urem,
                    "sub" => Op::Sub,
                    "sll" => Op::Sll,
                    "srl" => Op::Srl,
                    "sra" => Op::Sra,
                    "rol" => Op::Rol,
                    "ror" => Op::Ror,
                    "ite" => Op::Ite,
                    "read" => Op::Read,
                    "write" => Op::Write,
                    other => panic!("unknown keyword {other}"),
                };
                Node::Op {
                    op,
                    sort: num(2),
                    args: toks[3..]
                        .iter()
                        .map(|t| Operand {
                            nid: t.parse().expect("operand"),
                        })
                        .collect(),
                }
            }
        };
        lines.push(Line { nid, node });
    }
    Btor2File { lines }
}

/// Leaf nid by symbol, so a test can name `a` rather than a number.
fn cell(file: &Btor2File, want: &str) -> Nid {
    file.lines
        .iter()
        .find(|l| match &l.node {
            Node::State {
                symbol: Some(s), ..
            }
            | Node::Input {
                symbol: Some(s), ..
            } => s == want,
            _ => false,
        })
        .map(|l| l.nid)
        .unwrap_or_else(|| panic!("no cell named {want}"))
}

fn g_of(src: &str) -> (Btor2File, BitGraph) {
    let file = parse(src);
    let g = build(&file);
    (file, g)
}

fn edge(x: BitRef, y: BitRef) -> (BitRef, BitRef) {
    if x < y {
        (x, y)
    } else {
        (y, x)
    }
}

fn mean_degree(g: &BitGraph) -> f64 {
    if g.nodes.is_empty() {
        return 0.0;
    }
    (2 * g.edges.len()) as f64 / g.nodes.len() as f64
}

#[test]
fn equality_couples_only_bits_at_the_same_index() {
    let (f, g) = g_of(
        "1 sort bitvec 1\n2 sort bitvec 4\n3 state 2 a\n4 state 2 b\n5 eq 1 3 4\n6 bad 5\n",
    );
    let (a, b) = (cell(&f, "a"), cell(&f, "b"));

    for i in 0..4 {
        let e = if (a, i) < (b, i) {
            ((a, i), (b, i))
        } else {
            ((b, i), (a, i))
        };
        assert!(g.edges.contains(&e), "a_{i} must meet b_{i}");
    }
    for i in 0..4 {
        for j in 0..4 {
            if i == j {
                continue;
            }
            let e = if (a, i) < (b, j) {
                ((a, i), (b, j))
            } else {
                ((b, j), (a, i))
            };
            assert!(
                !g.edges.contains(&e),
                "a_{i} must NOT meet b_{j}: an equality compares aligned bits only"
            );
        }
    }
    assert_eq!(
        g.edges.len(),
        4,
        "exactly the four aligned pairs, nothing more"
    );
}

#[test]
fn symbolic_multiply_is_dense_and_constant_multiply_is_free() {
    let (_, dense) = g_of(
        "1 sort bitvec 1\n2 sort bitvec 4\n3 state 2 a\n4 state 2 b\n5 mul 2 3 4\n\
         6 zero 2\n7 init 2 3 6\n8 next 2 3 5\n",
    );
    assert!(
        mean_degree(&dense) > 3.0,
        "a symbolic multiply must look dense; mean degree {}",
        mean_degree(&dense)
    );

    let (_, cheap) = g_of(
        "1 sort bitvec 1\n2 sort bitvec 4\n3 state 2 a\n4 constd 2 8\n5 mul 2 3 4\n\
         6 zero 2\n7 init 2 3 6\n8 next 2 3 5\n",
    );
    assert_eq!(cheap.edges.len(), 0);
}

#[test]
fn symbolic_shift_amount_couples_to_the_data_and_a_constant_one_does_not() {
    let (f, sym) = g_of(
        "1 sort bitvec 1\n2 sort bitvec 4\n3 state 2 x\n4 state 2 k\n5 zero 2\n\
         6 init 2 3 5\n7 srl 2 3 4\n8 next 2 3 7\n",
    );
    let (x, k) = (cell(&f, "x"), cell(&f, "k"));
    for i in 0..4 {
        for j in 0..4 {
            let e = if (x, i) < (k, j) {
                ((x, i), (k, j))
            } else {
                ((k, j), (x, i))
            };
            assert!(
                sym.edges.contains(&e),
                "x_{i} must meet amount bit k_{j}: every output bit is a mux over every input \
                 bit, selected by the amount"
            );
        }
    }

    let (_, konst) = g_of(
        "1 sort bitvec 1\n2 sort bitvec 4\n3 state 2 x\n4 constd 2 2\n5 zero 2\n\
         6 init 2 3 5\n7 srl 2 3 4\n8 next 2 3 7\n",
    );
    assert_eq!(
        konst.edges.len(),
        0,
        "a constant shift amount is wiring, not a barrel shifter"
    );
}

#[test]
fn independent_cells_share_no_edges() {
    let (f, g) = g_of(
        "1 sort bitvec 1\n2 sort bitvec 4\n3 state 2 a\n4 state 2 b\n5 one 2\n\
         6 add 2 3 5\n7 next 2 3 6\n8 add 2 4 5\n9 next 2 4 8\n",
    );
    let (a, b) = (cell(&f, "a"), cell(&f, "b"));
    for i in 0..4 {
        for j in 0..4 {
            let e = if (a, i) < (b, j) {
                ((a, i), (b, j))
            } else {
                ((b, j), (a, i))
            };
            assert!(
                !g.edges.contains(&e),
                "a_{i} and b_{j} never meet in any operator, so they must not be coupled"
            );
        }
    }
}

#[test]
fn addition_couples_aligned_bits_and_the_carry_chain() {
    let (f, g) = g_of(
        "1 sort bitvec 1\n2 sort bitvec 4\n3 state 2 a\n4 state 2 b\n5 add 2 3 4\n\
         6 zero 2\n7 init 2 3 6\n8 next 2 3 5\n",
    );
    let (a, b) = (cell(&f, "a"), cell(&f, "b"));
    for i in 0..4 {
        let al = if (a, i) < (b, i) {
            ((a, i), (b, i))
        } else {
            ((b, i), (a, i))
        };
        assert!(g.edges.contains(&al), "aligned pair a_{i}—b_{i}");
    }
    for i in 0..3 {
        assert!(
            g.edges.contains(&((a, i), (a, i + 1))),
            "carry chain a_{i}—a_{}",
            i + 1
        );
    }
}

#[test]
fn every_declared_bit_is_a_node_even_without_edges() {
    let (f, g) = g_of("1 sort bitvec 3\n2 state 1 a\n3 input 1 b\n4 zero 1\n");
    let (a, b) = (cell(&f, "a"), cell(&f, "b"));
    assert_eq!(g.nodes.len(), 6);
    for i in 0..3 {
        assert!(g.nodes.contains(&(a, i)));
        assert!(g.nodes.contains(&(b, i)));
    }
    assert!(g.edges.is_empty());
    assert!(g.selectors.is_empty());
}

#[test]
fn symbolic_shift_amount_bits_are_selectors_and_data_bits_are_not() {
    let (f, g) = g_of("1 sort bitvec 4\n2 state 1 x\n3 state 1 k\n4 sll 1 2 3\n");
    let (x, k) = (cell(&f, "x"), cell(&f, "k"));
    for i in 0..4 {
        assert!(g.selectors.contains(&(k, i)));
        assert!(!g.selectors.contains(&(x, i)));
    }
    // Amount x data only: no data x data and no amount x amount clique.
    assert_eq!(g.edges.len(), 16);
}

#[test]
fn multiply_by_a_constant_that_is_not_a_power_of_two_chains_the_live_operand() {
    let (f, g) = g_of("1 sort bitvec 4\n2 state 1 a\n3 constd 1 3\n4 mul 1 2 3\n");
    let a = cell(&f, "a");
    assert_eq!(g.edges.len(), 3, "a carry chain over the four live bits");
    for i in 0..3 {
        assert!(g.edges.contains(&((a, i), (a, i + 1))));
    }
}

#[test]
fn power_of_two_constants_in_binary_and_hex_multiply_for_free() {
    let (_, bin) = g_of("1 sort bitvec 4\n2 state 1 a\n3 const 1 0100\n4 mul 1 2 3\n");
    assert_eq!(bin.edges.len(), 0);
    let (_, hex) = g_of("1 sort bitvec 8\n2 state 1 a\n3 consth 1 0x10\n4 mul 1 3 2\n");
    assert_eq!(hex.edges.len(), 0);
    let (_, not_pow2) = g_of("1 sort bitvec 4\n2 state 1 a\n3 const 1 0101\n4 mul 1 2 3\n");
    assert_eq!(not_pow2.edges.len(), 3);
}

#[test]
fn an_ite_condition_selects_and_meets_both_branches() {
    let (f, g) = g_of(
        "1 sort bitvec 1\n2 sort bitvec 2\n3 state 1 c\n4 state 2 t\n5 state 2 e\n6 ite 2 3 4 5\n",
    );
    let (c, t, e) = (cell(&f, "c"), cell(&f, "t"), cell(&f, "e"));
    assert!(g.selectors.contains(&(c, 0)));
    for i in 0..2 {
        assert!(g.edges.contains(&edge((c, 0), (t, i))));
        assert!(g.edges.contains(&edge((c, 0), (e, i))));
        assert!(g.edges.contains(&edge((t, i), (e, i))));
    }
    assert!(!g.edges.contains(&edge((t, 0), (e, 1))));
    assert_eq!(g.edges.len(), 6);
}

#[test]
fn concat_and_slice_remap_without_coupling() {
    let (f, g) = g_of(
        "1 sort bitvec 2\n2 sort bitvec 4\n3 state 1 hi\n4 state 1 lo\n5 concat 2 3 4\n\
         6 sort bitvec 1\n7 slice 6 5 2 2\n8 state 6 z\n9 eq 6 7 8\n",
    );
    let (hi, z) = (cell(&f, "hi"), cell(&f, "z"));
    // Bit 2 of `hi ++ lo` is bit 0 of `hi`, and the equality meets it with `z`.
    assert_eq!(g.edges.len(), 1);
    assert!(g.edges.contains(&edge((hi, 0), (z, 0))));
}

#[test]
fn the_census_counts_cross_cell_aligned_and_selector_edges() {
    let file = parse(
        "1 sort bitvec 1\n2 sort bitvec 4\n3 state 2 a\n4 state 2 b\n5 add 2 3 4\n",
    );
    let c = order_census(&file);
    assert_eq!(c.bits, 8);
    // 4 aligned pairs + 3 carry links in each operand.
    assert_eq!(c.edges, 10);
    assert_eq!(c.cross_cell, 4);
    assert_eq!(c.aligned, 4);
    assert_eq!(c.selector, 0);

    let shift = parse("1 sort bitvec 4\n2 state 1 x\n3 state 1 k\n4 srl 1 2 3\n");
    let c = order_census(&shift);
    assert_eq!(c.edges, 16);
    assert_eq!(c.cross_cell, 16);
    assert_eq!(c.aligned, 4);
    assert_eq!(c.selector, 16);
}

#[test]
fn edges_are_stored_with_the_smaller_endpoint_first() {
    let (_, g) = g_of(
        "1 sort bitvec 3\n2 state 1 a\n3 state 1 b\n4 mul 1 3 2\n5 redxor 1 4\n",
    );
    for (x, y) in &g.edges {
        assert!(x < y);
        assert!(g.nodes.contains(x) && g.nodes.contains(y));
    }
}

#[test]
fn zero_is_not_a_power_of_two_and_one_is() {
    let (_, zero) = g_of("1 sort bitvec 4\n2 state 1 a\n3 zero 1\n4 mul 1 2 3\n");
    assert_eq!(zero.edges.len(), 3, "multiplying by zero is no shift: the live operand chains");
    let (_, one) = g_of("1 sort bitvec 4\n2 state 1 a\n3 one 1\n4 mul 1 2 3\n");
    assert_eq!(one.edges.len(), 0);
}

#[test]
fn a_hex_power_of_two_wider_than_128_bits_still_multiplies_for_free() {
    let wide = format!("1{}", "0".repeat(40));
    let src = format!("1 sort bitvec 4\n2 state 1 a\n3 consth 1 {wide}\n4 mul 1 2 3\n");
    let (_, g) = g_of(&src);
    assert_eq!(g.edges.len(), 0);
    let (_, three) = g_of("1 sort bitvec 4\n2 state 1 a\n3 consth 1 0x3\n4 mul 1 2 3\n");
    assert_eq!(three.edges.len(), 3);
    let (_, plus) = g_of("1 sort bitvec 4\n2 state 1 a\n3 consth 1 +8\n4 mul 1 2 3\n");
    assert_eq!(plus.edges.len(), 0);
}

#[test]
fn one_operator_step_only_adds_to_the_graph() {
    let mut g = BitGraph::default();
    g.nodes.insert((1, 0));
    g.nodes.insert((2, 0));
    g.edges.insert(((1, 0), (2, 0)));
    let one = |b: BitRef| -> BTreeSet<BitRef> { [b].into_iter().collect() };
    let sa = vec![one((1, 0)), one((1, 1))];
    let sb = vec![one((3, 0)), one((3, 1))];
    let out = g.eval(Op::And, 2, &sa, &sb, &Vec::new(), false, false, 0);
    assert!(g.edges.contains(&((1, 0), (2, 0))), "the old edge stays");
    assert!(g.edges.contains(&((1, 0), (3, 0))));
    assert!(g.edges.contains(&((1, 1), (3, 1))));
    assert_eq!(g.edges.len(), 3);
    assert!(g.edges.iter().all(|(x, y)| x < y));
    assert_eq!(g.nodes.len(), 2, "the declared bits are unchanged");
    assert_eq!(out.len(), 2);
    assert!(out[0].contains(&(1, 0)) && out[0].contains(&(3, 0)));
}
