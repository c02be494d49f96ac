use vstd::prelude::*;
use crate::cfg::{
    entered, lemma_pass_well_formed, lemma_position, lemma_step_well_formed, pass, position, step,
    CFG,
};
use crate::naming::{is_synthetic_name, lemma_synthetic_name_injective, synthetic_name};
use crate::types::{InstructionView, OpView};

verus! {

/// Some instruction of `instrs` is the label `x`.
pub open spec fn has_label(instrs: Seq<InstructionView>, x: Seq<char>) -> bool {
    exists|k: int| 0 <= k < instrs.len() && instrs[k].op == OpView::Label(x)
}

/// No label of `instrs` is spelled like a synthetic block name.
pub open spec fn no_synthetic_labels(instrs: Seq<InstructionView>) -> bool {
    forall|k: int|
        0 <= k < instrs.len() ==> match #[trigger] instrs[k].op {
            OpView::Label(x) => !is_synthetic_name(x),
            _ => true,
        }
}

/// No label name occurs twice in `instrs`.
pub open spec fn distinct_labels(instrs: Seq<InstructionView>) -> bool {
    forall|a: int, b: int|
        0 <= a < b < instrs.len() && (#[trigger] instrs[a]).is_label() && (#[trigger] instrs[b]).is_label()
            ==> instrs[a].op != instrs[b].op
}

/// The instruction at `k` starts a run of non-label instructions with no block open before it.
pub open spec fn opens_anonymous(instrs: Seq<InstructionView>, k: int) -> bool {
    !instrs[k].is_label() && (k == 0 || instrs[k - 1].is_terminator())
}

/// The number of runs of non-label instructions that begin with no block open.
pub open spec fn anonymous_runs(instrs: Seq<InstructionView>) -> nat
    decreases instrs.len(),
{
    if instrs.len() == 0 {
        0
    } else {
        anonymous_runs(instrs.drop_last()) + if opens_anonymous(instrs, instrs.len() - 1) {
            1nat
        } else {
            0nat
        }
    }
}

/// The number of label instructions whose name no earlier label carries.
pub open spec fn first_labels(instrs: Seq<InstructionView>) -> nat
    decreases instrs.len(),
{
    if instrs.len() == 0 {
        0
    } else {
        first_labels(instrs.drop_last()) + match instrs.last().op {
            OpView::Label(x) => if has_label(instrs.drop_last(), x) {
                0nat
            } else {
                1nat
            },
            _ => 0nat,
        }
    }
}

/// A block is open after the pass exactly when the body so far is non-empty and does not
/// end in a terminator.
pub proof fn lemma_open_after(instrs: Seq<InstructionView>)
    ensures
        pass(instrs).open is None <==> (instrs.len() == 0 || instrs.last().is_terminator()),
    decreases instrs.len(),
{
    if instrs.len() > 0 {
        lemma_open_after(instrs.drop_last());
        lemma_pass_well_formed(instrs.drop_last());
        lemma_step_well_formed(pass(instrs.drop_last()), instrs.last());
    }
}

proof fn lemma_prefix_has_label(instrs: Seq<InstructionView>, x: Seq<char>)
    requires
        instrs.len() > 0,
    ensures
        has_label(instrs, x) <==> (has_label(instrs.drop_last(), x) || instrs.last().op
            == OpView::Label(x)),
{
    let p = instrs.drop_last();
    if has_label(p, x) {
        let k = choose|k: int| 0 <= k < p.len() && p[k].op == OpView::Label(x);
        assert(instrs[k] == p[k]);
    }
    if has_label(instrs, x) {
        let k = choose|k: int| 0 <= k < instrs.len() && instrs[k].op == OpView::Label(x);
        if k < instrs.len() - 1 {
            assert(p[k] == instrs[k]);
        }
    }
    if instrs.last().op == OpView::Label(x) {
        assert(instrs[instrs.len() - 1].op == OpView::Label(x));
    }
}

/// Which names the pass has given blocks, and how many, where no label looks synthetic.
proof fn lemma_names(instrs: Seq<InstructionView>)
    requires
        no_synthetic_labels(instrs),
    ensures
        forall|x: Seq<char>|
            #[trigger] pass(instrs).names.contains(x) ==> has_label(instrs, x) || exists|c: nat|
                1 <= c <= pass(instrs).counter && x == #[trigger] synthetic_name(c),
        forall|x: Seq<char>| has_label(instrs, x) ==> #[trigger] pass(instrs).names.contains(x),
        pass(instrs).counter == anonymous_runs(instrs),
        pass(instrs).names.len() == first_labels(instrs) + anonymous_runs(instrs),
    decreases instrs.len(),
{
    if instrs.len() > 0 {
        let p = instrs.drop_last();
        let i = instrs.last();
        let s = pass(p);
        assert forall|k: int| 0 <= k < p.len() implies match #[trigger] p[k].op {
            OpView::Label(x) => !is_synthetic_name(x),
            _ => true,
        } by {
            assert(p[k] == instrs[k]);
        }
        lemma_names(p);
        lemma_open_after(p);
        lemma_pass_well_formed(p);
        lemma_step_well_formed(s, i);
        let e = entered(s, i);
        assert(pass(instrs) == step(s, i));
        assert(step(s, i).names == e.names && step(s, i).counter == e.counter);
        assert forall|x: Seq<char>| has_label(instrs, x) implies #[trigger] e.names.contains(x) by {
            lemma_prefix_has_label(instrs, x);
            lemma_position(s.names, x);
            if has_label(p, x) {
                assert(s.names.contains(x));
                let k = choose|k: int| 0 <= k < s.names.len() && s.names[k] == x;
                assert(e.names[k] == s.names[k]);
            } else {
                assert(i.op == OpView::Label(x));
                if position(s.names, x) >= 0 {
                    assert(e.names[position(s.names, x)] == x);
                } else {
                    assert(e.names[s.names.len() as int] == x);
                }
            }
        }
        match i.op {
            OpView::Label(x) => {
                assert(instrs[instrs.len() - 1].op == OpView::Label(x));
                assert(!is_synthetic_name(x));
                lemma_position(s.names, x);
                if has_label(p, x) {
                    assert(s.names.contains(x));
                    assert(position(s.names, x) >= 0);
                } else {
                    if position(s.names, x) >= 0 {
                        assert(s.names.contains(x));
                        let c = choose|c: nat| 1 <= c <= s.counter && x == synthetic_name(c);
                        assert(is_synthetic_name(x));
                    }
                    assert(e.names == s.names.push(x));
                }
                assert forall|y: Seq<char>| #[trigger] e.names.contains(y) implies has_label(
                    instrs,
                    y,
                ) || exists|c: nat| 1 <= c <= e.counter && y == #[trigger] synthetic_name(c) by {
                    lemma_prefix_has_label(instrs, y);
                    if y != x {
                        let k = choose|k: int| 0 <= k < e.names.len() && e.names[k] == y;
                        assert(s.names[k] == y);
                        assert(s.names.contains(y));
                    }
                }
            },
            _ => {
                if s.open is None {
                    let nm = synthetic_name(s.counter + 1);
                    lemma_position(s.names, nm);
                    if position(s.names, nm) >= 0 {
                        assert(s.names.contains(nm));
                        if has_label(p, nm) {
                            let k = choose|k: int| 0 <= k < p.len() && p[k].op == OpView::Label(nm);
                            assert(p[k] == instrs[k]);
                            assert(is_synthetic_name(nm));
                        } else {
                            let c = choose|c: nat| 1 <= c <= s.counter && nm == synthetic_name(c);
                            lemma_synthetic_name_injective(c, (s.counter + 1) as nat);
                        }
                    }
                    assert(e.names == s.names.push(nm));
                    assert(opens_anonymous(instrs, instrs.len() - 1));
                    assert forall|y: Seq<char>| #[trigger] e.names.contains(y) implies has_label(
                        instrs,
                        y,
                    ) || exists|c: nat| 1 <= c <= e.counter && y == #[trigger] synthetic_name(c) by {
                        lemma_prefix_has_label(instrs, y);
                        if y != nm {
                            let k = choose|k: int| 0 <= k < e.names.len() && e.names[k] == y;
                            assert(s.names[k] == y);
                            assert(s.names.contains(y));
                            if !has_label(p, y) {
                                let c = choose|c: nat| 1 <= c <= s.counter && y == synthetic_name(c);
                                assert(1 <= c <= e.counter);
                            }
                        } else {
                            assert(1 <= s.counter + 1 <= e.counter);
                        }
                    }
                } else {
                    assert(!opens_anonymous(instrs, instrs.len() - 1));
                    assert forall|y: Seq<char>| #[trigger] e.names.contains(y) implies has_label(
                        instrs,
                        y,
                    ) || exists|c: nat| 1 <= c <= e.counter && y == #[trigger] synthetic_name(c) by {
                        lemma_prefix_has_label(instrs, y);
                    }
                }
            },
        }
    }
}

/// Every label of `instrs` names a block once the pass is over.
proof fn lemma_labels_opened(instrs: Seq<InstructionView>)
    ensures
        forall|x: Seq<char>| has_label(instrs, x) ==> #[trigger] pass(instrs).names.contains(x),
    decreases instrs.len(),
{
    if instrs.len() > 0 {
        let p = instrs.drop_last();
        let i = instrs.last();
        let s = pass(p);
        lemma_labels_opened(p);
        lemma_pass_well_formed(p);
        lemma_step_well_formed(s, i);
        let e = entered(s, i);
        assert(pass(instrs).names == e.names);
        assert forall|x: Seq<char>| has_label(instrs, x) implies #[trigger] e.names.contains(x) by {
            lemma_prefix_has_label(instrs, x);
            lemma_position(s.names, x);
            if has_label(p, x) {
                assert(s.names.contains(x));
                let k = choose|k: int| 0 <= k < s.names.len() && s.names[k] == x;
                assert(e.names[k] == s.names[k]);
            } else if position(s.names, x) >= 0 {
                assert(e.names[position(s.names, x)] == x);
            } else {
                assert(e.names[s.names.len() as int] == x);
            }
        }
    }
}

/// The labels of the terminators in `body`, in order.
pub open spec fn terminator_targets(body: Seq<InstructionView>) -> Seq<Seq<char>>
    decreases body.len(),
{
    if body.len() == 0 {
        Seq::empty()
    } else {
        terminator_targets(body.drop_last()) + if body.last().is_terminator() {
            body.last().targets()
        } else {
            Seq::empty()
        }
    }
}

proof fn lemma_terminator_targets_concat(a: Seq<InstructionView>, b: Seq<InstructionView>)
    ensures
        terminator_targets(a + b) == terminator_targets(a) + terminator_targets(b),
    decreases b.len(),
{
    if b.len() == 0 {
        assert(a + b =~= a);
        assert(terminator_targets(b) =~= Seq::<Seq<char>>::empty());
        assert(terminator_targets(a) + terminator_targets(b) =~= terminator_targets(a));
    } else {
        lemma_terminator_targets_concat(a, b.drop_last());
        assert((a + b).drop_last() =~= a + b.drop_last());
        assert((a + b).last() == b.last());
        let t = if b.last().is_terminator() {
            b.last().targets()
        } else {
            Seq::empty()
        };
        assert(terminator_targets(a + b) == terminator_targets(a + b.drop_last()) + t);
        assert(terminator_targets(a) + terminator_targets(b.drop_last()) + t =~= terminator_targets(
            a,
        ) + (terminator_targets(b.drop_last()) + t));
    }
}

/// Each block's successors are the labels of its own terminators.
proof fn lemma_successors_from_terminators(instrs: Seq<InstructionView>)
    ensures
        forall|b: int|
            0 <= b < pass(instrs).names.len() ==> #[trigger] pass(instrs).succs[b]
                == terminator_targets(pass(instrs).bodies[b]),
    decreases instrs.len(),
{
    lemma_pass_well_formed(instrs);
    if instrs.len() > 0 {
        let p = instrs.drop_last();
        let i = instrs.last();
        let s = pass(p);
        lemma_successors_from_terminators(p);
        lemma_pass_well_formed(p);
        lemma_step_well_formed(s, i);
        lemma_position(s.names, synthetic_name(s.counter + 1));
        if let OpView::Label(x) = i.op {
            lemma_position(s.names, x);
        }
        let e = entered(s, i);
        let o = e.open->0;
        assert forall|b: int| 0 <= b < e.names.len() implies #[trigger] e.succs[b]
            == terminator_targets(e.bodies[b]) by {
            if b >= s.names.len() {
                assert(e.succs[b] =~= Seq::<Seq<char>>::empty());
                assert(e.bodies[b] =~= Seq::<InstructionView>::empty());
            } else {
                assert(e.succs[b] == s.succs[b]);
                assert(e.bodies[b] == s.bodies[b]);
            }
        }
        let r = step(s, i);
        assert forall|b: int| 0 <= b < r.names.len() implies #[trigger] r.succs[b]
            == terminator_targets(r.bodies[b]) by {
            if b == o && !i.is_label() {
                let body = e.bodies[o];
                assert(r.bodies[b] == body.push(i));
                assert(body.push(i).drop_last() =~= body);
                if i.is_terminator() {
                    assert(r.succs[b] == e.succs[o] + i.targets());
                } else {
                    assert(terminator_targets(body.push(i)) =~= terminator_targets(body) + Seq::<
                        Seq<char>,
                    >::empty());
                }
            } else if b == o && i.is_terminator() {
                assert(i.targets() =~= Seq::<Seq<char>>::empty());
                assert(r.succs[b] =~= e.succs[b]);
            }
        }
    }
}

/// All the sequences of `parts`, one after the other.
pub open spec fn concat_all(parts: Seq<Seq<InstructionView>>) -> Seq<InstructionView>
    decreases parts.len(),
{
    if parts.len() == 0 {
        Seq::empty()
    } else {
        concat_all(parts.drop_last()) + parts.last()
    }
}

/// Whether an instruction is not a label.
pub open spec fn not_label(i: InstructionView) -> bool {
    !i.is_label()
}

/// Where labels are distinct and none looks synthetic, every opening adds a new block, the
/// open block is the last one, and the blocks read in order give the body without labels.
proof fn lemma_coverage(instrs: Seq<InstructionView>)
    requires
        no_synthetic_labels(instrs),
        distinct_labels(instrs),
    ensures
        pass(instrs).open matches Some(b) ==> b == pass(instrs).names.len() - 1,
        concat_all(pass(instrs).bodies) == instrs.filter(|i: InstructionView| not_label(i)),
    decreases instrs.len(),
{
    reveal_with_fuel(Seq::<_>::filter, 1);
    lemma_pass_well_formed(instrs);
    if instrs.len() > 0 {
        let p = instrs.drop_last();
        let i = instrs.last();
        let s = pass(p);
        assert forall|k: int| 0 <= k < p.len() implies match #[trigger] p[k].op {
            OpView::Label(x) => !is_synthetic_name(x),
            _ => true,
        } by {
            assert(p[k] == instrs[k]);
        }
        assert forall|a: int, b: int|
            0 <= a < b < p.len() && (#[trigger] p[a]).is_label() && (#[trigger] p[b]).is_label()
                implies p[a].op != p[b].op by {
            assert(p[a] == instrs[a] && p[b] == instrs[b]);
        }
        lemma_coverage(p);
        lemma_names(p);
        lemma_pass_well_formed(p);
        lemma_step_well_formed(s, i);
        let e = entered(s, i);
        let f = |j: InstructionView| not_label(j);
        assert(instrs.filter(f) == if f(i) {
            p.filter(f).push(i)
        } else {
            p.filter(f)
        });
        match i.op {
            OpView::Label(x) => {
                assert(instrs[instrs.len() - 1].op == OpView::Label(x));
                assert(!is_synthetic_name(x));
                lemma_position(s.names, x);
                if position(s.names, x) >= 0 {
                    assert(s.names.contains(x));
                    if has_label(p, x) {
                        let k = choose|k: int| 0 <= k < p.len() && p[k].op == OpView::Label(x);
                        assert(instrs[k] == p[k]);
                        assert(instrs[k].is_label());
                        assert(false);
                    } else {
                        let c = choose|c: nat| 1 <= c <= s.counter && x == synthetic_name(c);
                        assert(is_synthetic_name(x));
                    }
                }
                assert(e.bodies == s.bodies.push(Seq::empty()));
                assert(e.bodies.drop_last() =~= s.bodies);
                assert(concat_all(e.bodies) =~= concat_all(s.bodies));
            },
            _ => {
                if s.open is None {
                    let nm = synthetic_name(s.counter + 1);
                    lemma_position(s.names, nm);
                    if position(s.names, nm) >= 0 {
                        assert(s.names.contains(nm));
                        if has_label(p, nm) {
                            let k = choose|k: int| 0 <= k < p.len() && p[k].op == OpView::Label(nm);
                            assert(p[k] == instrs[k]);
                            assert(is_synthetic_name(nm));
                        } else {
                            let c = choose|c: nat| 1 <= c <= s.counter && nm == synthetic_name(c);
                            lemma_synthetic_name_injective(c, (s.counter + 1) as nat);
                        }
                    }
                    assert(e.bodies == s.bodies.push(Seq::empty()));
                    assert(e.bodies.drop_last() =~= s.bodies);
                    assert(concat_all(e.bodies) =~= concat_all(s.bodies));
                }
                let o = e.open->0;
                assert(o == e.names.len() - 1);
                let nb = e.bodies.update(o, e.bodies[o].push(i));
                assert(nb.drop_last() =~= e.bodies.drop_last());
                assert(concat_all(nb) =~= concat_all(e.bodies).push(i));
            },
        }
    }
}

/// Block count: where no label is spelled like a synthetic name, the graph has one block for
/// each label name, counted once however often it recurs, and one for each run of non-label
/// instructions that begins with no block open.
pub proof fn law_block_count(instrs: Seq<InstructionView>, cfg: CFG)
    requires
        cfg.holds(pass(instrs)),
        no_synthetic_labels(instrs),
    ensures
        cfg.blocks@.len() == first_labels(instrs) + anonymous_runs(instrs),
{
    lemma_names(instrs);
}

/// Sink completeness: every block has an entry among the successors, every label names a
/// block, and a block's successors are exactly the labels of its terminators, so a block
/// without a terminator has none.
pub proof fn law_sinks(instrs: Seq<InstructionView>, cfg: CFG)
    requires
        cfg.holds(pass(instrs)),
    ensures
        cfg.graph@.len() == cfg.blocks@.len(),
        forall|x: Seq<char>| has_label(instrs, x) ==> #[trigger] cfg.block_names().contains(x),
        forall|b: int|
            0 <= b < cfg.blocks@.len() ==> #[trigger] cfg.successors()[b] == terminator_targets(
                cfg.block_bodies()[b],
            ),
{
    lemma_pass_well_formed(instrs);
    lemma_labels_opened(instrs);
    lemma_successors_from_terminators(instrs);
    assert(cfg.successors().len() == cfg.graph@.len());
    assert(cfg.block_names().len() == cfg.blocks@.len());
}

/// Successor order: a branch's labels appear among its block's successors side by side, the
/// true target first.
pub proof fn law_branch_order(instrs: Seq<InstructionView>, cfg: CFG, b: int, j: int)
    requires
        cfg.holds(pass(instrs)),
        0 <= b < cfg.blocks@.len(),
        0 <= j < cfg.block_bodies()[b].len(),
        cfg.block_bodies()[b][j].op is Br,
        cfg.block_bodies()[b][j].targets().len() == 2,
    ensures
        exists|m: int|
            0 <= m && m + 1 < cfg.successors()[b].len() && #[trigger] cfg.successors()[b][m]
                == cfg.block_bodies()[b][j].targets()[0] && cfg.successors()[b][m + 1]
                == cfg.block_bodies()[b][j].targets()[1],
{
    law_sinks(instrs, cfg);
    let body = cfg.block_bodies()[b];
    let br = body[j];
    let head = body.take(j);
    let tail = body.skip(j + 1);
    assert(body =~= head.push(br) + tail);
    lemma_terminator_targets_concat(head.push(br), tail);
    assert(head.push(br).drop_last() =~= head);
    let m = terminator_targets(head).len() as int;
    let sx = cfg.successors()[b];
    assert(sx == terminator_targets(head) + br.targets() + terminator_targets(tail));
    assert(sx[m] == br.targets()[0]);
    assert(sx[m + 1] == br.targets()[1]);
}

/// Partition coverage: where labels are distinct and none is spelled like a synthetic name,
/// the blocks read in the order they were opened give the body with its labels removed.
pub proof fn law_coverage(instrs: Seq<InstructionView>, cfg: CFG)
    requires
        cfg.holds(pass(instrs)),
        no_synthetic_labels(instrs),
        distinct_labels(instrs),
    ensures
        concat_all(cfg.block_bodies()) == instrs.filter(|i: InstructionView| not_label(i)),
{
    lemma_coverage(instrs);
}

/// Determinism: two graphs built from the same body have the same blocks, in the same order,
/// with the same instructions and successors.
pub proof fn law_determinism(instrs: Seq<InstructionView>, a: CFG, b: CFG)
    requires
        a.holds(pass(instrs)),
        b.holds(pass(instrs)),
    ensures
        a.block_names() == b.block_names(),
        a.block_bodies() == b.block_bodies(),
        a.successors() == b.successors(),
{
}

} // verus!
