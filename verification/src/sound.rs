//! Graphs of fine code: the graph that is built from code whose names are
//! fresh is closed, and defines each identifier once.

use crate::cfg::{
    block_closed, build_from, close, closed, defined, defined_by, defined_from, graph_of,
    single_assignment, step, targets, terminator_uid, Building,
};
use crate::fresh::{fine, lands, marks};
use crate::llvmlite::{LBlock, LTerminator, Label, Uid};
use crate::lower::{Elt, Names};
use crate::table::{lemma_position, position};
use crate::typecontext::names;
use vstd::prelude::*;

verus! {

/// Whether the code defines the identifier `u`.
pub open spec fn defines(d: Seq<Elt>, u: Uid) -> bool {
    exists|j: int| 0 <= j < d.len() && (#[trigger] d[j]) is Ins && d[j]->Ins_0 == u
}

/// The identifiers that the blocks define, in their order.
pub open spec fn flat(blocks: Seq<(Label, LBlock)>) -> Seq<Uid> {
    defined_from(blocks, 0, Seq::empty())
}

/// What is collected before the blocks comes first in what is defined.
pub proof fn lemma_defined_after(blocks: Seq<(Label, LBlock)>, i: nat, acc: Seq<Uid>)
    ensures
        defined_from(blocks, i, acc) == acc + defined_from(blocks, i, Seq::empty()),
    decreases blocks.len() - i,
{
    if i >= blocks.len() {
        assert(acc + Seq::<Uid>::empty() =~= acc);
    } else {
        let here = defined_by(blocks[i as int].1.instructions);
        lemma_defined_after(blocks, i + 1, acc + here);
        lemma_defined_after(blocks, i + 1, Seq::empty() + here);
        assert(Seq::<Uid>::empty() + here =~= here);
        let rest = defined_from(blocks, i + 1, Seq::empty());
        assert((acc + here) + rest =~= acc + (here + rest));
    }
}

/// A block that is added last defines its identifiers last.
pub proof fn lemma_defined_push(blocks: Seq<(Label, LBlock)>, i: nat, acc: Seq<Uid>, l: Label, b: LBlock)
    requires
        i <= blocks.len(),
    ensures
        defined_from(blocks.push((l, b)), i, acc) == defined_from(blocks, i, acc) + defined_by(
            b.instructions,
        ),
    decreases blocks.len() - i,
{
    let more = blocks.push((l, b));
    if i == blocks.len() {
        assert(more[i as int] == (l, b));
        assert(defined_from(more, i + 1, acc + defined_by(b.instructions)) == acc + defined_by(
            b.instructions,
        ));
    } else {
        assert(more[i as int] == blocks[i as int]);
        lemma_defined_push(blocks, i + 1, acc + defined_by(blocks[i as int].1.instructions), l, b);
    }
}

/// The identifiers of the block that is complete at the entry.
pub open spec fn entry_uids(b: Building) -> Seq<Uid> {
    match b.entry {
        Some(e) => defined_by(e.instructions),
        None => Seq::empty(),
    }
}

/// The identifiers of the block that is open.
pub open spec fn open_uids(b: Building) -> Seq<Uid> {
    match b.open {
        Some((_, instructions)) => defined_by(instructions),
        None => Seq::empty(),
    }
}

/// The label of the block that is open, if it has one.
pub open spec fn open_label(b: Building) -> Option<Label> {
    match b.open {
        Some((Some(l), _)) => Some(l),
        _ => None,
    }
}

/// The identifiers that a graph defines while it is built.
pub open spec fn seen(b: Building) -> Seq<Uid> {
    entry_uids(b) + flat(b.blocks) + open_uids(b)
}

/// Whether each identifier is numbered higher than those before it.
pub open spec fn rising(xs: Seq<Uid>) -> bool {
    forall|i: int, j: int| 0 <= i < j < xs.len() ==> xs[i].index < xs[j].index
}

/// Whether the code from position `i` on defines only identifiers that
/// are numbered higher than all of `xs`.
pub open spec fn ahead(xs: Seq<Uid>, d: Seq<Elt>, i: int) -> bool {
    forall|k: int, j: int|
        0 <= k < xs.len() && i <= j < d.len() && (#[trigger] d[j]) is Ins ==> (#[trigger] xs[k]).index
            < d[j]->Ins_0.index
}

/// Whether the code from position `i` on marks only labels other than
/// `l`.
pub open spec fn unmarked(l: Label, d: Seq<Elt>, i: int) -> bool {
    forall|j: int| i <= j < d.len() && (#[trigger] d[j]) is Label ==> d[j]->Label_0 != l
}

/// What holds of a graph that has taken the first `i` elements of the code
/// `d`: its identifiers rise and are those of the code; its blocks are
/// those of the labels that the code has marked so far, each once; and its
/// terminators branch to labels of the code.
pub open spec fn sound(b: Building, d: Seq<Elt>, i: int) -> bool {
    &&& (b.open matches Some((None, _)) ==> b.entry is None && b.blocks.len() == 0)
    &&& rising(seen(b))
    &&& forall|k: int| 0 <= k < seen(b).len() ==> defines(d, #[trigger] seen(b)[k])
    &&& ahead(seen(b), d, i)
    &&& forall|j: int|
        0 <= j < i && j < d.len() && (#[trigger] d[j]) is Label ==> names(b.blocks).contains(
            d[j]->Label_0,
        ) || open_label(b) == Some(d[j]->Label_0)
    &&& forall|k: int| 0 <= k < b.blocks.len() ==> unmarked((#[trigger] b.blocks[k]).0, d, i)
    &&& (open_label(b) matches Some(l) ==> !names(b.blocks).contains(l) && unmarked(l, d, i))
    &&& forall|k: int| 0 <= k < b.blocks.len() ==> lands(d, (#[trigger] b.blocks[k]).1.terminator.1)
    &&& (b.entry matches Some(e) ==> lands(d, e.terminator.1))
}

/// Ending the open block with a terminator that lands in the code keeps
/// the graph sound, and what it defines.
pub proof fn lemma_close(b: Building, d: Seq<Elt>, i: int, t: LTerminator)
    requires
        sound(b, d, i),
        lands(d, t),
    ensures
        sound(close(b, t), d, i),
        close(b, t).open is None,
        seen(close(b, t)) == seen(b),
{
    let c = close(b, t);
    match b.open {
        None => {},
        Some((None, instructions)) => {
            assert(b.blocks =~= Seq::empty());
            assert(seen(c) =~= seen(b));
            assert(names(c.blocks) =~= names(b.blocks));
        },
        Some((Some(l), instructions)) => {
            let block = LBlock { instructions, terminator: (terminator_uid(), t) };
            lemma_position(names(b.blocks), l);
            assert(position(names(b.blocks), l) is None);
            assert(c.blocks == b.blocks.push((l, block)));
            lemma_defined_push(b.blocks, 0, Seq::empty(), l, block);
            assert(seen(c) =~= seen(b));
            assert(names(c.blocks) =~= names(b.blocks).push(l));
            assert(names(c.blocks)[b.blocks.len() as int] == l);
            assert forall|j: int|
                0 <= j < i && j < d.len() && (#[trigger] d[j]) is Label implies names(
                c.blocks,
            ).contains(d[j]->Label_0) || open_label(c) == Some(d[j]->Label_0) by {
                let x = d[j]->Label_0;
                if names(b.blocks).contains(x) {
                    let k = choose|k: int| 0 <= k < names(b.blocks).len() && names(b.blocks)[k] == x;
                    assert(names(c.blocks)[k] == x);
                } else {
                    assert(x == l);
                }
            }
            assert forall|k: int| 0 <= k < c.blocks.len() implies unmarked(
                (#[trigger] c.blocks[k]).0,
                d,
                i,
            ) && lands(d, c.blocks[k].1.terminator.1) by {
                if k < b.blocks.len() {
                    assert(c.blocks[k] == b.blocks[k]);
                }
            }
        },
    }
}

/// One more element of fine code keeps the graph sound.
pub proof fn lemma_step(b: Building, d: Seq<Elt>, i: int, n: Names, m: Names)
    requires
        fine(d, n, m),
        0 <= i < d.len(),
        sound(b, d, i),
    ensures
        sound(step(b, d[i]), d, i + 1),
{
    let next = step(b, d[i]);
    match d[i] {
        Elt::Ins(u, ins) => {
            match b.open {
                Some((label, instructions)) => {
                    let xs = seen(b);
                    assert(defined_by(instructions.push((u, ins))) =~= defined_by(instructions).push(u));
                    assert(seen(next) =~= xs.push(u));
                    assert(defines(d, u));
                    assert forall|k: int, j: int|
                        0 <= k < seen(next).len() && i + 1 <= j < d.len() && (#[trigger] d[j]) is Ins implies (#[trigger] seen(
                            next,
                        )[k]).index < d[j]->Ins_0.index by {
                        if k < xs.len() {
                            assert(seen(next)[k] == xs[k]);
                        } else {
                            assert(d[i] is Ins);
                        }
                    }
                    assert forall|k: int, j: int| 0 <= k < j < seen(next).len() implies seen(next)[k].index
                        < seen(next)[j].index by {
                        if j < xs.len() {
                        } else {
                            assert(seen(next)[k] == xs[k]);
                            assert(d[i] is Ins);
                        }
                    }
                    assert forall|k: int| 0 <= k < seen(next).len() implies defines(
                        d,
                        #[trigger] seen(next)[k],
                    ) by {
                        if k < xs.len() {
                            assert(seen(next)[k] == xs[k]);
                        }
                    }
                },
                None => {},
            }
        },
        Elt::Term(t) => {
            assert(d[i] is Term);
            lemma_close(b, d, i, t);
        },
        Elt::Label(l) => {
            assert(d[i] is Label);
            assert(marks(d, l));
            let c = close(b, LTerminator::Break(l));
            lemma_close(b, d, i, LTerminator::Break(l));
            assert(open_uids(next) =~= Seq::empty());
            assert(seen(next) =~= seen(c));
            assert(!names(c.blocks).contains(l)) by {
                if names(c.blocks).contains(l) {
                    let k = choose|k: int| 0 <= k < names(c.blocks).len() && names(c.blocks)[k] == l;
                    assert(unmarked(c.blocks[k].0, d, i));
                }
            }
        },
        Elt::Global(_, _, _) => {},
    }
}

/// The rest of fine code keeps the graph sound.
pub proof fn lemma_build(b: Building, d: Seq<Elt>, i: nat, n: Names, m: Names)
    requires
        fine(d, n, m),
        i <= d.len(),
        sound(b, d, i as int),
    ensures
        sound(build_from(d, i, b), d, d.len() as int),
    decreases d.len() - i,
{
    if i < d.len() {
        lemma_step(b, d, i as int, n, m);
        lemma_build(step(b, d[i as int]), d, i + 1, n, m);
    }
}

/// Identifiers that rise do not repeat.
pub proof fn lemma_rising_distinct(xs: Seq<Uid>)
    requires
        rising(xs),
    ensures
        xs.no_duplicates(),
{
    assert forall|i: int, j: int| 0 <= i < xs.len() && 0 <= j < xs.len() && i != j implies xs[i]
        != xs[j] by {
        if i < j {
            assert(xs[i].index < xs[j].index);
        } else {
            assert(xs[j].index < xs[i].index);
        }
    }
}

/// The graph of fine code is closed, and defines each identifier once:
/// where the code ends with a return if it is left open, and the
/// parameters differ from one another and from what the code defines.
pub proof fn lemma_graph(d: Seq<Elt>, fallback: LTerminator, parameters: Seq<Uid>, n: Names, m: Names)
    requires
        fine(d, n, m),
        fallback is Ret,
        parameters.no_duplicates(),
        forall|k: int| 0 <= k < parameters.len() ==> !defines(d, #[trigger] parameters[k]),
    ensures
        closed(graph_of(d, fallback)),
        single_assignment(parameters, graph_of(d, fallback)),
{
    let start = Building { entry: None, blocks: Seq::empty(), open: Some((None, Seq::empty())) };
    assert(flat(start.blocks) =~= Seq::empty());
    assert(seen(start) =~= Seq::empty());
    assert(sound(start, d, 0));
    lemma_build(start, d, 0, n, m);
    let built = build_from(d, 0, start);
    lemma_close(built, d, d.len() as int, fallback);
    let b = close(built, fallback);
    let cfg = graph_of(d, fallback);
    let labels = names(cfg.blocks);
    assert(cfg.blocks == b.blocks);
    assert forall|t: LTerminator| lands(d, t) implies forall|i: int|
        0 <= i < targets(t).len() ==> labels.contains(#[trigger] targets(t)[i]) by {
        assert forall|i: int| 0 <= i < targets(t).len() implies labels.contains(
            #[trigger] targets(t)[i],
        ) by {
            let l = targets(t)[i];
            assert(marks(d, l));
            let j = choose|j: int| 0 <= j < d.len() && #[trigger] d[j] == Elt::Label(l);
            assert(d[j] is Label);
        }
    }
    assert(block_closed(labels, cfg.entry));
    assert forall|i: int| 0 <= i < cfg.blocks.len() implies block_closed(
        labels,
        (#[trigger] cfg.blocks[i]).1,
    ) by {
        assert(lands(d, b.blocks[i].1.terminator.1));
    }
    let first = defined_by(cfg.entry.instructions);
    lemma_defined_after(cfg.blocks, 0, parameters + first);
    assert(first =~= entry_uids(b));
    assert(defined(parameters, cfg) =~= parameters + seen(b));
    lemma_rising_distinct(seen(b));
    vstd::seq_lib::lemma_no_dup_in_concat(parameters, seen(b));
}

} // verus!
