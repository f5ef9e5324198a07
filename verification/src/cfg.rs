//! From streams of code to control flow graphs, and the two properties that
//! a graph must have: every branch goes to a block of the graph, and no
//! local identifier is defined twice.

use crate::compile::{elements_view, Element};
use crate::llvmlite::{
    blocks_view, instructions_view, Block, ControlFlowGraph, Gid, GlobalDeclaration, Instruction,
    LBlock, LCfg, LInit, LInstruction, LTerminator, LType, Label, Terminator, Uid,
};
use crate::lower::Elt;
use crate::symbol::Symbol;
use crate::table::{all_distinct, lemma_position, position, SymbolTable};
use crate::typecontext::names;
use vstd::prelude::*;

verus! {

/// A graph while it is built: the entry block and the labelled blocks that
/// are complete, and the block that is open, with its label, if it has one,
/// and its instructions so far.
pub struct Building {
    pub entry: Option<LBlock>,
    pub blocks: Seq<(Label, LBlock)>,
    pub open: Option<(Option<Label>, Seq<(Uid, LInstruction)>)>,
}

/// The blocks after the block `block` was added under `label`: a label that
/// is there keeps its place and gets the new block.
pub open spec fn insert_block(blocks: Seq<(Label, LBlock)>, label: Label, block: LBlock) -> Seq<
    (Label, LBlock),
> {
    match position(names(blocks), label) {
        Some(i) => blocks.update(i as int, (label, block)),
        None => blocks.push((label, block)),
    }
}

/// The identifier that terminators carry. They define nothing.
pub open spec fn terminator_uid() -> Uid {
    Symbol { index: 0 }
}

/// Ends the open block with the terminator `t`. Without an open block
/// nothing changes.
pub open spec fn close(b: Building, t: LTerminator) -> Building {
    match b.open {
        None => b,
        Some((label, instructions)) => {
            let block = LBlock { instructions, terminator: (terminator_uid(), t) };
            match label {
                None => Building { entry: Some(block), blocks: b.blocks, open: None },
                Some(l) => Building {
                    entry: b.entry,
                    blocks: insert_block(b.blocks, l, block),
                    open: None,
                },
            }
        },
    }
}

/// Takes one element of the stream: an instruction joins the open block, a
/// terminator ends it, and a label ends it with a branch to the label and
/// opens the block of the label. Instructions and terminators that no block
/// is open for cannot be reached, and are dropped.
pub open spec fn step(b: Building, e: Elt) -> Building {
    match e {
        Elt::Ins(u, ins) => match b.open {
            Some((label, instructions)) => Building {
                entry: b.entry,
                blocks: b.blocks,
                open: Some((label, instructions.push((u, ins)))),
            },
            None => b,
        },
        Elt::Term(t) => close(b, t),
        Elt::Label(l) => {
            let c = close(b, LTerminator::Break(l));
            Building { entry: c.entry, blocks: c.blocks, open: Some((Some(l), Seq::empty())) }
        },
        Elt::Global(_, _, _) => b,
    }
}

/// Takes the elements of the stream from position `i` on.
pub open spec fn build_from(stream: Seq<Elt>, i: nat, b: Building) -> Building
    decreases stream.len() - i,
{
    if i >= stream.len() {
        b
    } else {
        build_from(stream, i + 1, step(b, stream[i as int]))
    }
}

/// The graph of a stream of code. The stream starts in the entry block.
/// A block that is open at the end of the stream ends with `fallback`.
pub open spec fn graph_of(stream: Seq<Elt>, fallback: LTerminator) -> LCfg {
    let b = close(
        build_from(
            stream,
            0,
            Building { entry: None, blocks: Seq::empty(), open: Some((None, Seq::empty())) },
        ),
        fallback,
    );
    LCfg {
        entry: match b.entry {
            Some(e) => e,
            None => LBlock { instructions: Seq::empty(), terminator: (terminator_uid(), fallback) },
        },
        blocks: b.blocks,
    }
}

/// The globals that the stream holds from position `i` on, after the
/// globals `acc`.
pub open spec fn globals_of(stream: Seq<Elt>, i: nat, acc: Seq<(Gid, (LType, LInit))>) -> Seq<
    (Gid, (LType, LInit)),
>
    decreases stream.len() - i,
{
    if i >= stream.len() {
        acc
    } else {
        match stream[i as int] {
            Elt::Global(g, t, init) => globals_of(stream, i + 1, acc.push((g, (t, init)))),
            _ => globals_of(stream, i + 1, acc),
        }
    }
}

/// The labels that a terminator may branch to.
pub open spec fn targets(t: LTerminator) -> Seq<Label> {
    match t {
        LTerminator::Ret(_, _) => Seq::empty(),
        LTerminator::Break(l) => seq![l],
        LTerminator::CondBreak(_, l1, l2) => seq![l1, l2],
    }
}

/// Whether the terminator of the block branches only to blocks among those
/// labelled `labels`.
pub open spec fn block_closed(labels: Seq<Label>, b: LBlock) -> bool {
    forall|i: int| 0 <= i < targets(b.terminator.1).len() ==> labels.contains(#[trigger] targets(b.terminator.1)[i])
}

/// Whether the graph is closed: every terminator branches to blocks of the
/// graph.
pub open spec fn closed(cfg: LCfg) -> bool {
    &&& block_closed(names(cfg.blocks), cfg.entry)
    &&& forall|i: int|
        0 <= i < cfg.blocks.len() ==> block_closed(names(cfg.blocks), (#[trigger] cfg.blocks[i]).1)
}

/// The identifiers that the instructions define.
pub open spec fn defined_by(instructions: Seq<(Uid, LInstruction)>) -> Seq<Uid> {
    Seq::new(instructions.len(), |i: int| instructions[i].0)
}

/// The identifiers that the blocks from position `i` on define, after the
/// identifiers `acc`.
pub open spec fn defined_from(blocks: Seq<(Label, LBlock)>, i: nat, acc: Seq<Uid>) -> Seq<Uid>
    decreases blocks.len() - i,
{
    if i >= blocks.len() {
        acc
    } else {
        defined_from(blocks, i + 1, acc + defined_by(blocks[i as int].1.instructions))
    }
}

/// The identifiers that a function defines: its parameters, and what the
/// instructions of its blocks define, the entry block first.
pub open spec fn defined(parameters: Seq<Uid>, cfg: LCfg) -> Seq<Uid> {
    defined_from(cfg.blocks, 0, parameters + defined_by(cfg.entry.instructions))
}

/// Whether each identifier of the function is defined once only.
pub open spec fn single_assignment(parameters: Seq<Uid>, cfg: LCfg) -> bool {
    defined(parameters, cfg).no_duplicates()
}

/// The graph while it is built by the pass.
struct Builder {
    entry: Option<Block>,
    blocks: SymbolTable<Block>,
    open: Option<(Option<Label>, Vec<(Uid, Instruction)>)>,
}

impl Builder {
    spec fn model(&self) -> Building {
        Building {
            entry: match self.entry {
                Some(b) => Some(b@),
                None => None,
            },
            blocks: blocks_view(self.blocks),
            open: match self.open {
                Some((label, instructions)) => Some((label, instructions_view(instructions@))),
                None => None,
            },
        }
    }

    fn close(self, t: Terminator) -> (r: Builder)
        ensures
            r.model() == close(self.model(), t@),
    {
        let Builder { entry, blocks, open } = self;
        match open {
            None => Builder { entry, blocks, open: None },
            Some((label, instructions)) => {
                let block = Block { instructions, terminator: (Symbol { index: 0 }, t) };
                match label {
                    None => Builder { entry: Some(block), blocks, open: None },
                    Some(l) => {
                        let mut blocks = blocks;
                        let _ = blocks.len();
                        let ghost before = blocks;
                        let ghost bv = block@;
                        assert(names(blocks_view(before)) =~= before.keys());
                        proof {
                            lemma_position(before.keys(), l);
                        }
                        blocks.insert(l, block);
                        assert(blocks_view(blocks) =~= insert_block(blocks_view(before), l, bv));
                        Builder { entry, blocks, open: None }
                    },
                }
            },
        }
    }

    fn step(self, e: Element) -> (r: (Builder, Option<(Gid, GlobalDeclaration)>))
        ensures
            r.0.model() == step(self.model(), e@),
            match r.1 {
                Some((g, d)) => e@ == Elt::Global(g, d.0@, d.1@),
                None => !(e@ is Global),
            },
    {
        match e {
            Element::Ins(u, ins) => {
                let Builder { entry, blocks, open } = self;
                match open {
                    Some((label, instructions)) => {
                        let mut instructions = instructions;
                        let ghost before = instructions_view(instructions@);
                        let ghost iv = ins@;
                        instructions.push((u, ins));
                        assert(instructions_view(instructions@) =~= before.push((u, iv)));
                        (Builder { entry, blocks, open: Some((label, instructions)) }, None)
                    },
                    None => (Builder { entry, blocks, open: None }, None),
                }
            },
            Element::Term(t) => (self.close(t), None),
            Element::Label(l) => {
                let Builder { entry, blocks, open } = self.close(Terminator::Break(l));
                let fresh: Vec<(Uid, Instruction)> = Vec::new();
                assert(instructions_view(fresh@) =~= Seq::empty());
                (Builder { entry, blocks, open: Some((Some(l), fresh)) }, None)
            },
            Element::Global(g, t, init) => (self, Some((g, GlobalDeclaration(t, init)))),
        }
    }
}

/// The models of a list of globals.
pub open spec fn globals_view(globals: Seq<(Gid, GlobalDeclaration)>) -> Seq<(Gid, (LType, LInit))> {
    Seq::new(globals.len(), |i: int| (globals[i].0, (globals[i].1.0@, globals[i].1.1@)))
}

/// Builds the graph of a stream of code, and collects the globals that the
/// stream holds.
pub fn build(stream: Vec<Element>, fallback: Terminator) -> (r: (
    ControlFlowGraph,
    Vec<(Gid, GlobalDeclaration)>,
))
    ensures
        r.0@ == graph_of(elements_view(stream@), fallback@),
        globals_view(r.1@) == globals_of(elements_view(stream@), 0, Seq::empty()),
{
    let ghost code = elements_view(stream@);
    let first: Vec<(Uid, Instruction)> = Vec::new();
    assert(instructions_view(first@) =~= Seq::empty());
    let mut builder = Builder { entry: None, blocks: SymbolTable::new(), open: Some((None, first)) };
    assert(blocks_view(builder.blocks) =~= Seq::empty());
    let mut globals: Vec<(Gid, GlobalDeclaration)> = Vec::new();
    assert(globals_view(globals@) =~= Seq::empty());
    let ghost start = builder.model();
    for e in it: stream
        invariant
            it.seq() == stream@,
            code == elements_view(stream@),
            build_from(code, 0, start) == build_from(code, it.index() as nat, builder.model()),
            globals_of(code, 0, Seq::empty()) == globals_of(
                code,
                it.index() as nat,
                globals_view(globals@),
            ),
    {
        assert(code[it.index() as int] == e@);
        let (b, g) = builder.step(e);
        builder = b;
        match g {
            Some(g) => {
                let ghost before = globals_view(globals@);
                let ghost gv = (g.0, (g.1.0@, g.1.1@));
                globals.push(g);
                assert(globals_view(globals@) =~= before.push(gv));
            },
            None => {},
        }
    }
    let ghost fv = fallback@;
    let spare = Block { instructions: Vec::new(), terminator: (Symbol { index: 0 }, clone_terminator(&fallback)) };
    assert(spare@.instructions =~= Seq::empty());
    let Builder { entry, blocks, open: _ } = builder.close(fallback);
    let cfg = ControlFlowGraph {
        entry: match entry {
            Some(e) => e,
            None => spare,
        },
        blocks,
    };
    (cfg, globals)
}

/// A copy of a terminator.
pub fn clone_terminator(t: &Terminator) -> (r: Terminator)
    ensures
        r@ == t@,
{
    match t {
        Terminator::Ret(ty, v) => Terminator::Ret(crate::llvmlite::clone_type(ty), *v),
        Terminator::Break(l) => Terminator::Break(*l),
        Terminator::CondBreak(c, l1, l2) => Terminator::CondBreak(*c, *l1, *l2),
    }
}

/// Whether the block branches only to blocks of the table.
fn is_block_closed(blocks: &SymbolTable<Block>, b: &Block) -> (r: bool)
    ensures
        r == block_closed(names(blocks_view(*blocks)), b@),
{
    assert(names(blocks_view(*blocks)) =~= blocks.keys());
    let ghost labels = blocks.keys();
    match &b.terminator.1 {
        Terminator::Ret(_, _) => true,
        Terminator::Break(l) => {
            let found = blocks.get_full(*l).is_some();
            assert(targets(b@.terminator.1)[0] == *l);
            found
        },
        Terminator::CondBreak(_, l1, l2) => {
            let first = blocks.get_full(*l1).is_some();
            let second = blocks.get_full(*l2).is_some();
            assert(targets(b@.terminator.1)[0] == *l1);
            assert(targets(b@.terminator.1)[1] == *l2);
            first && second
        },
    }
}

/// Whether the graph is closed.
pub fn is_closed(cfg: &ControlFlowGraph) -> (r: bool)
    ensures
        r == closed(cfg@),
{
    if !is_block_closed(&cfg.blocks, &cfg.entry) {
        return false;
    }
    let n = cfg.blocks.len();
    let ghost labels = names(cfg@.blocks);
    let mut i: usize = 0;
    while i < n
        invariant
            i <= n,
            n == cfg@.blocks.len(),
            labels == names(cfg@.blocks),
            cfg.blocks.wf(),
            forall|j: int| 0 <= j < i ==> block_closed(labels, (#[trigger] cfg@.blocks[j]).1),
        decreases n - i,
    {
        match cfg.blocks.get_index(i) {
            Some((_, b)) => {
                if !is_block_closed(&cfg.blocks, b) {
                    assert(!block_closed(labels, cfg@.blocks[i as int].1));
                    return false;
                }
            },
            None => {},
        }
        i += 1;
    }
    true
}

/// Appends to `uids` the identifiers that the instructions define.
fn collect(uids: &mut Vec<Uid>, instructions: &Vec<(Uid, Instruction)>)
    ensures
        final(uids)@ == old(uids)@ + defined_by(instructions_view(instructions@)),
{
    let ghost start = uids@;
    let ghost all = defined_by(instructions_view(instructions@));
    let mut i: usize = 0;
    while i < instructions.len()
        invariant
            i <= instructions.len(),
            all == defined_by(instructions_view(instructions@)),
            uids@ == start + all.subrange(0, i as int),
        decreases instructions.len() - i,
    {
        uids.push(instructions[i].0);
        assert(uids@ =~= start + all.subrange(0, i + 1));
        i += 1;
    }
    assert(all.subrange(0, all.len() as int) =~= all);
}

/// Whether each identifier of a function with the parameters and the graph
/// given is defined once only.
pub fn is_single_assignment(parameters: &Vec<Uid>, cfg: &ControlFlowGraph) -> (r: bool)
    ensures
        r == single_assignment(parameters@, cfg@),
{
    let mut uids: Vec<Uid> = Vec::new();
    let mut i: usize = 0;
    while i < parameters.len()
        invariant
            i <= parameters.len(),
            uids@ == parameters@.subrange(0, i as int),
        decreases parameters.len() - i,
    {
        uids.push(parameters[i]);
        assert(uids@ =~= parameters@.subrange(0, i + 1));
        i += 1;
    }
    assert(uids@ =~= parameters@);
    collect(&mut uids, &cfg.entry.instructions);
    let n = cfg.blocks.len();
    let ghost blocks = cfg@.blocks;
    let mut j: usize = 0;
    while j < n
        invariant
            j <= n,
            n == blocks.len(),
            blocks == cfg@.blocks,
            cfg.blocks.wf(),
            defined(parameters@, cfg@) == defined_from(blocks, j as nat, uids@),
        decreases n - j,
    {
        match cfg.blocks.get_index(j) {
            Some((_, b)) => {
                collect(&mut uids, &b.instructions);
            },
            None => {},
        }
        j += 1;
    }
    all_distinct(&uids)
}

} // verus!
