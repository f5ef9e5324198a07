//! The stack frame of a function: where each local identifier lives.
//!
//! Every identifier that a function defines gets a place below the frame
//! pointer, in the order in which the identifiers appear: the parameters
//! first, then what the instructions of the entry block define, then those
//! of the other blocks. An identifier takes one slot of eight bytes. What an
//! `alloca` defines takes as many slots as the type allocated needs, and at
//! least one, and stands for the address of its place, not for what the
//! place holds.

use crate::errors::Error;
use crate::llvmlite::{
    blocks_view, instructions_view, named_types_view, FunctionDecl, Instruction, LBlock, LFunction,
    LInstruction, LType, Label, Tid, TypeContext, Uid,
};
use crate::sizeof::{sizeof, sizeof_spec};
use crate::table::SymbolTable;
use vstd::prelude::*;

verus! {

/// The most slots that a frame may have.
pub const MAX_SLOTS: u64 = 0x0fff_ffff_ffff_ffff;

/// The place of an identifier: its offset from the frame pointer, and
/// whether the identifier stands for the address of the place.
pub type Place = (i64, bool);

/// The model of a frame: the places of the identifiers, and the number of
/// slots taken.
pub struct Frame {
    pub places: Map<Uid, Place>,
    pub count: nat,
}

/// The slots that a value of `size` bytes takes: its size in quad words,
/// rounded up, and at least one.
pub open spec fn slots_for(size: nat) -> nat {
    if size <= 8 {
        1
    } else {
        (size + 7) / 8
    }
}

/// The frame after `uid` got a place of `slots` slots.
pub open spec fn place(frame: Frame, uid: Uid, slots: nat, address: bool) -> Result<Frame, Error> {
    if frame.count + slots > MAX_SLOTS {
        Err(Error::Unsized)
    } else {
        Ok(
            Frame {
                places: frame.places.insert(uid, ((-8 * (frame.count + slots)) as i64, address)),
                count: frame.count + slots,
            },
        )
    }
}

/// The frame after the parameters from position `i` on got their places.
pub open spec fn place_parameters(frame: Frame, parameters: Seq<Uid>, i: nat) -> Result<Frame, Error>
    decreases parameters.len() - i,
{
    if i >= parameters.len() {
        Ok(frame)
    } else {
        match place(frame, parameters[i as int], 1, false) {
            Err(e) => Err(e),
            Ok(f) => place_parameters(f, parameters, i + 1),
        }
    }
}

/// The frame after what an instruction defines got its place.
pub open spec fn place_instruction(
    types: Seq<(Tid, LType)>,
    frame: Frame,
    uid: Uid,
    ins: LInstruction,
) -> Result<Frame, Error> {
    match ins {
        LInstruction::Alloca(t) => match sizeof_spec(types, t) {
            None => Err(Error::Unsized),
            Some(size) => if size > usize::MAX {
                Err(Error::Unsized)
            } else {
                place(frame, uid, slots_for(size), true)
            },
        },
        _ => place(frame, uid, 1, false),
    }
}

/// The frame after what the instructions from position `i` on define got
/// its places.
pub open spec fn place_instructions(
    types: Seq<(Tid, LType)>,
    frame: Frame,
    instructions: Seq<(Uid, LInstruction)>,
    i: nat,
) -> Result<Frame, Error>
    decreases instructions.len() - i,
{
    if i >= instructions.len() {
        Ok(frame)
    } else {
        match place_instruction(types, frame, instructions[i as int].0, instructions[i as int].1) {
            Err(e) => Err(e),
            Ok(f) => place_instructions(types, f, instructions, i + 1),
        }
    }
}

/// The frame after what the blocks from position `i` on define got its
/// places.
pub open spec fn place_blocks(
    types: Seq<(Tid, LType)>,
    frame: Frame,
    blocks: Seq<(Label, LBlock)>,
    i: nat,
) -> Result<Frame, Error>
    decreases blocks.len() - i,
{
    if i >= blocks.len() {
        Ok(frame)
    } else {
        match place_instructions(types, frame, blocks[i as int].1.instructions, 0) {
            Err(e) => Err(e),
            Ok(f) => place_blocks(types, f, blocks, i + 1),
        }
    }
}

/// The frame of a function.
pub open spec fn frame_of(types: Seq<(Tid, LType)>, f: LFunction) -> Result<Frame, Error> {
    match place_parameters(Frame { places: Map::empty(), count: 0 }, f.parameters, 0) {
        Err(e) => Err(e),
        Ok(f1) => match place_instructions(types, f1, f.cfg.entry.instructions, 0) {
            Err(e) => Err(e),
            Ok(f2) => place_blocks(types, f2, f.cfg.blocks, 0),
        },
    }
}

/// The frame of a function, as the code generator holds it.
#[derive(Debug)]
pub struct Layout {
    pub places: SymbolTable<(i64, bool)>,
    pub count: u64,
}

impl View for Layout {
    type V = Frame;

    open spec fn view(&self) -> Frame {
        Frame { places: self.places.map(), count: self.count as nat }
    }
}

/// The frame as a model, or the error.
pub open spec fn frame_view(r: Result<Layout, Error>) -> Result<Frame, Error> {
    match r {
        Ok(l) => Ok(l@),
        Err(e) => Err(e),
    }
}

impl Layout {
    /// A frame without places.
    pub fn new() -> (l: Layout)
        ensures
            l@ == (Frame { places: Map::empty(), count: 0 }),
    {
        let l = Layout { places: SymbolTable::new(), count: 0 };
        assert(l@.places =~= Map::<Uid, Place>::empty());
        l
    }

    /// Gives `uid` a place of `slots` slots.
    pub fn place(self, uid: Uid, slots: u64, address: bool) -> (r: Result<Layout, Error>)
        ensures
            frame_view(r) == place(self@, uid, slots as nat, address),
            r matches Ok(l) ==> l.count <= MAX_SLOTS,
    {
        let Layout { mut places, count } = self;
        if slots > MAX_SLOTS || count > MAX_SLOTS - slots {
            return Err(Error::Unsized);
        }
        let total = count + slots;
        let offset: i64 = -8 * (total as i64);
        places.put(uid, (offset, address));
        Ok(Layout { places, count: total })
    }

    /// The place of `uid`.
    pub fn lookup(&self, uid: Uid) -> (r: Option<(i64, bool)>)
        ensures
            match r {
                Some(p) => self@.places.contains_key(uid) && self@.places[uid] == p,
                None => !self@.places.contains_key(uid),
            },
    {
        match self.places.find(uid) {
            Some(p) => Some(*p),
            None => None,
        }
    }
}

/// The slots that a value of `size` bytes takes.
pub fn slots_needed(size: usize) -> (r: u64)
    ensures
        r == slots_for(size as nat),
{
    if size <= 8 {
        1
    } else {
        (size as u64 - 1) / 8 + 1
    }
}

/// Gives what the instructions define its places.
pub fn layout_instructions(types: &TypeContext, layout: Layout, instructions: &Vec<(Uid, Instruction)>) -> (r:
    Result<Layout, Error>)
    ensures
        frame_view(r) == place_instructions(
            named_types_view(*types),
            layout@,
            instructions_view(instructions@),
            0,
        ),
        layout.count <= MAX_SLOTS ==> (r matches Ok(l) ==> l.count <= MAX_SLOTS),
{
    let ghost tv = named_types_view(*types);
    let ghost iv = instructions_view(instructions@);
    let ghost start = layout@;
    let mut current = layout;
    let mut i: usize = 0;
    while i < instructions.len()
        invariant
            i <= instructions.len(),
            tv == named_types_view(*types),
            iv == instructions_view(instructions@),
            start == layout@,
            layout.count <= MAX_SLOTS ==> current.count <= MAX_SLOTS,
            place_instructions(tv, start, iv, 0) == place_instructions(tv, current@, iv, i as nat),
        decreases instructions.len() - i,
    {
        let uid = instructions[i].0;
        let placed = match &instructions[i].1 {
            Instruction::Alloca(t) => match sizeof(types, t) {
                None => Err(Error::Unsized),
                Some(size) => current.place(uid, slots_needed(size), true),
            },
            _ => current.place(uid, 1, false),
        };
        match placed {
            Err(e) => { return Err(e); },
            Ok(l) => {
                current = l;
            },
        }
        i += 1;
    }
    Ok(current)
}

/// The frame of a function.
#[verifier::loop_isolation(false)]
pub fn layout_function(types: &TypeContext, f: &FunctionDecl) -> (r: Result<Layout, Error>)
    ensures
        frame_view(r) == frame_of(named_types_view(*types), f@),
        r matches Ok(l) ==> l.count <= MAX_SLOTS,
{
    let ghost tv = named_types_view(*types);
    let mut current = Layout::new();
    let ghost start = current@;
    let mut i: usize = 0;
    while i < f.parameters.len()
        invariant
            i <= f.parameters.len(),
            current.count <= MAX_SLOTS,
            place_parameters(start, f.parameters@, 0) == place_parameters(
                current@,
                f.parameters@,
                i as nat,
            ),
        decreases f.parameters.len() - i,
    {
        match current.place(f.parameters[i], 1, false) {
            Err(e) => { return Err(e); },
            Ok(l) => {
                current = l;
            },
        }
        i += 1;
    }
    let mut current = match layout_instructions(types, current, &f.cfg.entry.instructions) {
        Ok(l) => l,
        Err(e) => { return Err(e); },
    };
    let ghost after_entry = current@;
    let ghost blocks = f@.cfg.blocks;
    let n = f.cfg.blocks.len();
    let mut j: usize = 0;
    while j < n
        invariant
            j <= n,
            n == blocks.len(),
            blocks == blocks_view(f.cfg.blocks),
            tv == named_types_view(*types),
            f.cfg.blocks.wf(),
            current.count <= MAX_SLOTS,
            place_blocks(tv, after_entry, blocks, 0) == place_blocks(tv, current@, blocks, j as nat),
        decreases n - j,
    {
        match f.cfg.blocks.get_index(j) {
            Some((_, b)) => {
                match layout_instructions(types, current, &b.instructions) {
                    Err(e) => { return Err(e); },
                    Ok(l) => {
                        current = l;
                    },
                }
            },
            None => {
                return Err(Error::Unsized);
            },
        }
        j += 1;
    }
    Ok(current)
}

} // verus!
