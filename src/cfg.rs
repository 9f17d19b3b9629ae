use vstd::prelude::*;

verus! {

/// Size in bytes of the zero-initialised tape that a compiled program works on.
pub const TAPE_LEN: usize = 30000;

/// Status that the compiled entry function returns.
pub const SUCCESS_CODE: i32 = 0;

/// A straight-line operation of a basic block.
///
/// Operations work on the tape cursor and on one byte register, `acc`, which a `Load` or a
/// `GetByte` fills and the other byte operations read.
#[derive(Debug, Clone, Copy, PartialEq, Eq, Structural)]
pub enum Op {
    /// cursor <- cursor + n
    CursorAdd(usize),
    /// cursor <- cursor - n
    CursorSub(usize),
    /// acc <- tape[cursor]
    Load,
    /// acc <- acc + k, modulo 256
    AddByte(u8),
    /// acc <- acc - k, modulo 256
    SubByte(u8),
    /// tape[cursor] <- acc
    Store,
    /// calls the output primitive with acc
    PutByte,
    /// acc <- the input primitive's byte
    GetByte,
}

/// How a basic block ends.
#[derive(Debug, Clone, Copy, PartialEq, Eq, Structural)]
pub enum Terminator {
    /// Unconditional jump to a block.
    Jump(usize),
    /// Goes to `nonzero` when acc is not zero, else to `zero`.
    Branch { nonzero: usize, zero: usize },
    /// Returns the status code from the entry function.
    Return(i32),
}

/// A basic block: operations, then one terminator.
#[derive(Debug, PartialEq, Eq)]
pub struct Block {
    pub ops: Vec<Op>,
    pub term: Terminator,
}

/// The model of a block.
pub type BlockModel = (Seq<Op>, Terminator);

impl View for Block {
    type V = BlockModel;

    open spec fn view(&self) -> BlockModel {
        (self.ops@, self.term)
    }
}

/// A control-flow graph of one function; blocks are named by their index, and block 0 is
/// the entry.
#[derive(Debug, PartialEq, Eq)]
pub struct Cfg {
    pub blocks: Vec<Block>,
}

/// The models of a sequence of blocks.
pub open spec fn blocks_model(bs: Seq<Block>) -> Seq<BlockModel> {
    bs.map_values(|b: Block| b@)
}

/// Appending a block appends its model.
pub proof fn lemma_blocks_model_push(bs: Seq<Block>, b: Block)
    ensures
        blocks_model(bs.push(b)) == blocks_model(bs).push(b@),
{
    assert(blocks_model(bs.push(b)) =~= blocks_model(bs).push(b@));
}

impl View for Cfg {
    type V = Seq<BlockModel>;

    open spec fn view(&self) -> Seq<BlockModel> {
        blocks_model(self.blocks@)
    }
}

impl Cfg {
    /// The entry block.
    pub fn entry(&self) -> (r: usize)
        ensures
            r == 0,
    {
        0
    }

    /// The number of blocks.
    pub fn block_count(&self) -> (r: usize)
        ensures
            r == self@.len(),
    {
        self.blocks.len()
    }
}

} // verus!
