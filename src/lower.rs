use vstd::prelude::*;
use crate::cfg::{blocks_model, lemma_blocks_model_push, Block, BlockModel, Cfg, Op, Terminator, SUCCESS_CODE};
use crate::parse::{Program, Token};

verus! {

/// Why a program cannot be lowered.
#[derive(Debug, Clone, Copy, PartialEq, Eq, Structural)]
pub enum LowerError {
    /// A `LoopEnd` with no open loop; carries the token's index.
    UnbalancedLoop(usize),
    /// A `LoopStart` still open after the last token; carries the index of the innermost one.
    UnclosedLoop(usize),
}

/// The operations that a non-bracket token appends to the current block.
pub open spec fn ops_for(t: Token) -> Seq<Op> {
    match t {
        Token::Right(n) => seq![Op::CursorAdd(n)],
        Token::Left(n) => seq![Op::CursorSub(n)],
        Token::Increment(n) => seq![Op::Load, Op::AddByte((n % 256) as u8), Op::Store],
        Token::Decrement(n) => seq![Op::Load, Op::SubByte((n % 256) as u8), Op::Store],
        Token::Output => seq![Op::Load, Op::PutByte],
        Token::Input => seq![Op::GetByte, Op::Store],
        Token::LoopStart => seq![],
        Token::LoopEnd => seq![],
    }
}

/// The state of lowering between two tokens.
pub struct Lowering {
    /// The finished blocks, in creation order.
    pub done: Seq<BlockModel>,
    /// The operations of the current block, whose index is `done.len()`.
    pub current: Seq<Op>,
    /// The open loops, innermost last: header block and index of the `LoopStart` token.
    pub loops: Seq<(usize, usize)>,
}

/// The state before the first token: an empty entry block and no open loop.
pub open spec fn initial() -> Lowering {
    Lowering { done: seq![], current: seq![], loops: seq![] }
}

/// The effect of the token `t`, at index `i`, on the lowering state.
pub open spec fn step(st: Lowering, t: Token, i: int) -> Result<Lowering, LowerError> {
    let next = (st.done.len() + 1) as usize;
    match t {
        Token::LoopStart => Ok(
            Lowering {
                done: st.done.push((st.current, Terminator::Jump(next))),
                current: seq![],
                loops: st.loops.push((next, i as usize)),
            },
        ),
        Token::LoopEnd => if st.loops.len() == 0 {
            Err(LowerError::UnbalancedLoop(i as usize))
        } else {
            Ok(
                Lowering {
                    done: st.done.push(
                        (
                            st.current.push(Op::Load),
                            Terminator::Branch { nonzero: st.loops.last().0, zero: next },
                        ),
                    ),
                    current: seq![],
                    loops: st.loops.drop_last(),
                },
            )
        },
        _ => Ok(Lowering { done: st.done, current: st.current + ops_for(t), loops: st.loops }),
    }
}

/// The lowering state after all of `toks`, or the first error.
pub open spec fn run(toks: Seq<Token>) -> Result<Lowering, LowerError>
    decreases toks.len(),
{
    if toks.len() == 0 {
        Ok(initial())
    } else {
        match run(toks.drop_last()) {
            Ok(st) => step(st, toks.last(), toks.len() - 1),
            Err(e) => Err(e),
        }
    }
}

/// The control-flow graph of a token sequence: the blocks of the pass, the last one ending in
/// a return of the success code, provided that no loop is left open.
pub open spec fn lower_spec(toks: Seq<Token>) -> Result<Seq<BlockModel>, LowerError> {
    match run(toks) {
        Err(e) => Err(e),
        Ok(st) => if st.loops.len() > 0 {
            Err(LowerError::UnclosedLoop(st.loops.last().1))
        } else {
            Ok(st.done.push((st.current, Terminator::Return(SUCCESS_CODE))))
        },
    }
}

/// The number of `LoopStart` tokens.
pub open spec fn loop_starts(toks: Seq<Token>) -> nat
    decreases toks.len(),
{
    if toks.len() == 0 {
        0
    } else {
        loop_starts(toks.drop_last()) + if toks.last() == Token::LoopStart {
            1nat
        } else {
            0nat
        }
    }
}

/// The number of `LoopEnd` tokens.
pub open spec fn loop_ends(toks: Seq<Token>) -> nat
    decreases toks.len(),
{
    if toks.len() == 0 {
        0
    } else {
        loop_ends(toks.drop_last()) + if toks.last() == Token::LoopEnd {
            1nat
        } else {
            0nat
        }
    }
}

/// No prefix of the tokens closes more loops than it opens.
pub open spec fn never_underflows(toks: Seq<Token>) -> bool {
    forall|k: int| 0 <= k <= toks.len() ==> loop_ends(#[trigger] toks.take(k)) <= loop_starts(toks.take(k))
}

/// Every loop is closed, and no loop is closed before it is opened.
pub open spec fn balanced(toks: Seq<Token>) -> bool {
    never_underflows(toks) && loop_ends(toks) == loop_starts(toks)
}

/// The pass over a token sequence goes through exactly when no prefix underflows; the state
/// then holds one finished block per bracket and one open loop per unclosed `LoopStart`.
proof fn lemma_run_shape(toks: Seq<Token>)
    ensures
        run(toks) is Ok <==> never_underflows(toks),
        run(toks) is Ok ==> run(toks)->Ok_0.done.len() == loop_starts(toks) + loop_ends(toks)
            && run(toks)->Ok_0.loops.len() + loop_ends(toks) == loop_starts(toks),
    decreases toks.len(),
{
    if toks.len() == 0 {
        assert(toks.take(0) =~= toks);
    } else {
        let pre = toks.drop_last();
        lemma_run_shape(pre);
        assert(toks.take(toks.len() as int) =~= toks);
        assert forall|k: int| 0 <= k <= pre.len() implies #[trigger] pre.take(k) == toks.take(k) by {
            assert(pre.take(k) =~= toks.take(k));
        }
        if never_underflows(toks) {
            assert forall|k: int| 0 <= k <= pre.len() implies loop_ends(#[trigger] pre.take(k))
                <= loop_starts(pre.take(k)) by {
                assert(pre.take(k) == toks.take(k));
            }
        }
        if never_underflows(pre) && loop_ends(toks) <= loop_starts(toks) {
            assert forall|k: int| 0 <= k <= toks.len() implies loop_ends(#[trigger] toks.take(k))
                <= loop_starts(toks.take(k)) by {
                if k < toks.len() {
                    assert(pre.take(k) == toks.take(k));
                }
            }
        }
    }
}

/// A token sequence lowers to a control-flow graph exactly when its loops are balanced.
pub proof fn lemma_lowering_succeeds_iff_balanced(toks: Seq<Token>)
    ensures
        lower_spec(toks) is Ok <==> balanced(toks),
{
    lemma_run_shape(toks);
}

/// A balanced program lowers to one entry block plus a header and an exit block per loop, and
/// leaves no loop open at the end of the pass.
pub proof fn lemma_balanced_block_count(toks: Seq<Token>)
    requires
        balanced(toks),
    ensures
        lower_spec(toks) is Ok,
        lower_spec(toks)->Ok_0.len() == 1 + 2 * loop_starts(toks),
        run(toks) is Ok,
        run(toks)->Ok_0.loops.len() == 0,
{
    lemma_run_shape(toks);
}

/// Lowering fails with `UnbalancedLoop` at the first token where more loops have been closed
/// than opened.
pub proof fn lemma_unbalanced_at_first_underflow(toks: Seq<Token>, i: int)
    requires
        0 <= i < toks.len(),
        never_underflows(toks.take(i)),
        loop_ends(toks.take(i + 1)) > loop_starts(toks.take(i + 1)),
    ensures
        lower_spec(toks) == Err::<Seq<BlockModel>, LowerError>(LowerError::UnbalancedLoop(i as usize)),
{
    let pre = toks.take(i);
    lemma_run_shape(pre);
    assert(toks.take(i + 1).drop_last() =~= pre);
    assert(pre.take(i) =~= pre);
    lemma_run_err_extends(toks, i + 1);
}

/// Block `b` ends by going on to block `b + 1`: by a jump, or by a branch whose other target
/// is an earlier loop header, that is a block entered by a jump from the block before it.
pub open spec fn falls_through(blocks: Seq<BlockModel>, b: int) -> bool {
    match blocks[b].1 {
        Terminator::Jump(t) => t == b + 1,
        Terminator::Branch { nonzero: h, zero: z } => z == b + 1 && 1 <= h <= b && blocks[h
            - 1].1 == Terminator::Jump(h),
        Terminator::Return(_) => false,
    }
}

/// The edges of a lowered graph: every block but the last falls through to its successor, and
/// the last one returns the success code.
pub open spec fn edges_resolved(blocks: Seq<BlockModel>) -> bool {
    &&& blocks.len() >= 1
    &&& blocks.last().1 == Terminator::Return(SUCCESS_CODE)
    &&& forall|b: int| 0 <= b < blocks.len() - 1 ==> #[trigger] falls_through(blocks, b)
}

/// What holds of the lowering state after any prefix that goes through.
pub open spec fn state_resolved(st: Lowering) -> bool {
    &&& forall|b: int| 0 <= b < st.done.len() ==> #[trigger] falls_through(st.done, b)
    &&& forall|j: int|
        0 <= j < st.loops.len() ==> 1 <= (#[trigger] st.loops[j]).0 <= st.done.len()
            && st.done[st.loops[j].0 - 1].1 == Terminator::Jump(st.loops[j].0)
}

/// After any prefix that goes through, the finished blocks fall through and every open loop
/// names a header entered by a jump.
proof fn lemma_run_resolved(toks: Seq<Token>)
    requires
        toks.len() <= usize::MAX,
        run(toks) is Ok,
    ensures
        state_resolved(run(toks)->Ok_0),
        run(toks)->Ok_0.done.len() <= toks.len(),
    decreases toks.len(),
{
    if toks.len() > 0 {
        let pre = toks.drop_last();
        lemma_run_resolved(pre);
        let st = run(pre)->Ok_0;
        let nx = run(toks)->Ok_0;
        let t = toks.last();
        if t == Token::LoopStart || t == Token::LoopEnd {
            assert(nx.done == st.done.push(nx.done.last()));
            assert forall|b: int| 0 <= b < nx.done.len() implies #[trigger] falls_through(
                nx.done,
                b,
            ) by {
                if b < st.done.len() {
                    assert(falls_through(st.done, b));
                }
            }
            assert forall|j: int| 0 <= j < nx.loops.len() implies 1 <= (
            #[trigger] nx.loops[j]).0 <= nx.done.len() && nx.done[nx.loops[j].0 - 1].1
                == Terminator::Jump(nx.loops[j].0) by {
                if j < st.loops.len() {
                    assert(nx.loops[j] == st.loops[j]);
                }
            }
        }
    }
}

/// Every control-flow graph that lowering produces has its edges resolved: each block
/// but the last falls through to the next one, each loop's branch goes back to its header,
/// and the last block returns the success code.
pub proof fn lemma_lowered_edges_resolved(toks: Seq<Token>)
    requires
        toks.len() <= usize::MAX,
        lower_spec(toks) is Ok,
    ensures
        edges_resolved(lower_spec(toks)->Ok_0),
{
    lemma_run_resolved(toks);
    let st = run(toks)->Ok_0;
    let blocks = lower_spec(toks)->Ok_0;
    assert forall|b: int| 0 <= b < blocks.len() - 1 implies #[trigger] falls_through(
        blocks,
        b,
    ) by {
        assert(falls_through(st.done, b));
    }
}

/// Once a prefix of the tokens fails, the whole pass fails with the same error.
proof fn lemma_run_err_extends(toks: Seq<Token>, k: int)
    requires
        0 <= k <= toks.len(),
        run(toks.take(k)) is Err,
    ensures
        run(toks) == run(toks.take(k)),
    decreases toks.len() - k,
{
    if k < toks.len() {
        assert(toks.take(k + 1).drop_last() =~= toks.take(k));
        lemma_run_err_extends(toks, k + 1);
    } else {
        assert(toks.take(k) =~= toks);
    }
}

/// Drives the lowering of one program.
pub struct CodeGen {
    pub program: Program,
}

impl CodeGen {
    /// Takes ownership of the program to lower.
    pub fn new(program: Program) -> (r: CodeGen)
        ensures
            r.program.tokens@ == program.tokens@,
    {
        CodeGen { program }
    }

    /// Lowers the program to a control-flow graph in one pass.
    pub fn lower(&self) -> (r: Result<Cfg, LowerError>)
        ensures
            r is Ok ==> lower_spec(self.program.tokens@) == Ok::<Seq<BlockModel>, LowerError>(
                r->Ok_0@,
            ),
            r is Err ==> lower_spec(self.program.tokens@) == Err::<Seq<BlockModel>, LowerError>(
                r->Err_0,
            ),
    {
        let toks = &self.program.tokens;
        let mut blocks: Vec<Block> = Vec::new();
        let mut current: Vec<Op> = Vec::new();
        let mut loops: Vec<(usize, usize)> = Vec::new();
        let mut i: usize = 0;
        proof {
            assert(toks@.take(0) =~= Seq::<Token>::empty());
            assert(blocks_model(blocks@) =~= Seq::<BlockModel>::empty());
        }
        while i < toks.len()
            invariant
                toks@ == self.program.tokens@,
                i <= toks@.len(),
                blocks@.len() <= i,
                run(toks@.take(i as int)) == Ok::<Lowering, LowerError>(
                    Lowering { done: blocks_model(blocks@), current: current@, loops: loops@ },
                ),
            decreases toks@.len() - i,
        {
            proof {
                assert(toks@.take(i + 1).drop_last() =~= toks@.take(i as int));
            }
            let t = toks[i];
            let next = blocks.len() + 1;
            match t {
                Token::LoopStart => {
                    let ops = current;
                    current = Vec::new();
                    let b = Block { ops, term: Terminator::Jump(next) };
                    proof {
                        lemma_blocks_model_push(blocks@, b);
                    }
                    blocks.push(b);
                    loops.push((next, i));
                },
                Token::LoopEnd => {
                    current.push(Op::Load);
                    let top = loops.pop();
                    match top {
                        None => {
                            proof {
                                let pre = toks@.take(i + 1);
                                assert(pre.last() == t);
                                assert(run(pre) == Err::<Lowering, LowerError>(
                                    LowerError::UnbalancedLoop(i),
                                ));
                                lemma_run_err_extends(toks@, i + 1);
                            }
                            return Err(LowerError::UnbalancedLoop(i));
                        },
                        Some(h) => {
                            let ops = current;
                            current = Vec::new();
                            let b = Block {
                                ops,
                                term: Terminator::Branch { nonzero: h.0, zero: next },
                            };
                            proof {
                                lemma_blocks_model_push(blocks@, b);
                            }
                            blocks.push(b);
                        },
                    }
                },
                _ => {
                    append_ops(&mut current, t);
                },
            }
            i = i + 1;
        }
        proof {
            assert(toks@.take(i as int) =~= toks@);
        }
        if loops.len() > 0 {
            let last = loops.len() - 1;
            return Err(LowerError::UnclosedLoop(loops[last].1));
        }
        let b = Block { ops: current, term: Terminator::Return(SUCCESS_CODE) };
        proof {
            lemma_blocks_model_push(blocks@, b);
        }
        blocks.push(b);
        Ok(Cfg { blocks })
    }
}

/// Appends to `current` the operations of a token that is not a bracket.
fn append_ops(current: &mut Vec<Op>, t: Token)
    ensures
        final(current)@ == old(current)@ + ops_for(t),
{
    match t {
        Token::Right(n) => current.push(Op::CursorAdd(n)),
        Token::Left(n) => current.push(Op::CursorSub(n)),
        Token::Increment(n) => {
            current.push(Op::Load);
            current.push(Op::AddByte((n % 256) as u8));
            current.push(Op::Store);
        },
        Token::Decrement(n) => {
            current.push(Op::Load);
            current.push(Op::SubByte((n % 256) as u8));
            current.push(Op::Store);
        },
        Token::Output => {
            current.push(Op::Load);
            current.push(Op::PutByte);
        },
        Token::Input => {
            current.push(Op::GetByte);
            current.push(Op::Store);
        },
        _ => {},
    }
    proof {
        assert(current@ =~= old(current)@ + ops_for(t));
    }
}

} // verus!
