use bfrsc::cfg::{Block, Cfg, Op, Terminator, SUCCESS_CODE};
use bfrsc::lower::{CodeGen, LowerError};
use bfrsc::parse::{Program, Token};

fn lower(src: &str) -> Result<Cfg, LowerError> {
    CodeGen::new(Program::parse(src)).lower()
}

fn block(ops: Vec<Op>, term: Terminator) -> Block {
    Block { ops, term }
}

#[test]
fn lone_loop_end_is_unbalanced_at_index_zero() {
    assert_eq!(lower("]"), Err(LowerError::UnbalancedLoop(0)));
}

#[test]
fn empty_loop_lowers() {
    let cfg = lower("[]").unwrap();
    assert_eq!(
        cfg.blocks,
        vec![
            block(vec![], Terminator::Jump(1)),
            block(
                vec![Op::Load],
                Terminator::Branch { nonzero: 1, zero: 2 }
            ),
            block(vec![], Terminator::Return(SUCCESS_CODE)),
        ]
    );
}

#[test]
fn unbalanced_index_counts_compressed_tokens() {
    assert_eq!(lower("+++]"), Err(LowerError::UnbalancedLoop(1)));
    assert_eq!(lower("[]]"), Err(LowerError::UnbalancedLoop(2)));
    assert_eq!(lower("]["), Err(LowerError::UnbalancedLoop(0)));
}

#[test]
fn open_loop_at_end_is_an_error() {
    assert_eq!(lower("["), Err(LowerError::UnclosedLoop(0)));
    assert_eq!(lower("[[]"), Err(LowerError::UnclosedLoop(0)));
    assert_eq!(lower("+[-[>"), Err(LowerError::UnclosedLoop(3)));
}

#[test]
fn empty_program_returns_at_once() {
    let cfg = lower("").unwrap();
    assert_eq!(cfg.entry(), 0);
    assert_eq!(cfg.block_count(), 1);
    assert_eq!(
        cfg.blocks,
        vec![block(vec![], Terminator::Return(SUCCESS_CODE))]
    );
}

#[test]
fn balanced_program_has_two_blocks_per_loop() {
    let cfg = lower("+[[-]>[-]<]").unwrap();
    assert_eq!(cfg.block_count(), 1 + 2 * 3);
    let cfg = lower("[][][]").unwrap();
    assert_eq!(cfg.block_count(), 7);
}

#[test]
fn nested_loops_branch_to_their_own_headers() {
    let cfg = lower("[[]]").unwrap();
    assert_eq!(
        cfg.blocks,
        vec![
            block(vec![], Terminator::Jump(1)),
            block(vec![], Terminator::Jump(2)),
            block(vec![Op::Load], Terminator::Branch { nonzero: 2, zero: 3 }),
            block(vec![Op::Load], Terminator::Branch { nonzero: 1, zero: 4 }),
            block(vec![], Terminator::Return(SUCCESS_CODE)),
        ]
    );
}

#[test]
fn increments_wrap_modulo_256() {
    let cfg = lower(&"+".repeat(256)).unwrap();
    assert_eq!(
        cfg.blocks,
        vec![block(
            vec![Op::Load, Op::AddByte(0), Op::Store],
            Terminator::Return(SUCCESS_CODE)
        )]
    );
    let cfg = lower(&"+".repeat(257)).unwrap();
    assert_eq!(cfg.blocks[0].ops, vec![Op::Load, Op::AddByte(1), Op::Store]);
    let cfg = lower(&"-".repeat(300)).unwrap();
    assert_eq!(cfg.blocks[0].ops, vec![Op::Load, Op::SubByte(44), Op::Store]);
}

#[test]
fn increment_then_output() {
    let cfg = lower("++.").unwrap();
    assert_eq!(cfg.entry(), 0);
    assert_eq!(
        cfg.blocks,
        vec![block(
            vec![Op::Load, Op::AddByte(2), Op::Store, Op::Load, Op::PutByte],
            Terminator::Return(0)
        )]
    );
}

#[test]
fn clear_loop_has_three_blocks() {
    let cfg = lower("[-]").unwrap();
    assert_eq!(cfg.block_count(), 3);
    assert_eq!(
        cfg.blocks,
        vec![
            block(vec![], Terminator::Jump(1)),
            block(
                vec![Op::Load, Op::SubByte(1), Op::Store, Op::Load],
                Terminator::Branch { nonzero: 1, zero: 2 }
            ),
            block(vec![], Terminator::Return(SUCCESS_CODE)),
        ]
    );
}

#[test]
fn cursor_moves_and_input() {
    let cfg = lower(">>><,").unwrap();
    assert_eq!(
        cfg.blocks[0].ops,
        vec![Op::CursorAdd(3), Op::CursorSub(1), Op::GetByte, Op::Store]
    );
}

#[test]
fn lowering_a_program_built_by_hand() {
    let program = Program {
        tokens: vec![Token::Increment(3), Token::LoopStart, Token::Decrement(1), Token::LoopEnd],
    };
    let cfg = CodeGen::new(program).lower().unwrap();
    assert_eq!(
        cfg.blocks,
        vec![
            block(vec![Op::Load, Op::AddByte(3), Op::Store], Terminator::Jump(1)),
            block(
                vec![Op::Load, Op::SubByte(1), Op::Store, Op::Load],
                Terminator::Branch { nonzero: 1, zero: 2 }
            ),
            block(vec![], Terminator::Return(SUCCESS_CODE)),
        ]
    );
}
