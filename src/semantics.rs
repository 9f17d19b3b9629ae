use vstd::prelude::*;
use crate::cfg::{Op, Terminator, SUCCESS_CODE};
use crate::lower::lower_spec;
use crate::parse::{append_symbol, commands, compress, tokenize, Token};
use vstd::arithmetic::div_mod::{lemma_add_mod_noop, lemma_small_mod};

verus! {

/// What the straight-line operations of a block act on.
pub struct Machine {
    /// Bytes written so far; a cell never written holds zero.
    pub tape: Map<int, u8>,
    pub cursor: int,
    pub acc: u8,
    /// The bytes that the input primitive hands out, in order.
    pub input: spec_fn(nat) -> u8,
    /// How many input bytes were taken.
    pub consumed: nat,
    /// The bytes handed to the output primitive.
    pub output: Seq<u8>,
}

/// The byte in tape cell `k`.
pub open spec fn cell(m: Machine, k: int) -> u8 {
    if m.tape.dom().contains(k) {
        m.tape[k]
    } else {
        0
    }
}

/// The effect of one operation.
pub open spec fn apply_op(m: Machine, op: Op) -> Machine {
    match op {
        Op::CursorAdd(n) => Machine { cursor: m.cursor + n, ..m },
        Op::CursorSub(n) => Machine { cursor: m.cursor - n, ..m },
        Op::Load => Machine { acc: cell(m, m.cursor), ..m },
        Op::AddByte(k) => Machine { acc: ((m.acc + k) % 256) as u8, ..m },
        Op::SubByte(k) => Machine { acc: ((m.acc - k) % 256) as u8, ..m },
        Op::Store => Machine { tape: m.tape.insert(m.cursor, m.acc), ..m },
        Op::PutByte => Machine { output: m.output.push(m.acc), ..m },
        Op::GetByte => Machine { acc: (m.input)(m.consumed), consumed: m.consumed + 1, ..m },
    }
}

/// The effect of a sequence of operations, first to last.
pub open spec fn apply_ops(m: Machine, ops: Seq<Op>) -> Machine
    decreases ops.len(),
{
    if ops.len() == 0 {
        m
    } else {
        apply_op(apply_ops(m, ops.drop_last()), ops.last())
    }
}

/// `n` copies of `c`.
pub open spec fn repeated(c: char, n: nat) -> Seq<char> {
    Seq::new(n, |i: int| c)
}

proof fn lemma_tokenize_increments(n: nat)
    requires
        1 <= n <= usize::MAX,
    ensures
        tokenize(repeated('+', n)) == seq![Token::Increment(n as usize)],
    decreases n,
{
    let s = repeated('+', n);
    let pre = repeated('+', (n - 1) as nat);
    assert(s.drop_last() =~= pre);
    lemma_commands_of_increments(n);
    lemma_commands_of_increments((n - 1) as nat);
    assert(tokenize(s) == append_symbol(compress(pre), '+'));
    if n == 1 {
        assert(pre =~= Seq::<char>::empty());
        assert(compress(pre) == Seq::<Token>::empty());
        assert(seq![Token::Increment(1)] =~= Seq::<Token>::empty().push(Token::Increment(1)));
    } else {
        lemma_tokenize_increments((n - 1) as nat);
        assert(compress(pre) == seq![Token::Increment((n - 1) as usize)]);
        assert(seq![Token::Increment((n - 1) as usize)].update(0, Token::Increment(n as usize))
            =~= seq![Token::Increment(n as usize)]);
    }
}

proof fn lemma_commands_of_increments(n: nat)
    ensures
        commands(repeated('+', n)) == repeated('+', n),
    decreases n,
{
    reveal(Seq::filter);
    let s = repeated('+', n);
    if n > 0 {
        assert(s.drop_last() =~= repeated('+', (n - 1) as nat));
        lemma_commands_of_increments((n - 1) as nat);
        assert(repeated('+', (n - 1) as nat).push('+') =~= s);
        assert(commands(s.drop_last()) == s.drop_last());
    }
}

/// A run of `n` increments lowers to one block that loads the cell, adds `n` modulo 256 and
/// stores it back; so the cell under the cursor ends `n` higher, modulo 256, whatever it held.
pub proof fn lemma_increment_run_wraps(n: nat, m: Machine)
    requires
        1 <= n <= usize::MAX,
    ensures
        lower_spec(tokenize(repeated('+', n))) == Ok::<Seq<(Seq<Op>, Terminator)>, crate::lower::LowerError>(
            seq![(seq![Op::Load, Op::AddByte((n % 256) as u8), Op::Store], Terminator::Return(SUCCESS_CODE))],
        ),
        cell(apply_ops(m, seq![Op::Load, Op::AddByte((n % 256) as u8), Op::Store]), m.cursor)
            == (cell(m, m.cursor) + n) % 256,
{
    lemma_tokenize_increments(n);
    let toks = seq![Token::Increment(n as usize)];
    assert(toks.drop_last() =~= Seq::<Token>::empty());
    let ops = seq![Op::Load, Op::AddByte((n % 256) as u8), Op::Store];
    assert(Seq::<Op>::empty() + ops =~= ops);
    reveal_with_fuel(crate::lower::run, 2);
    assert(crate::lower::run(toks) is Ok);
    assert(crate::lower::run(toks)->Ok_0.current == ops);
    assert(Seq::<(Seq<Op>, Terminator)>::empty().push((ops, Terminator::Return(SUCCESS_CODE)))
        =~= seq![(ops, Terminator::Return(SUCCESS_CODE))]);
    assert(ops.drop_last().drop_last().drop_last() =~= Seq::<Op>::empty());
    assert(ops.drop_last().drop_last() =~= seq![Op::Load]);
    assert(ops.drop_last() =~= seq![Op::Load, Op::AddByte((n % 256) as u8)]);
    let a = cell(m, m.cursor);
    let m1 = apply_op(m, Op::Load);
    reveal_with_fuel(apply_ops, 4);
    assert(apply_ops(m, seq![Op::Load]) == m1);
    let m2 = apply_op(m1, Op::AddByte((n % 256) as u8));
    assert(apply_ops(m, ops.drop_last()) == m2);
    assert(m2.acc == ((a + (n % 256)) % 256) as u8);
    lemma_add_mod_noop(a as int, n as int, 256);
    lemma_small_mod(a as nat, 256);
    assert(apply_ops(m, ops) == apply_op(m2, Op::Store));
    assert(cell(apply_op(m2, Op::Store), m.cursor) == m2.acc);
}

} // verus!
