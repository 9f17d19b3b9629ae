use vstd::prelude::*;

verus! {

broadcast use vstd::string::axiom_spec_iter;

/// One instruction of the source language, after run-length compression.
///
/// The four counted kinds carry how many identical symbols in a row they stand for.
#[derive(Debug, Clone, Copy, PartialEq, Eq, Structural)]
pub enum Token {
    Right(usize),
    Left(usize),
    Increment(usize),
    Decrement(usize),
    Output,
    Input,
    LoopStart,
    LoopEnd,
}

/// The eight symbols of the language; every other character is commentary.
pub open spec fn is_command(c: char) -> bool {
    c == '>' || c == '<' || c == '+' || c == '-' || c == '.' || c == ',' || c == '[' || c == ']'
}

/// The token that a run of `n` copies of `c` is flushed into, if `c` is a symbol.
pub open spec fn token_for(c: char, n: usize) -> Option<Token> {
    if c == '>' {
        Some(Token::Right(n))
    } else if c == '<' {
        Some(Token::Left(n))
    } else if c == '+' {
        Some(Token::Increment(n))
    } else if c == '-' {
        Some(Token::Decrement(n))
    } else if c == '.' {
        Some(Token::Output)
    } else if c == ',' {
        Some(Token::Input)
    } else if c == '[' {
        Some(Token::LoopStart)
    } else if c == ']' {
        Some(Token::LoopEnd)
    } else {
        None
    }
}

/// Whether a further `c` lengthens the run that token `t` stands for.
pub open spec fn continues_run(t: Token, c: char) -> bool {
    match t {
        Token::Right(_) => c == '>',
        Token::Left(_) => c == '<',
        Token::Increment(_) => c == '+',
        Token::Decrement(_) => c == '-',
        _ => false,
    }
}

/// The run count of a token; one for the kinds that carry none.
pub open spec fn count_of(t: Token) -> usize {
    match t {
        Token::Right(n) => n,
        Token::Left(n) => n,
        Token::Increment(n) => n,
        Token::Decrement(n) => n,
        _ => 1,
    }
}

/// `t` with its run one longer.
pub open spec fn lengthened(t: Token) -> Token {
    match t {
        Token::Right(n) => Token::Right((n + 1) as usize),
        Token::Left(n) => Token::Left((n + 1) as usize),
        Token::Increment(n) => Token::Increment((n + 1) as usize),
        Token::Decrement(n) => Token::Decrement((n + 1) as usize),
        _ => t,
    }
}

/// The symbols of a text, commentary left out.
pub open spec fn commands(s: Seq<char>) -> Seq<char> {
    s.filter(|c: char| is_command(c))
}

/// Appends the symbol `c` to a token sequence: it lengthens the last run or starts a token.
pub open spec fn append_symbol(toks: Seq<Token>, c: char) -> Seq<Token> {
    if toks.len() > 0 && continues_run(toks.last(), c) {
        toks.update(toks.len() - 1, lengthened(toks.last()))
    } else {
        match token_for(c, 1) {
            Some(t) => toks.push(t),
            None => toks,
        }
    }
}

/// Run-length compression of a sequence of symbols.
pub open spec fn compress(cs: Seq<char>) -> Seq<Token>
    decreases cs.len(),
{
    if cs.len() == 0 {
        seq![]
    } else {
        append_symbol(compress(cs.drop_last()), cs.last())
    }
}

/// The token sequence of a source text.
pub open spec fn tokenize(s: Seq<char>) -> Seq<Token> {
    compress(commands(s))
}

impl Token {
    /// The token for a run of `last_seen_count` copies of `c`, or `None` for commentary.
    pub fn from_char(c: char, last_seen_count: usize) -> (r: Option<Token>)
        ensures
            r == token_for(c, last_seen_count),
            r is Some <==> is_command(c),
    {
        match c {
            '>' => Some(Token::Right(last_seen_count)),
            '<' => Some(Token::Left(last_seen_count)),
            '+' => Some(Token::Increment(last_seen_count)),
            '-' => Some(Token::Decrement(last_seen_count)),
            '.' => Some(Token::Output),
            ',' => Some(Token::Input),
            '[' => Some(Token::LoopStart),
            ']' => Some(Token::LoopEnd),
            _ => None,
        }
    }
}

/// An ordered token sequence, in source order.
#[derive(Debug)]
pub struct Program {
    pub tokens: Vec<Token>,
}

impl Program {
    /// Tokenizes `source`: symbols are kept in order, commentary is dropped, and each run of
    /// identical `>`, `<`, `+` or `-` symbols becomes one token carrying the run's length.
    pub fn parse(source: &str) -> (p: Program)
        ensures
            p.tokens@ == tokenize(source@),
    {
        let n = source.unicode_len();
        let mut tokens: Vec<Token> = Vec::new();
        let mut i: usize = 0;
        for c in it: source.chars()
            invariant
                n == source@.len(),
                it.seq() == source@,
                i == it.index(),
                tokens@ == tokenize(source@.take(i as int)),
                forall|k: int| 0 <= k < tokens@.len() ==> count_of(#[trigger] tokens@[k]) <= i,
        {
            proof {
                lemma_tokenize_step(source@, i as int);
            }
            if is_symbol(c) {
                let len = tokens.len();
                if len > 0 && extends(&tokens[len - 1], c) {
                    let t = lengthen(tokens[len - 1]);
                    tokens.set(len - 1, t);
                } else {
                    let t = Token::from_char(c, 1);
                    if let Some(t) = t {
                        tokens.push(t);
                    }
                }
            }
            i = i + 1;
        }
        proof {
            assert(source@.take(n as int) =~= source@);
        }
        Program { tokens }
    }
}

impl<'a> vstd::std_specs::convert::FromSpecImpl<&'a str> for Program {
    open spec fn obeys_from_spec() -> bool {
        false
    }

    open spec fn from_spec(v: &'a str) -> Program {
        choose|p: Program| p.tokens@ == tokenize(v@)
    }
}

impl<'a> From<&'a str> for Program {
    fn from(value: &'a str) -> (p: Program)
        ensures
            p.tokens@ == tokenize(value@),
    {
        Program::parse(value)
    }
}

proof fn lemma_tokenize_step(s: Seq<char>, i: int)
    requires
        0 <= i < s.len(),
    ensures
        tokenize(s.take(i + 1)) == if is_command(s[i]) {
            append_symbol(tokenize(s.take(i)), s[i])
        } else {
            tokenize(s.take(i))
        },
{
    reveal(Seq::filter);
    assert(s.take(i + 1).drop_last() =~= s.take(i));
    let prev = commands(s.take(i));
    if is_command(s[i]) {
        assert(commands(s.take(i + 1)) == prev.push(s[i]));
        assert(prev.push(s[i]).drop_last() =~= prev);
    }
}

fn is_symbol(c: char) -> (r: bool)
    ensures
        r == is_command(c),
{
    c == '>' || c == '<' || c == '+' || c == '-' || c == '.' || c == ',' || c == '[' || c == ']'
}

fn extends(t: &Token, c: char) -> (r: bool)
    ensures
        r == continues_run(*t, c),
{
    match t {
        Token::Right(_) => c == '>',
        Token::Left(_) => c == '<',
        Token::Increment(_) => c == '+',
        Token::Decrement(_) => c == '-',
        _ => false,
    }
}

fn lengthen(t: Token) -> (r: Token)
    requires
        count_of(t) < usize::MAX,
    ensures
        r == lengthened(t),
        count_of(r) <= count_of(t) + 1,
{
    match t {
        Token::Right(n) => Token::Right(n + 1),
        Token::Left(n) => Token::Left(n + 1),
        Token::Increment(n) => Token::Increment(n + 1),
        Token::Decrement(n) => Token::Decrement(n + 1),
        _ => t,
    }
}

} // verus!
