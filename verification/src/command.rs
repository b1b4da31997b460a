//! Raw command tokens of the tape language, and the classifier that
//! turns source text into an ordered token sequence.

use vstd::prelude::*;

verus! {

/// One primitive command of the language. Source characters that match
/// none of the eight commands are ignored by the tokenizer.
#[derive(Debug, Clone, Copy, PartialEq, Eq, Structural)]
pub enum Command {
    IncPtr,
    DecPtr,
    IncVal,
    DecVal,
    PutChar,
    GetChar,
    OpenBr,
    CloseBr,
}

/// The token that a single source character denotes, if any.
pub open spec fn spec_from_char(ch: char) -> Option<Command> {
    if ch == '>' {
        Some(Command::IncPtr)
    } else if ch == '<' {
        Some(Command::DecPtr)
    } else if ch == '+' {
        Some(Command::IncVal)
    } else if ch == '-' {
        Some(Command::DecVal)
    } else if ch == '.' {
        Some(Command::PutChar)
    } else if ch == ',' {
        Some(Command::GetChar)
    } else if ch == '[' {
        Some(Command::OpenBr)
    } else if ch == ']' {
        Some(Command::CloseBr)
    } else {
        None
    }
}

/// The token sequence that a source text denotes: each character maps to
/// its command, and characters that carry no command are dropped.
pub open spec fn spec_tokens(s: Seq<char>) -> Seq<Command>
    decreases s.len(),
{
    if s.len() == 0 {
        Seq::empty()
    } else {
        spec_tokens(s.drop_last()) + match spec_from_char(s.last()) {
            Some(c) => seq![c],
            None => Seq::empty(),
        }
    }
}

impl Command {
    /// Classify one source character.
    pub fn from_char(ch: char) -> (r: Option<Command>)
        ensures
            r == spec_from_char(ch),
    {
        match ch {
            '>' => Some(Command::IncPtr),
            '<' => Some(Command::DecPtr),
            '+' => Some(Command::IncVal),
            '-' => Some(Command::DecVal),
            '.' => Some(Command::PutChar),
            ',' => Some(Command::GetChar),
            '[' => Some(Command::OpenBr),
            ']' => Some(Command::CloseBr),
            _ => None,
        }
    }
}

/// Turn source text into the ordered sequence of command tokens,
/// discarding unrecognized characters.
pub fn parse(code: &str) -> (r: Vec<Command>)
    ensures
        r@ == spec_tokens(code@),
{
    let n = code.unicode_len();
    let mut out: Vec<Command> = Vec::new();
    let mut i: usize = 0;
    while i < n
        invariant
            i <= n,
            n == code@.len(),
            out@ == spec_tokens(code@.take(i as int)),
        decreases n - i,
    {
        let ch = code.get_char(i);
        proof {
            assert(code@.take(i + 1).drop_last() == code@.take(i as int));
            assert(code@.take(i + 1).last() == code@[i as int]);
        }
        match Command::from_char(ch) {
            Some(c) => {
                out.push(c);
            },
            None => {},
        }
        i = i + 1;
    }
    proof {
        assert(code@.take(n as int) == code@);
    }
    out
}

} // verus!
