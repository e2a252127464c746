//! The per-round command a controlled unit emits.

use vstd::prelude::*;

verus! {

/// One round's order for one controlled unit: move toward a point, attempt
/// capture of a roamer, attempt incapacitation of an opposing unit, or
/// release the held roamer at the base.
#[derive(Clone, Copy, Debug, PartialEq, Eq, Structural)]
pub enum Command {
    Move { x: i32, y: i32 },
    Bust { id: i32 },
    Stun { id: i32 },
    Release,
}

/// The protocol line a command is written as.
pub open spec fn spec_line(c: Command) -> Seq<char> {
    match c {
        Command::Move { x, y } => seq!['M', 'O', 'V', 'E', ' '] + crate::text::spec_dec(x as int)
            + seq![' '] + crate::text::spec_dec(y as int),
        Command::Bust { id } => seq!['B', 'U', 'S', 'T', ' '] + crate::text::spec_dec(id as int),
        Command::Stun { id } => seq!['S', 'T', 'U', 'N', ' '] + crate::text::spec_dec(id as int),
        Command::Release => seq!['R', 'E', 'L', 'E', 'A', 'S', 'E'],
    }
}

impl Command {
    /// Renders the command as its protocol line.
    pub fn to_line(&self) -> (r: String)
        ensures
            r@ == spec_line(*self),
    {
        match *self {
            Command::Move { x, y } => {
                let mut s = String::from_str("MOVE ");
                let sx = crate::text::i32_dec(x);
                s.append(sx.as_str());
                s.append(" ");
                let sy = crate::text::i32_dec(y);
                s.append(sy.as_str());
                proof {
                    reveal_strlit("MOVE ");
                    reveal_strlit(" ");
                    assert(s@ =~= spec_line(*self));
                }
                s
            },
            Command::Bust { id } => {
                let mut s = String::from_str("BUST ");
                let si = crate::text::i32_dec(id);
                s.append(si.as_str());
                proof {
                    reveal_strlit("BUST ");
                    assert(s@ =~= spec_line(*self));
                }
                s
            },
            Command::Stun { id } => {
                let mut s = String::from_str("STUN ");
                let si = crate::text::i32_dec(id);
                s.append(si.as_str());
                proof {
                    reveal_strlit("STUN ");
                    assert(s@ =~= spec_line(*self));
                }
                s
            },
            Command::Release => {
                let s = String::from_str("RELEASE");
                proof {
                    reveal_strlit("RELEASE");
                    assert(s@ =~= spec_line(*self));
                }
                s
            },
        }
    }
}

} // verus!
