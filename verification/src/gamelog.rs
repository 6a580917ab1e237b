//! The message log the systems append to, and the decimal rendering used to
//! put numbers into messages.

use vstd::prelude::*;

verus! {

/// The views of all entries of a log, oldest first.
pub open spec fn log_view(entries: Seq<String>) -> Seq<Seq<char>> {
    entries.map_values(|s: String| s@)
}

/// The running message log.
pub struct GameLog {
    pub entries: Vec<String>,
}

impl GameLog {
    pub fn new() -> (r: GameLog)
        ensures
            r.entries@.len() == 0,
    {
        GameLog { entries: Vec::new() }
    }

    /// Append one message.
    pub fn push(&mut self, s: String)
        ensures
            log_view(final(self).entries@) == log_view(old(self).entries@).push(s@),
    {
        let ghost prior = self.entries@;
        self.entries.push(s);
        proof {
            assert(log_view(self.entries@) =~= log_view(prior).push(s@));
        }
    }
}

/// The decimal digits of `n`, most significant first.
pub open spec fn dec_digits(n: nat) -> Seq<char>
    decreases n,
{
    if n < 10 {
        seq![digit_char(n)]
    } else {
        dec_digits(n / 10).push(digit_char(n % 10))
    }
}

/// The character for one decimal digit value.
pub open spec fn digit_char(d: nat) -> char {
    if d == 0 {
        '0'
    } else if d == 1 {
        '1'
    } else if d == 2 {
        '2'
    } else if d == 3 {
        '3'
    } else if d == 4 {
        '4'
    } else if d == 5 {
        '5'
    } else if d == 6 {
        '6'
    } else if d == 7 {
        '7'
    } else if d == 8 {
        '8'
    } else {
        '9'
    }
}

/// The view of a rendered i32: a minus sign for negative values, then the
/// decimal digits of the magnitude.
pub open spec fn dec_i32(v: int) -> Seq<char> {
    if v < 0 {
        seq!['-'] + dec_digits((-v) as nat)
    } else {
        dec_digits(v as nat)
    }
}

fn push_digit(s: &mut String, d: u32)
    requires
        d < 10,
    ensures
        final(s)@ == old(s)@ + seq![digit_char(d as nat)],
{
    proof {
        reveal_strlit("0");
        reveal_strlit("1");
        reveal_strlit("2");
        reveal_strlit("3");
        reveal_strlit("4");
        reveal_strlit("5");
        reveal_strlit("6");
        reveal_strlit("7");
        reveal_strlit("8");
        reveal_strlit("9");
    }
    if d == 0 {
        s.append("0");
    } else if d == 1 {
        s.append("1");
    } else if d == 2 {
        s.append("2");
    } else if d == 3 {
        s.append("3");
    } else if d == 4 {
        s.append("4");
    } else if d == 5 {
        s.append("5");
    } else if d == 6 {
        s.append("6");
    } else if d == 7 {
        s.append("7");
    } else if d == 8 {
        s.append("8");
    } else {
        s.append("9");
    }
}

fn push_u32_dec(s: &mut String, v: u32)
    ensures
        final(s)@ == old(s)@ + dec_digits(v as nat),
    decreases v,
{
    if v < 10 {
        push_digit(s, v);
    } else {
        push_u32_dec(s, v / 10);
        push_digit(s, v % 10);
        proof {
            assert(old(s)@ + dec_digits((v / 10) as nat) + seq![digit_char((v % 10) as nat)]
                =~= old(s)@ + dec_digits(v as nat));
        }
    }
}

/// Render a value in decimal, as `format!("{}", v)` would.
pub fn i32_to_dec_string(v: i32) -> (r: String)
    ensures
        r@ == dec_i32(v as int),
{
    let mut s = String::new();
    if v < 0 {
        proof {
            reveal_strlit("-");
        }
        s.append("-");
        let ghost pre = s@;
        if v == i32::MIN {
            push_u32_dec(&mut s, 2147483648u32);
            proof {
                assert(s@ =~= pre + dec_digits((-(v as int)) as nat));
            }
        } else {
            push_u32_dec(&mut s, (-v) as u32);
        }
        proof {
            assert(s@ =~= dec_i32(v as int));
        }
    } else {
        push_u32_dec(&mut s, v as u32);
        proof {
            assert(s@ =~= dec_i32(v as int));
        }
    }
    s
}

} // verus!
