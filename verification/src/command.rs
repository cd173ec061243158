//! The mark applier's textual side: the command that tells the window
//! manager to set a mark on a window, replacing whatever marks that window
//! held before. Sending the command over the socket is the caller's business;
//! this module only builds its text, exactly.

use vstd::prelude::*;
use vstd::string::StringExecFns;

verus! {

/// The decimal digit character for `d`, for `0 <= d <= 9`.
pub open spec fn digit_char(d: int) -> char {
    ((d + 48) as u8) as char
}

/// The decimal digits of a non-negative number, most significant first.
pub open spec fn dec_digits(n: int) -> Seq<char>
    decreases n,
{
    if n < 0 {
        Seq::empty()
    } else if n < 10 {
        seq![digit_char(n)]
    } else {
        dec_digits(n / 10) + seq![digit_char(n % 10)]
    }
}

/// The decimal rendering of a signed number: a minus sign, if negative,
/// followed by the digits of its magnitude.
pub open spec fn dec_str(n: int) -> Seq<char> {
    if n < 0 {
        seq!['-'] + dec_digits(-n)
    } else {
        dec_digits(n)
    }
}

/// The full mark-set command for one window: a selector clause scoped to the
/// window's container id, then the mark directive with `--replace`, so only
/// that window's previous marks are dropped.
pub open spec fn command_spec(id: i64, mark: char) -> Seq<char> {
    "[con_id=\""@ + dec_str(id as int) + "\"] mark --replace "@ + seq![mark]
}

/// Relies on `String::push`: appends exactly the given character to the end
/// of the string.
#[verifier::external_body]
fn push_char(s: &mut String, c: char)
    ensures
        final(s)@ == old(s)@ + seq![c],
{
    s.push(c);
}

/// Appends the decimal digits of `n`, most significant first.
fn push_decimal(s: &mut String, n: u64)
    ensures
        final(s)@ == old(s)@ + dec_digits(n as int),
    decreases n,
{
    if n < 10 {
        let c = (n as u8 + 48) as char;
        proof {
            assert(c == digit_char(n as int));
        }
        push_char(s, c);
    } else {
        push_decimal(s, n / 10);
        let ghost mid = s@;
        let c = ((n % 10) as u8 + 48) as char;
        proof {
            assert(c == digit_char(n as int % 10));
        }
        push_char(s, c);
        proof {
            assert((old(s)@ + dec_digits(n as int / 10)) + seq![digit_char(n as int % 10)] =~= old(
                s,
            )@ + (dec_digits(n as int / 10) + seq![digit_char(n as int % 10)]));
        }
    }
}

/// Builds the command that sets `mark` on the window with container id `id`,
/// replacing that window's previous marks.
pub fn format_mark_command(id: i64, mark: char) -> (cmd: String)
    ensures
        cmd@ == command_spec(id, mark),
{
    let mut s = String::from_str("[con_id=\"");
    if id >= 0 {
        push_decimal(&mut s, id as u64);
    } else {
        push_char(&mut s, '-');
        let mag: u64 = ((-(id + 1)) as u64) + 1;
        proof {
            assert(mag as int == -(id as int));
            assert(("[con_id=\""@ + seq!['-']) + dec_digits(mag as int) =~= "[con_id=\""@ + (
            seq!['-'] + dec_digits(mag as int)));
        }
        push_decimal(&mut s, mag);
    }
    proof {
        assert(s@ == "[con_id=\""@ + dec_str(id as int));
    }
    let ghost before = s@;
    s.append("\"] mark --replace ");
    push_char(&mut s, mark);
    proof {
        assert((before + "\"] mark --replace "@) + seq![mark] =~= ("[con_id=\""@ + dec_str(
            id as int,
        ) + "\"] mark --replace "@ + seq![mark]));
    }
    s
}

} // verus!
