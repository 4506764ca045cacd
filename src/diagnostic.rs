use vstd::prelude::*;
use vstd::string::StringExecFns;
use crate::text::push_char;

verus! {

/// The decimal digit for `d`, which is below ten.
pub open spec fn digit_char(d: nat) -> char {
    seq!['0', '1', '2', '3', '4', '5', '6', '7', '8', '9'][d as int]
}

/// The decimal spelling of `n`, without leading zeros.
pub open spec fn decimal(n: nat) -> Seq<char>
    decreases n,
{
    if n < 10 {
        seq![digit_char(n)]
    } else {
        decimal(n / 10).push(digit_char(n % 10))
    }
}

/// Appends the decimal spelling of `n`.
pub fn push_decimal(s: &mut String, n: usize)
    ensures
        final(s)@ == old(s)@ + decimal(n as nat),
    decreases n,
{
    let digits = ['0', '1', '2', '3', '4', '5', '6', '7', '8', '9'];
    proof {
        assert(digits@ =~= seq!['0', '1', '2', '3', '4', '5', '6', '7', '8', '9']);
    }
    if n >= 10 {
        push_decimal(s, n / 10);
    }
    push_char(s, digits[n % 10]);
    proof {
        assert(s@ =~= old(s)@ + decimal(n as nat));
    }
}

/// The diagnostic line `[line N] Error<where_>: <message>`.
pub open spec fn report_text(line: nat, where_: Seq<char>, message: Seq<char>) -> Seq<char> {
    "[line "@ + decimal(line) + "] Error"@ + where_ + ": "@ + message
}

/// Formats a diagnostic for `line`, placed by `where_`.
pub fn report(line: usize, where_: String, message: String) -> (r: String)
    ensures
        r@ == report_text(line as nat, where_@, message@),
{
    let mut r = String::new();
    r.append("[line ");
    push_decimal(&mut r, line);
    r.append("] Error");
    r.append(where_.as_str());
    r.append(": ");
    r.append(message.as_str());
    proof {
        reveal_strlit("[line ");
        reveal_strlit("] Error");
        reveal_strlit(": ");
        assert(r@ =~= report_text(line as nat, where_@, message@));
    }
    r
}

/// Formats a diagnostic for `line` that names no place within the line.
pub fn error(line: usize, message: String) -> (r: String)
    ensures
        r@ == report_text(line as nat, Seq::empty(), message@),
{
    report(line, String::new(), message)
}

} // verus!
