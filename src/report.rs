//! The text of a diagnostic: `(path:row:column) ` and the line around the
//! banned identifier, with the identifier shown as the caller highlights it.
use vstd::prelude::*;
use vstd::string::StringExecFns;
use vstd::utf8::{decode_utf8, valid_utf8};
use crate::scan::Diagnostic;

verus! {

/// What String::from_utf8_lossy makes of some bytes.
pub uninterp spec fn lossy_of(b: Seq<u8>) -> Seq<char>;

/// Relies on String::from_utf8_lossy, which decodes UTF-8 and puts a
/// replacement character for each invalid sequence; valid bytes are decoded
/// as they are.
#[verifier::external_body]
fn lossy_text(b: &[u8]) -> (r: String)
    ensures
        r@ == lossy_of(b@),
        valid_utf8(b@) ==> r@ == decode_utf8(b@),
{
    String::from_utf8_lossy(b).into_owned()
}

pub open spec fn digit_char(d: nat) -> char {
    if d == 0 { '0' } else if d == 1 { '1' } else if d == 2 { '2' } else if d == 3 { '3' }
    else if d == 4 { '4' } else if d == 5 { '5' } else if d == 6 { '6' } else if d == 7 { '7' }
    else if d == 8 { '8' } else { '9' }
}

/// The decimal digits of `n`, without leading zeros.
pub open spec fn decimal(n: nat) -> Seq<char>
    decreases n,
{
    if n < 10 {
        seq![digit_char(n)]
    } else {
        decimal(n / 10).push(digit_char(n % 10))
    }
}

fn digit_str(d: usize) -> (r: &'static str)
    requires
        d < 10,
    ensures
        r@ == seq![digit_char(d as nat)],
{
    proof {
        reveal_strlit("0");
        reveal_strlit("1");
        reveal_strlit("2");
        reveal_strlit("3");
        reveal_strlit("4");
        reveal_strlit("5");
        reveal_strlit("6");
        reveal_strlit("7");
        reveal_strlit("8");
        reveal_strlit("9");
    }
    let r = if d == 0 { "0" } else if d == 1 { "1" } else if d == 2 { "2" } else if d == 3 { "3" }
    else if d == 4 { "4" } else if d == 5 { "5" } else if d == 6 { "6" } else if d == 7 { "7" }
    else if d == 8 { "8" } else { "9" };
    assert(r@ =~= seq![digit_char(d as nat)]);
    r
}

/// Appends the decimal digits of `n`.
pub fn append_decimal(out: &mut String, n: usize)
    ensures
        final(out)@ == old(out)@ + decimal(n as nat),
    decreases n,
{
    if n >= 10 {
        append_decimal(out, n / 10);
    }
    out.append(digit_str(n % 10));
    proof {
        if n >= 10 {
            assert(old(out)@ + decimal(n as nat) =~= old(out)@ + decimal((n / 10) as nat) + seq![digit_char((n % 10) as nat)]);
        } else {
            assert(decimal(n as nat) =~= seq![digit_char((n % 10) as nat)]);
        }
    }
}

/// `(path:row:column) ` followed by the line: prefix, highlighted
/// identifier, suffix.
pub open spec fn diagnostic_text(
    path: Seq<char>,
    row: nat,
    column: nat,
    prefix: Seq<char>,
    highlighted: Seq<char>,
    suffix: Seq<char>,
) -> Seq<char> {
    seq!['('] + path + seq![':'] + decimal(row) + seq![':'] + decimal(column) + seq![')', ' ']
        + prefix + highlighted + suffix
}

/// The text of one diagnostic. The line's bytes before and after the
/// identifier are decoded as UTF-8, invalid sequences replaced; the
/// identifier itself is given by the caller as it should be shown.
pub fn diagnostic_line(path: &str, d: &Diagnostic, highlighted: &str) -> (r: String)
    ensures
        r@ == diagnostic_text(
            path@,
            d.row as nat,
            d.column as nat,
            lossy_of(d.excerpt.prefix@),
            highlighted@,
            lossy_of(d.excerpt.suffix@),
        ),
{
    proof {
        reveal_strlit("(");
        reveal_strlit(":");
        reveal_strlit(") ");
    }
    let mut out = String::from_str("(");
    out.append(path);
    out.append(":");
    append_decimal(&mut out, d.row);
    out.append(":");
    append_decimal(&mut out, d.column);
    out.append(") ");
    let prefix = lossy_text(d.excerpt.prefix.as_slice());
    let suffix = lossy_text(d.excerpt.suffix.as_slice());
    out.append(prefix.as_str());
    out.append(highlighted);
    out.append(suffix.as_str());
    assert(out@ =~= diagnostic_text(
        path@,
        d.row as nat,
        d.column as nat,
        lossy_of(d.excerpt.prefix@),
        highlighted@,
        lossy_of(d.excerpt.suffix@),
    ));
    out
}

} // verus!
