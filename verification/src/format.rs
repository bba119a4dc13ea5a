//! Building the texts that a report is made of.

use vstd::prelude::*;
use vstd::string::*;

verus! {

/// The text of a digit.
pub open spec fn digit_text(d: int) -> Seq<char> {
    if d == 0 {
        "0"@
    } else if d == 1 {
        "1"@
    } else if d == 2 {
        "2"@
    } else if d == 3 {
        "3"@
    } else if d == 4 {
        "4"@
    } else if d == 5 {
        "5"@
    } else if d == 6 {
        "6"@
    } else if d == 7 {
        "7"@
    } else if d == 8 {
        "8"@
    } else {
        "9"@
    }
}

/// The text of a natural number: its decimal digits, the highest first.
pub open spec fn nat_text(n: nat) -> Seq<char>
    decreases n,
{
    if n < 10 {
        digit_text(n as int)
    } else {
        nat_text(n / 10) + digit_text((n % 10) as int)
    }
}

/// The text of an integer: its decimal digits, behind a minus sign where it
/// is negative.
pub open spec fn int_text(i: int) -> Seq<char> {
    if i < 0 {
        "-"@ + nat_text((-i) as nat)
    } else {
        nat_text(i as nat)
    }
}

/// The text of a digit.
fn digit(d: u64) -> (r: &'static str)
    requires
        d < 10,
    ensures
        r@ == digit_text(d as int),
{
    if d == 0 {
        "0"
    } else if d == 1 {
        "1"
    } else if d == 2 {
        "2"
    } else if d == 3 {
        "3"
    } else if d == 4 {
        "4"
    } else if d == 5 {
        "5"
    } else if d == 6 {
        "6"
    } else if d == 7 {
        "7"
    } else if d == 8 {
        "8"
    } else {
        "9"
    }
}

/// The text of a natural number.
pub fn natural(n: u64) -> (r: String)
    ensures
        r@ == nat_text(n as nat),
    decreases n,
{
    if n < 10 {
        String::from_str(digit(n))
    } else {
        let mut out = natural(n / 10);
        out.append(digit(n % 10));
        out
    }
}

/// The text of a position or a count.
pub fn count(n: usize) -> (r: String)
    ensures
        r@ == nat_text(n as nat),
{
    natural(n as u64)
}

/// The text of a 16-bit integer.
pub fn integer(i: i16) -> (r: String)
    ensures
        r@ == int_text(i as int),
{
    if i < 0 {
        let mut out = String::from_str("-");
        let magnitude: u64 = (-(i as i64)) as u64;
        out.append(natural(magnitude).as_str());
        out
    } else {
        natural(i as u64)
    }
}

/// The texts from position `from` on, each but the last followed by the
/// separator and a space, behind `done`.
pub open spec fn joined(parts: Seq<Seq<char>>, sep: Seq<char>, from: int, done: Seq<char>) -> Seq<char>
    decreases parts.len() - from,
{
    if from < 0 || from >= parts.len() {
        done
    } else if from + 1 < parts.len() {
        joined(parts, sep, from + 1, done + parts[from] + sep + " "@)
    } else {
        joined(parts, sep, from + 1, done + parts[from])
    }
}

/// The contents of a list of texts.
pub open spec fn texts_of(parts: Seq<String>) -> Seq<Seq<char>> {
    parts.map_values(|s: String| s@)
}

/// Adds the texts to `out`, each but the last followed by the separator
/// and a space.
pub fn intersperse(out: &mut String, values: &Vec<String>, sep: &str)
    ensures
        final(out)@ == joined(texts_of(values@), sep@, 0, old(out)@),
{
    let mut i: usize = 0;
    while i < values.len()
        invariant
            i <= values.len(),
            joined(texts_of(values@), sep@, 0, old(out)@) == joined(
                texts_of(values@),
                sep@,
                i as int,
                out@,
            ),
        decreases values.len() - i,
    {
        assert(texts_of(values@)[i as int] == values@[i as int]@);
        out.append(values[i].as_str());
        if i + 1 < values.len() {
            out.append(sep);
            out.append(" ");
        }
        i += 1;
    }
}

} // verus!
