//! The textual form of a row of dominoes: `[top/bottom]` for each domino.

use vstd::prelude::*;

verus! {

/// The character of a decimal digit.
pub open spec fn digit_char(d: int) -> char {
    if d == 0 {
        '0'
    } else if d == 1 {
        '1'
    } else if d == 2 {
        '2'
    } else if d == 3 {
        '3'
    } else if d == 4 {
        '4'
    } else if d == 5 {
        '5'
    } else if d == 6 {
        '6'
    } else if d == 7 {
        '7'
    } else if d == 8 {
        '8'
    } else {
        '9'
    }
}

/// The decimal digits of a number, without leading zeros.
pub open spec fn decimal(n: nat) -> Seq<char>
    decreases n,
{
    if n < 10 {
        seq![digit_char(n as int)]
    } else {
        decimal(n / 10).push(digit_char((n % 10) as int))
    }
}

/// The label of one domino: its top and bottom values, `[top/bottom]`.
pub open spec fn domino_label(top: u8, bottom: u8) -> Seq<char> {
    seq!['['] + decimal(top as nat) + seq!['/'] + decimal(bottom as nat) + seq![']']
}

/// The labels of a row of dominoes, one after the other.
pub open spec fn domino_labels(dominoes: Seq<(u8, u8)>) -> Seq<char>
    decreases dominoes.len(),
{
    if dominoes.len() == 0 {
        seq![]
    } else {
        domino_labels(dominoes.drop_last()) + domino_label(dominoes.last().0, dominoes.last().1)
    }
}

/// The one-character string of a decimal digit.
fn digit_str(d: u8) -> (s: &'static str)
    requires
        d < 10,
    ensures
        s@ == seq![digit_char(d as int)],
{
    proof {
        reveal_strlit("0");
        reveal_strlit("1");
        reveal_strlit("2");
        reveal_strlit("3");
        reveal_strlit("4");
        reveal_strlit("5");
        reveal_strlit("6");
        reveal_strlit("7");
        reveal_strlit("8");
        reveal_strlit("9");
    }
    if d == 0 {
        "0"
    } else if d == 1 {
        "1"
    } else if d == 2 {
        "2"
    } else if d == 3 {
        "3"
    } else if d == 4 {
        "4"
    } else if d == 5 {
        "5"
    } else if d == 6 {
        "6"
    } else if d == 7 {
        "7"
    } else if d == 8 {
        "8"
    } else {
        "9"
    }
}

/// Appends the decimal digits of `n`.
fn push_decimal(text: &mut String, n: u8)
    ensures
        final(text)@ == old(text)@ + decimal(n as nat),
{
    if n >= 100 {
        text.append(digit_str(n / 100));
        text.append(digit_str(n / 10 % 10));
    } else if n >= 10 {
        text.append(digit_str(n / 10));
    }
    text.append(digit_str(n % 10));
    proof {
        let n = n as nat;
        if n >= 100 {
            assert(decimal(n / 100) == seq![digit_char((n / 100) as int)]);
            assert(decimal(n / 10) == decimal(n / 10 / 10).push(digit_char((n / 10 % 10) as int)));
            assert(n / 10 / 10 == n / 100);
        } else if n >= 10 {
            assert(decimal(n / 10) == seq![digit_char((n / 10) as int)]);
        }
    }
}

/// Appends the label of one domino.
fn push_label(text: &mut String, top: u8, bottom: u8)
    ensures
        final(text)@ == old(text)@ + domino_label(top, bottom),
{
    proof {
        reveal_strlit("[");
        reveal_strlit("/");
        reveal_strlit("]");
    }
    text.append("[");
    push_decimal(text, top);
    text.append("/");
    push_decimal(text, bottom);
    text.append("]");
    proof {
        assert(final(text)@ =~= old(text)@ + domino_label(top, bottom));
    }
}

/// The labels of a row of dominoes, `[top/bottom]` for each.
pub fn domino_string(dominoes: &[(u8, u8)]) -> (text: String)
    ensures
        text@ == domino_labels(dominoes@),
{
    let mut text = String::new();
    let mut i: usize = 0;
    while i < dominoes.len()
        invariant
            i <= dominoes@.len(),
            text@ == domino_labels(dominoes@.take(i as int)),
        decreases dominoes@.len() - i,
    {
        let (top, bottom) = dominoes[i];
        push_label(&mut text, top, bottom);
        proof {
            assert(dominoes@.take(i + 1).drop_last() =~= dominoes@.take(i as int));
        }
        i = i + 1;
    }
    proof {
        assert(dominoes@.take(dominoes@.len() as int) =~= dominoes@);
    }
    text
}

} // verus!
