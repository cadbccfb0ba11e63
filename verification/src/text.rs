//! Names and messages: decimal numbers and joined text.
use vstd::prelude::*;
use vstd::string::StringExecFns;

verus! {

/// The character of one decimal digit.
pub open spec fn digit_of(d: nat) -> char {
    (48 + d) as char
}

/// A number in decimal, without leading zeros.
pub open spec fn decimal_of(n: nat) -> Seq<char>
    decreases n,
{
    if n < 10 {
        seq![digit_of(n)]
    } else {
        decimal_of(n / 10).push(digit_of(n % 10))
    }
}

/// One decimal digit.
fn digit(d: usize) -> (text: &'static str)
    requires
        d < 10,
    ensures
        text@ == seq![digit_of(d as nat)],
{
    let text = if d == 0 {
        "0"
    } else if d == 1 {
        "1"
    } else if d == 2 {
        "2"
    } else if d == 3 {
        "3"
    } else if d == 4 {
        "4"
    } else if d == 5 {
        "5"
    } else if d == 6 {
        "6"
    } else if d == 7 {
        "7"
    } else if d == 8 {
        "8"
    } else {
        "9"
    };
    proof {
        reveal_strlit("0");
        reveal_strlit("1");
        reveal_strlit("2");
        reveal_strlit("3");
        reveal_strlit("4");
        reveal_strlit("5");
        reveal_strlit("6");
        reveal_strlit("7");
        reveal_strlit("8");
        reveal_strlit("9");
        assert(text@ =~= seq![digit_of(d as nat)]);
    }
    text
}

/// Appends a number in decimal.
pub fn append_decimal(out: &mut String, n: usize)
    ensures
        final(out)@ == old(out)@ + decimal_of(n as nat),
    decreases n,
{
    let ghost start = out@;
    if n >= 10 {
        append_decimal(out, n / 10);
    }
    out.append(digit(n % 10));
    proof {
        assert(out@ =~= start + decimal_of(n as nat));
    }
}

/// A signed number in decimal.
pub open spec fn signed_decimal_of(n: int) -> Seq<char> {
    if n < 0 {
        "-"@ + decimal_of((-n) as nat)
    } else {
        decimal_of(n as nat)
    }
}

/// Appends a signed number in decimal.
pub fn append_signed_decimal(out: &mut String, n: i32)
    ensures
        final(out)@ == old(out)@ + signed_decimal_of(n as int),
{
    let ghost start = out@;
    if n < 0 {
        out.append("-");
        append_decimal(out, (0 - n as i64) as usize);
        proof {
            assert(out@ =~= start + signed_decimal_of(n as int));
        }
    } else {
        append_decimal(out, n as usize);
    }
}

/// The numbers from `from` on, with commas between them.
pub open spec fn listed_from(values: Seq<nat>, from: int) -> Seq<char>
    decreases values.len() - from,
{
    if from >= values.len() {
        Seq::empty()
    } else if from + 1 == values.len() {
        decimal_of(values[from])
    } else {
        decimal_of(values[from]) + ", "@ + listed_from(values, from + 1)
    }
}

/// A list of numbers in brackets.
pub open spec fn list_of(values: Seq<nat>) -> Seq<char> {
    "["@ + listed_from(values, 0) + "]"@
}

/// Lengths as numbers.
pub open spec fn lengths(values: Seq<usize>) -> Seq<nat> {
    Seq::new(values.len(), |i: int| values[i] as nat)
}

/// Appends a list of lengths in brackets.
pub fn append_list(out: &mut String, values: &[usize])
    ensures
        final(out)@ == old(out)@ + list_of(lengths(values@)),
{
    let ghost start = out@;
    let ghost all = lengths(values@);
    out.append("[");
    for i in 0..values.len()
        invariant
            all == lengths(values@),
            out@ + listed_from(all, i as int) == start + "["@ + listed_from(all, 0),
    {
        let ghost before = out@;
        append_decimal(out, values[i]);
        if i + 1 < values.len() {
            out.append(", ");
        }
        proof {
            assert(out@ + listed_from(all, i + 1) =~= before + listed_from(all, i as int));
        }
    }
    proof {
        assert(out@ =~= start + "["@ + listed_from(all, 0));
    }
    out.append("]");
    proof {
        assert(out@ =~= start + list_of(all));
    }
}

/// Axes as numbers.
pub open spec fn axes(values: Seq<u64>) -> Seq<nat> {
    Seq::new(values.len(), |i: int| values[i] as nat)
}

/// Appends a long number in decimal.
pub fn append_long_decimal(out: &mut String, n: u64)
    ensures
        final(out)@ == old(out)@ + decimal_of(n as nat),
    decreases n,
{
    let ghost start = out@;
    if n >= 10 {
        append_long_decimal(out, n / 10);
    }
    out.append(digit((n % 10) as usize));
    proof {
        assert(out@ =~= start + decimal_of(n as nat));
    }
}

/// Appends a list of axes in brackets.
pub fn append_axes(out: &mut String, values: &[u64])
    ensures
        final(out)@ == old(out)@ + list_of(axes(values@)),
{
    let ghost start = out@;
    let ghost all = axes(values@);
    out.append("[");
    for i in 0..values.len()
        invariant
            all == axes(values@),
            out@ + listed_from(all, i as int) == start + "["@ + listed_from(all, 0),
    {
        let ghost before = out@;
        append_long_decimal(out, values[i]);
        if i + 1 < values.len() {
            out.append(", ");
        }
        proof {
            assert(out@ + listed_from(all, i + 1) =~= before + listed_from(all, i as int));
        }
    }
    proof {
        assert(out@ =~= start + "["@ + listed_from(all, 0));
    }
    out.append("]");
    proof {
        assert(out@ =~= start + list_of(all));
    }
}

/// A number in decimal.
pub fn decimal(n: usize) -> (text: String)
    ensures
        text@ == decimal_of(n as nat),
{
    let mut text = String::new();
    append_decimal(&mut text, n);
    proof {
        assert(text@ =~= decimal_of(n as nat));
    }
    text
}

/// Two texts end to end.
pub fn join(a: &str, b: &str) -> (text: String)
    ensures
        text@ == a@ + b@,
{
    let mut text = String::from_str(a);
    text.append(b);
    text
}

/// A text with a number behind it.
pub fn numbered(a: &str, n: usize) -> (text: String)
    ensures
        text@ == a@ + decimal_of(n as nat),
{
    let mut text = String::from_str(a);
    append_decimal(&mut text, n);
    text
}

/// Two texts with a number between them.
pub fn join_number(a: &str, n: usize, b: &str) -> (text: String)
    ensures
        text@ == a@ + decimal_of(n as nat) + b@,
{
    let mut text = String::from_str(a);
    append_decimal(&mut text, n);
    text.append(b);
    text
}

/// The character of one hexadecimal digit.
pub open spec fn hex_digit_of(d: nat) -> char {
    if d < 10 {
        digit_of(d)
    } else {
        (87 + d) as char
    }
}

/// The last `width` hexadecimal digits of a number, with leading zeros.
pub open spec fn hex_of(n: nat, width: nat) -> Seq<char>
    decreases width,
{
    if width == 0 {
        Seq::empty()
    } else {
        hex_of(n / 16, (width - 1) as nat).push(hex_digit_of(n % 16))
    }
}

/// One hexadecimal digit.
fn hex_digit(d: usize) -> (text: &'static str)
    requires
        d < 16,
    ensures
        text@ == seq![hex_digit_of(d as nat)],
{
    if d < 10 {
        return digit(d);
    }
    let text = if d == 10 {
        "a"
    } else if d == 11 {
        "b"
    } else if d == 12 {
        "c"
    } else if d == 13 {
        "d"
    } else if d == 14 {
        "e"
    } else {
        "f"
    };
    proof {
        reveal_strlit("a");
        reveal_strlit("b");
        reveal_strlit("c");
        reveal_strlit("d");
        reveal_strlit("e");
        reveal_strlit("f");
        assert(text@ =~= seq![hex_digit_of(d as nat)]);
    }
    text
}

/// Appends the last `width` hexadecimal digits of a number, with leading zeros.
pub fn append_hex(out: &mut String, n: u64, width: usize)
    ensures
        final(out)@ == old(out)@ + hex_of(n as nat, width as nat),
    decreases width,
{
    let ghost start = out@;
    if width > 0 {
        append_hex(out, n / 16, width - 1);
        out.append(hex_digit((n % 16) as usize));
    }
    proof {
        assert(out@ =~= start + hex_of(n as nat, width as nat));
    }
}

/// The text of a number determines the number.
pub proof fn law_decimal_is_injective(a: nat, b: nat)
    requires
        decimal_of(a) == decimal_of(b),
    ensures
        a == b,
    decreases a,
{
    lemma_decimal_len(a);
    lemma_decimal_len(b);
    let x = decimal_of(a);
    let y = decimal_of(b);
    assert(x.last() == digit_of(a % 10));
    assert(y.last() == digit_of(b % 10));
    assert(a % 10 == b % 10);
    if a >= 10 && b >= 10 {
        assert(decimal_of(a / 10) =~= x.drop_last());
        assert(decimal_of(b / 10) =~= y.drop_last());
        law_decimal_is_injective(a / 10, b / 10);
    }
}

/// A number has at least one digit, and more than one from ten on.
proof fn lemma_decimal_len(n: nat)
    ensures
        decimal_of(n).len() >= 1,
        (decimal_of(n).len() > 1) == (n >= 10),
    decreases n,
{
    if n >= 10 {
        lemma_decimal_len(n / 10);
    }
}

} // verus!
