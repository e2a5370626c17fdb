//! Numbers as text.

use vstd::prelude::*;
use vstd::string::*;

verus! {

/// The character of one hexadecimal digit, letters in upper case.
pub open spec fn hex_char(digit: int) -> char
    recommends
        0 <= digit < 16,
{
    if digit < 10 {
        ('0' as int + digit) as char
    } else {
        ('A' as int + digit - 10) as char
    }
}

/// `n` in decimal, with no leading zero.
pub open spec fn decimal_text(n: nat) -> Seq<char>
    decreases n,
{
    if n < 10 {
        seq![hex_char(n as int)]
    } else {
        decimal_text(n / 10).push(hex_char((n % 10) as int))
    }
}

/// One byte in upper-case hexadecimal, with no leading zero.
pub open spec fn byte_text(byte: u8) -> Seq<char> {
    if byte < 16 {
        seq![hex_char(byte as int)]
    } else {
        seq![hex_char(byte as int / 16), hex_char(byte as int % 16)]
    }
}

/// Bytes in upper-case hexadecimal, one after the other.
pub open spec fn bytes_text(bytes: Seq<u8>) -> Seq<char>
    decreases bytes.len(),
{
    if bytes.len() == 0 {
        seq![]
    } else {
        bytes_text(bytes.drop_last()) + byte_text(bytes.last())
    }
}

/// The text of one hexadecimal digit.
fn digit_text(digit: u8) -> (text: &'static str)
    requires
        digit < 16,
    ensures
        text@ == seq![hex_char(digit as int)],
{
    proof {
        reveal_strlit("0");
        reveal_strlit("1");
        reveal_strlit("2");
        reveal_strlit("3");
        reveal_strlit("4");
        reveal_strlit("5");
        reveal_strlit("6");
        reveal_strlit("7");
        reveal_strlit("8");
        reveal_strlit("9");
        reveal_strlit("A");
        reveal_strlit("B");
        reveal_strlit("C");
        reveal_strlit("D");
        reveal_strlit("E");
        reveal_strlit("F");
    }
    match digit {
        0 => "0",
        1 => "1",
        2 => "2",
        3 => "3",
        4 => "4",
        5 => "5",
        6 => "6",
        7 => "7",
        8 => "8",
        9 => "9",
        10 => "A",
        11 => "B",
        12 => "C",
        13 => "D",
        14 => "E",
        _ => "F",
    }
}

/// Writes `n` in decimal.
pub fn decimal(n: usize) -> (text: String)
    ensures
        text@ == decimal_text(n as nat),
    decreases n,
{
    if n < 10 {
        String::from_str(digit_text(n as u8))
    } else {
        let mut text = decimal(n / 10);
        text.append(digit_text((n % 10) as u8));
        proof {
            assert(text@ =~= decimal_text((n / 10) as nat).push(hex_char((n % 10) as int)));
        }
        text
    }
}

/// Writes bytes in upper-case hexadecimal.
pub fn hex(bytes: &[u8]) -> (text: String)
    ensures
        text@ == bytes_text(bytes@),
{
    let mut text = String::new();
    for i in 0..bytes.len()
        invariant
            text@ == bytes_text(bytes@.take(i as int)),
    {
        let byte = bytes[i];
        proof {
            assert(bytes@.take(i + 1).drop_last() =~= bytes@.take(i as int));
        }
        if byte >= 16 {
            text.append(digit_text(byte / 16));
        }
        text.append(digit_text(byte % 16));
        proof {
            assert(text@ =~= bytes_text(bytes@.take(i as int)) + byte_text(byte));
        }
    }
    proof {
        assert(bytes@.take(bytes@.len() as int) =~= bytes@);
    }
    text
}

/// Law: a byte of 16 or more is written as two digits, a smaller one as one digit,
/// each of them `0` to `9` or `A` to `F`, and the digits read back as the byte.
pub proof fn law_byte_reads_back(byte: u8)
    ensures
        ({
            let text = bytes_text(seq![byte]);
            let value = |c: char|
                if c as int <= '9' as int {
                    c as int - '0' as int
                } else {
                    c as int - 'A' as int + 10
                };
            &&& byte < 16 ==> text.len() == 1 && value(text[0]) == byte
            &&& byte >= 16 ==> text.len() == 2 && 16 * value(text[0]) + value(text[1]) == byte
            &&& forall|i: int|
                0 <= i < text.len() ==> {
                    ||| '0' as int <= (#[trigger] text[i]) as int <= '9' as int
                    ||| 'A' as int <= text[i] as int <= 'F' as int
                }
            &&& text == byte_text(byte)
        }),
{
    reveal_with_fuel(bytes_text, 2);
    assert(seq![byte].drop_last() =~= Seq::<u8>::empty());
    assert(bytes_text(seq![byte]) =~= byte_text(byte));
}

/// Law: no two bytes are written alike.
pub proof fn law_bytes_are_told_apart(a: u8, b: u8)
    requires
        bytes_text(seq![a]) == bytes_text(seq![b]),
    ensures
        a == b,
{
    law_byte_reads_back(a);
    law_byte_reads_back(b);
}

/// Law: bytes are written one behind the other, with nothing between them, and
/// none of them changes how another is written.
pub proof fn law_bytes_are_written_in_a_row(first: Seq<u8>, second: Seq<u8>)
    ensures
        bytes_text(first + second) == bytes_text(first) + bytes_text(second),
        bytes_text(Seq::<u8>::empty()) == Seq::<char>::empty(),
    decreases second.len(),
{
    if second.len() == 0 {
        assert(first + second =~= first);
    } else {
        law_bytes_are_written_in_a_row(first, second.drop_last());
        assert((first + second).drop_last() =~= first + second.drop_last());
    }
    assert(bytes_text(first + second) =~= bytes_text(first) + bytes_text(second));
}

/// Law: a number in decimal is made of the digits `0` to `9`, reads back as the
/// number, and has no zero in front unless it is zero.
pub proof fn law_decimal_reads_back(n: nat)
    ensures
        ({
            let text = decimal_text(n);
            &&& text.len() > 0
            &&& text.fold_left(0int, |value: int, c: char| 10 * value + (c as int - '0' as int))
                == n
            &&& forall|i: int|
                0 <= i < text.len() ==> '0' as int <= (#[trigger] text[i]) as int <= '9' as int
            &&& n > 0 ==> text[0] != '0'
            &&& n == 0 ==> text == seq!['0']
        }),
    decreases n,
{
    let read = |value: int, c: char| 10 * value + (c as int - '0' as int);
    let text = decimal_text(n);
    reveal_with_fuel(Seq::fold_left, 2);
    if n < 10 {
        assert(text.drop_last() =~= Seq::<char>::empty());
        assert(text.fold_left(0int, read) == read(0int, text[0]));
    } else {
        let head = decimal_text(n / 10);
        law_decimal_reads_back(n / 10);
        assert(text.drop_last() =~= head);
        assert(text.fold_left(0int, read) == read(head.fold_left(0int, read), text.last()));
    }
}

} // verus!
