//! Numbers and bytes as text, for the descriptions that people read.

use vstd::prelude::*;
use vstd::string::StringExecFns;

verus! {

/// The digit that stands for `n` in base sixteen, in lower or in upper case.
pub open spec fn hex_digit(n: u8, upper: bool) -> char {
    if n == 0 {
        '0'
    } else if n == 1 {
        '1'
    } else if n == 2 {
        '2'
    } else if n == 3 {
        '3'
    } else if n == 4 {
        '4'
    } else if n == 5 {
        '5'
    } else if n == 6 {
        '6'
    } else if n == 7 {
        '7'
    } else if n == 8 {
        '8'
    } else if n == 9 {
        '9'
    } else if n == 10 {
        if upper {
            'A'
        } else {
            'a'
        }
    } else if n == 11 {
        if upper {
            'B'
        } else {
            'b'
        }
    } else if n == 12 {
        if upper {
            'C'
        } else {
            'c'
        }
    } else if n == 13 {
        if upper {
            'D'
        } else {
            'd'
        }
    } else if n == 14 {
        if upper {
            'E'
        } else {
            'e'
        }
    } else {
        if upper {
            'F'
        } else {
            'f'
        }
    }
}

/// The half-bytes of `bytes`, the high half of each byte first.
pub open spec fn nibbles(bytes: Seq<u8>) -> Seq<u8> {
    Seq::new(
        2 * bytes.len(),
        |i: int|
            if i % 2 == 0 {
                bytes[i / 2] / 16
            } else {
                bytes[i / 2] % 16
            },
    )
}

/// The digits of the half-bytes `ns`.
pub open spec fn hex_digits(ns: Seq<u8>, upper: bool) -> Seq<char> {
    Seq::new(ns.len(), |i: int| hex_digit(ns[i], upper))
}

/// The bytes `bytes` in base sixteen, two digits a byte.
pub open spec fn hex_text(bytes: Seq<u8>, upper: bool) -> Seq<char> {
    hex_digits(nibbles(bytes), upper)
}

/// The number of zeros at the head of `ns`.
pub open spec fn leading_zeros(ns: Seq<u8>) -> int
    decreases ns.len(),
{
    if ns.len() > 0 && ns[0] == 0 {
        1 + leading_zeros(ns.drop_first())
    } else {
        0
    }
}

/// The bytes `bytes` in base sixteen without the zeros at the head, in lower case; a
/// single zero where nothing else is left.
pub open spec fn short_hex_text(bytes: Seq<u8>) -> Seq<char> {
    let ns = nibbles(bytes);
    let skip = leading_zeros(ns);
    if skip == ns.len() {
        seq!['0']
    } else {
        hex_digits(ns.skip(skip), false)
    }
}

/// The number `n` in base ten.
pub open spec fn decimal_text(n: nat) -> Seq<char>
    decreases n,
{
    if n < 10 {
        seq![hex_digit(n as u8, false)]
    } else {
        decimal_text(n / 10) + seq![hex_digit((n % 10) as u8, false)]
    }
}

/// The digit that stands for `n`.
fn digit_str(n: u8, upper: bool) -> (r: &'static str)
    requires
        n < 16,
    ensures
        r@ == seq![hex_digit(n, upper)],
{
    proof {
        reveal_strlit("0");
        reveal_strlit("1");
        reveal_strlit("2");
        reveal_strlit("3");
        reveal_strlit("4");
        reveal_strlit("5");
        reveal_strlit("6");
        reveal_strlit("7");
        reveal_strlit("8");
        reveal_strlit("9");
        reveal_strlit("a");
        reveal_strlit("b");
        reveal_strlit("c");
        reveal_strlit("d");
        reveal_strlit("e");
        reveal_strlit("f");
        reveal_strlit("A");
        reveal_strlit("B");
        reveal_strlit("C");
        reveal_strlit("D");
        reveal_strlit("E");
        reveal_strlit("F");
    }
    let r = match n {
        0 => "0",
        1 => "1",
        2 => "2",
        3 => "3",
        4 => "4",
        5 => "5",
        6 => "6",
        7 => "7",
        8 => "8",
        9 => "9",
        10 => if upper {
            "A"
        } else {
            "a"
        },
        11 => if upper {
            "B"
        } else {
            "b"
        },
        12 => if upper {
            "C"
        } else {
            "c"
        },
        13 => if upper {
            "D"
        } else {
            "d"
        },
        14 => if upper {
            "E"
        } else {
            "e"
        },
        _ => if upper {
            "F"
        } else {
            "f"
        },
    };
    assert(r@ =~= seq![hex_digit(n, upper)]);
    r
}

/// Appends the half-bytes of `bytes` from the position `from` on, as digits.
fn push_nibbles(out: &mut String, bytes: &[u8], from: usize, upper: bool)
    requires
        from <= 2 * bytes@.len(),
        bytes@.len() <= usize::MAX / 2,
    ensures
        final(out)@ == old(out)@ + hex_digits(nibbles(bytes@).skip(from as int), upper),
{
    let ghost start = out@;
    let ghost ns = nibbles(bytes@);
    let total = 2 * bytes.len();
    let mut i: usize = from;
    while i < total
        invariant
            from <= i <= total,
            total == 2 * bytes@.len(),
            ns == nibbles(bytes@),
            out@ == start + hex_digits(ns.subrange(from as int, i as int), upper),
        decreases total - i,
    {
        let byte = bytes[i / 2];
        let nibble = if i % 2 == 0 {
            byte / 16
        } else {
            byte % 16
        };
        out.append(digit_str(nibble, upper));
        assert(out@ =~= start + hex_digits(ns.subrange(from as int, i as int + 1), upper));
        i += 1;
    }
    assert(ns.subrange(from as int, total as int) =~= ns.skip(from as int));
}

/// Appends `bytes` in base sixteen, two digits a byte.
pub fn push_hex(out: &mut String, bytes: &[u8], upper: bool)
    requires
        bytes@.len() <= usize::MAX / 2,
    ensures
        final(out)@ == old(out)@ + hex_text(bytes@, upper),
{
    push_nibbles(out, bytes, 0, upper);
    assert(nibbles(bytes@).skip(0) =~= nibbles(bytes@));
}

/// Appends `bytes` in base sixteen without the zeros at the head, in lower case.
pub fn push_short_hex(out: &mut String, bytes: &[u8])
    requires
        bytes@.len() <= usize::MAX / 2,
    ensures
        final(out)@ == old(out)@ + short_hex_text(bytes@),
{
    let ghost ns = nibbles(bytes@);
    let total = 2 * bytes.len();
    let mut skip: usize = 0;
    let mut found = false;
    assert(ns.skip(0) =~= ns);
    while skip < total && !found
        invariant
            skip <= total,
            total == 2 * bytes@.len(),
            ns == nibbles(bytes@),
            leading_zeros(ns) == skip + leading_zeros(ns.skip(skip as int)),
            found ==> skip < total && ns[skip as int] != 0,
        decreases total - skip + if found { 0int } else { 1int },
    {
        let byte = bytes[skip / 2];
        let nibble = if skip % 2 == 0 {
            byte / 16
        } else {
            byte % 16
        };
        assert(ns.skip(skip as int)[0] == nibble);
        if nibble != 0 {
            found = true;
        } else {
            assert(ns.skip(skip as int).drop_first() =~= ns.skip(skip as int + 1));
            skip += 1;
        }
    }
    if found {
        assert(ns.skip(skip as int)[0] == ns[skip as int]);
        push_nibbles(out, bytes, skip, false);
    } else {
        proof {
            reveal_strlit("0");
        }
        out.append("0");
        assert("0"@ =~= seq!['0']);
    }
}

/// Appends `n` in base ten.
pub fn push_decimal(out: &mut String, n: u64)
    ensures
        final(out)@ == old(out)@ + decimal_text(n as nat),
    decreases n,
{
    if n >= 10 {
        push_decimal(out, n / 10);
    }
    out.append(digit_str((n % 10) as u8, false));
    assert(out@ =~= old(out)@ + decimal_text(n as nat));
}

/// The text of `s` as a new string.
pub fn text(s: &str) -> (r: String)
    ensures
        r@ == s@,
{
    String::from_str(s)
}

} // verus!
