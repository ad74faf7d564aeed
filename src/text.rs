use vstd::prelude::*;
use vstd::string::StringExecFns;

verus! {

pub open spec fn digit_char(d: nat) -> char {
    (48 + d) as char
}

/// The four binary digits of `n` (below 16), most significant first.
pub open spec fn bin4(n: nat) -> Seq<char> {
    seq![
        digit_char(n / 8 % 2),
        digit_char(n / 4 % 2),
        digit_char(n / 2 % 2),
        digit_char(n % 2),
    ]
}

/// The decimal digits of `n`, without leading zeros.
pub open spec fn decimal(n: nat) -> Seq<char>
    decreases n,
{
    if n < 10 {
        seq![digit_char(n)]
    } else {
        decimal(n / 10).push(digit_char(n % 10))
    }
}

/// Each byte in decimal, followed by a space.
pub open spec fn data_text(b: Seq<u8>) -> Seq<char>
    decreases b.len(),
{
    if b.len() == 0 {
        seq![]
    } else {
        data_text(b.drop_last()) + decimal(b.last() as nat) + seq![' ']
    }
}

/// The echo line of a wire message: where there are data bytes, the status
/// byte's two nibbles in binary; then the data bytes in decimal.
pub open spec fn message_text(b: Seq<u8>) -> Seq<char> {
    if b.len() == 0 {
        seq![]
    } else if b.len() > 1 {
        bin4(b[0] as nat / 16) + seq![' '] + bin4(b[0] as nat % 16) + seq![' '] + data_text(
            b.subrange(1, b.len() as int),
        )
    } else {
        seq![]
    }
}

fn push_digit(s: &mut String, d: u8)
    requires
        d < 10,
    ensures
        final(s)@ == old(s)@ + seq![digit_char(d as nat)],
{
    proof {
        reveal_strlit("0");
        reveal_strlit("1");
        reveal_strlit("2");
        reveal_strlit("3");
        reveal_strlit("4");
        reveal_strlit("5");
        reveal_strlit("6");
        reveal_strlit("7");
        reveal_strlit("8");
        reveal_strlit("9");
    }
    let t: &str = if d == 0 {
        "0"
    } else if d == 1 {
        "1"
    } else if d == 2 {
        "2"
    } else if d == 3 {
        "3"
    } else if d == 4 {
        "4"
    } else if d == 5 {
        "5"
    } else if d == 6 {
        "6"
    } else if d == 7 {
        "7"
    } else if d == 8 {
        "8"
    } else {
        "9"
    };
    s.append(t);
    assert(final(s)@ =~= old(s)@ + seq![digit_char(d as nat)]);
}

fn push_space(s: &mut String)
    ensures
        final(s)@ == old(s)@ + seq![' '],
{
    proof {
        reveal_strlit(" ");
    }
    s.append(" ");
    assert(final(s)@ =~= old(s)@ + seq![' ']);
}

fn push_bin4(s: &mut String, n: u8)
    requires
        n < 16,
    ensures
        final(s)@ == old(s)@ + bin4(n as nat),
{
    let ghost start = s@;
    push_digit(s, n / 8 % 2);
    push_digit(s, n / 4 % 2);
    push_digit(s, n / 2 % 2);
    push_digit(s, n % 2);
    assert(final(s)@ =~= start + bin4(n as nat));
}

fn push_decimal(s: &mut String, n: u8)
    ensures
        final(s)@ == old(s)@ + decimal(n as nat),
{
    proof {
        reveal_with_fuel(decimal, 3);
        assert(n as nat / 10 / 10 == n as nat / 100);
    }
    let ghost start = s@;
    if n >= 100 {
        push_digit(s, n / 100);
    }
    if n >= 10 {
        push_digit(s, n / 10 % 10);
    }
    push_digit(s, n % 10);
    assert(final(s)@ =~= start + decimal(n as nat));
}

/// Renders a wire message for the console: for a message with data bytes,
/// the status nibbles in binary (`1001 0000 `), then each data byte in
/// decimal followed by a space.
pub fn format_message(bytes: &[u8]) -> (r: String)
    ensures
        r@ == message_text(bytes@),
{
    let mut s = String::new();
    if bytes.len() == 0 {
        return s;
    }
    if bytes.len() > 1 {
        push_bin4(&mut s, bytes[0] / 16);
        push_space(&mut s);
        push_bin4(&mut s, bytes[0] % 16);
        push_space(&mut s);
    }
    let ghost head = s@;
    let mut i: usize = 1;
    assert(bytes@.subrange(1, 1) =~= Seq::<u8>::empty());
    assert(s@ =~= head + data_text(bytes@.subrange(1, 1)));
    while i < bytes.len()
        invariant
            1 <= i <= bytes.len(),
            s@ == head + data_text(bytes@.subrange(1, i as int)),
        decreases bytes.len() - i,
    {
        push_decimal(&mut s, bytes[i]);
        push_space(&mut s);
        i += 1;
        assert(bytes@.subrange(1, i as int).drop_last() =~= bytes@.subrange(1, i - 1));
        assert(s@ =~= head + data_text(bytes@.subrange(1, i as int)));
    }
    proof {
        if bytes.len() == 1 {
            assert(bytes@.subrange(1, 1).len() == 0);
            assert(s@ =~= Seq::<char>::empty());
        } else {
            assert(s@ =~= message_text(bytes@));
        }
    }
    s
}

} // verus!
