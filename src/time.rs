//! Rendering of marker times as `hh:mm:ss.mmm`.
use vstd::prelude::*;
use vstd::string::StringExecFns;

verus! {

/// The decimal digit character for `d < 10`.
pub open spec fn digit_char(d: int) -> char {
    if d == 0 {
        '0'
    } else if d == 1 {
        '1'
    } else if d == 2 {
        '2'
    } else if d == 3 {
        '3'
    } else if d == 4 {
        '4'
    } else if d == 5 {
        '5'
    } else if d == 6 {
        '6'
    } else if d == 7 {
        '7'
    } else if d == 8 {
        '8'
    } else {
        '9'
    }
}

/// Decimal representation of `n`, without leading zeros.
pub open spec fn decimal(n: nat) -> Seq<char>
    decreases n,
{
    if n < 10 {
        seq![digit_char(n as int)]
    } else {
        decimal(n / 10).push(digit_char((n % 10) as int))
    }
}

/// Decimal representation of `n`, left-padded with zeros to `width` characters.
pub open spec fn padded(n: nat, width: nat) -> Seq<char> {
    let d = decimal(n);
    if d.len() >= width {
        d
    } else {
        Seq::new((width - d.len()) as nat, |i: int| '0') + d
    }
}

/// `ms` milliseconds written as hours, minutes, seconds and milliseconds:
/// `hh:mm:ss.mmm`, each field zero-padded, hours growing past two digits
/// when needed.
pub open spec fn time_text(ms: nat) -> Seq<char> {
    padded(ms / 3_600_000, 2) + seq![':'] + padded((ms / 60_000) % 60, 2) + seq![':'] + padded(
        (ms / 1000) % 60,
        2,
    ) + seq!['.'] + padded(ms % 1000, 3)
}

fn digit_text(d: u32) -> (r: &'static str)
    requires
        d < 10,
    ensures
        r@ == seq![digit_char(d as int)],
{
    proof {
        reveal_strlit("0");
        reveal_strlit("1");
        reveal_strlit("2");
        reveal_strlit("3");
        reveal_strlit("4");
        reveal_strlit("5");
        reveal_strlit("6");
        reveal_strlit("7");
        reveal_strlit("8");
        reveal_strlit("9");
    }
    match d {
        0 => "0",
        1 => "1",
        2 => "2",
        3 => "3",
        4 => "4",
        5 => "5",
        6 => "6",
        7 => "7",
        8 => "8",
        _ => "9",
    }
}

fn push_padded(out: &mut String, n: u32, width: u32)
    requires
        n < 1000,
        1 <= width <= 3,
    ensures
        final(out)@ == old(out)@ + padded(n as nat, width as nat),
{
    let ghost start = out@;
    proof {
        reveal_with_fuel(decimal, 3);
    }
    let len: u32 = if n >= 100 {
        3
    } else if n >= 10 {
        2
    } else {
        1
    };
    assert(decimal(n as nat).len() == len);
    let mut pad: u32 = 0;
    while pad + len < width
        invariant
            pad == 0 || pad + len <= width,
            width <= 3,
            out@ == start + Seq::new(pad as nat, |i: int| '0'),
        decreases width - pad,
    {
        out.append(digit_text(0));
        pad = pad + 1;
        assert(out@ =~= start + Seq::new(pad as nat, |i: int| '0'));
    }
    let ghost zeros = out@;
    if len == 3 {
        out.append(digit_text(n / 100));
    }
    if len >= 2 {
        out.append(digit_text((n / 10) % 10));
    }
    out.append(digit_text(n % 10));
    proof {
        if len == 3 {
            assert(decimal(n as nat) =~= seq![
                digit_char((n / 100) as int),
                digit_char(((n / 10) % 10) as int),
                digit_char((n % 10) as int),
            ]);
        } else if len == 2 {
            assert(decimal(n as nat) =~= seq![
                digit_char((n / 10) as int),
                digit_char((n % 10) as int),
            ]);
        }
        assert(out@ =~= zeros + decimal(n as nat));
        if pad == 0 {
            assert(start + Seq::new(pad as nat, |i: int| '0') =~= start);
        }
        assert(out@ =~= start + padded(n as nat, width as nat));
    }
}

/// Formats a millisecond count as `hh:mm:ss.mmm`.
pub fn format_time(ms: i32) -> (r: String)
    requires
        ms >= 0,
    ensures
        r@ == time_text(ms as nat),
{
    let hours: u32 = (ms / 3_600_000) as u32;
    let minutes: u32 = ((ms / 60_000) % 60) as u32;
    let seconds: u32 = ((ms / 1000) % 60) as u32;
    let millis: u32 = (ms % 1000) as u32;
    let mut out = String::new();
    push_padded(&mut out, hours, 2);
    out.append(":");
    push_padded(&mut out, minutes, 2);
    out.append(":");
    push_padded(&mut out, seconds, 2);
    out.append(".");
    push_padded(&mut out, millis, 3);
    proof {
        reveal_strlit(":");
        reveal_strlit(".");
        assert(out@ =~= time_text(ms as nat));
    }
    out
}

} // verus!
