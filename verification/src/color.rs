use vstd::prelude::*;

verus! {

/// The ASCII digit for `d`.
pub open spec fn digit(d: nat) -> u8
    recommends
        d < 10,
{
    (48 + d) as u8
}

/// `n` in decimal, as ASCII, without leading zeros.
pub open spec fn decimal(n: nat) -> Seq<u8>
    decreases n,
{
    if n < 10 {
        seq![digit(n)]
    } else {
        decimal(n / 10).push(digit(n % 10))
    }
}

/// One line of a plain-text pixel map: the three channels in decimal, a
/// space between them and a line feed at the end.
pub open spec fn color_line(rgb: (u8, u8, u8)) -> Seq<u8> {
    decimal(rgb.0 as nat) + seq![32u8] + decimal(rgb.1 as nat) + seq![32u8] + decimal(
        rgb.2 as nat,
    ) + seq![10u8]
}

/// Appends `n` in decimal to `out`.
fn write_decimal(out: &mut Vec<u8>, n: u8)
    ensures
        final(out)@ == old(out)@ + decimal(n as nat),
{
    let ghost before = out@;
    if n >= 100 {
        out.push(48 + n / 100);
    }
    if n >= 10 {
        out.push(48 + (n / 10) % 10);
    }
    out.push(48 + n % 10);
    proof {
        let v = n as nat;
        if v >= 100 {
            assert(v / 10 >= 10 && v / 10 / 10 < 10 && v / 10 / 10 == v / 100);
            assert(decimal(v / 10 / 10) =~= seq![digit(v / 100)]);
            assert(decimal(v / 10) =~= seq![digit(v / 100), digit((v / 10) % 10)]);
            assert(decimal(v) =~= seq![digit(v / 100), digit((v / 10) % 10), digit(v % 10)]);
        } else if v >= 10 {
            assert(v / 10 < 10);
            assert(decimal(v / 10) =~= seq![digit(v / 10)]);
            assert((v / 10) % 10 == v / 10);
            assert(decimal(v) =~= seq![digit(v / 10), digit(v % 10)]);
        }
        assert(out@ =~= before + decimal(v));
    }
}

/// Writes one pixel as a line of text to `out`.
pub fn write_color(out: &mut Vec<u8>, rgb: (u8, u8, u8))
    ensures
        final(out)@ == old(out)@ + color_line(rgb),
{
    let ghost before = out@;
    write_decimal(out, rgb.0);
    out.push(32);
    write_decimal(out, rgb.1);
    out.push(32);
    write_decimal(out, rgb.2);
    out.push(10);
    assert(out@ =~= before + color_line(rgb));
}

} // verus!
