//! The buffer as a plain PPM (P3) image: a header with the dimensions and
//! the largest channel value, then one line per pixel, in ASCII.
use vstd::prelude::*;

use super::{Canvas, Color24, SoftwareBuffer};

verus! {

/// The decimal digits of `n`, most significant first, as ASCII.
pub open spec fn decimal(n: nat) -> Seq<u8>
    decreases n,
{
    if n < 10 {
        seq![(48 + n) as u8]
    } else {
        decimal(n / 10).push((48 + n % 10) as u8)
    }
}

/// The number that the ASCII digits `s` stand for, read most significant
/// first.
pub open spec fn digits_value(s: Seq<u8>) -> int
    decreases s.len(),
{
    if s.len() == 0 {
        0
    } else {
        digits_value(s.drop_last()) * 10 + (s.last() - 48)
    }
}

/// `decimal(n)` is the decimal numeral of `n`: ASCII digits only, no
/// leading zero (but for `0` itself), standing for `n`.
pub proof fn law_decimal_is_numeral(n: nat)
    ensures
        decimal(n).len() >= 1,
        forall|i: int| 0 <= i < decimal(n).len() ==> 48 <= #[trigger] decimal(n)[i] <= 57,
        decimal(n)[0] != 48 || n == 0,
        digits_value(decimal(n)) == n,
    decreases n,
{
    if n >= 10 {
        law_decimal_is_numeral(n / 10);
        let prev = decimal(n / 10);
        let d = decimal(n);
        assert(d == prev.push((48 + n % 10) as u8));
        assert(d.drop_last() =~= prev);
        assert forall|i: int| 0 <= i < d.len() implies 48 <= #[trigger] d[i] <= 57 by {
            if i < prev.len() {
                assert(d[i] == prev[i]);
            }
        }
        assert(d[0] == prev[0]);
        assert(((48 + n % 10) as u8) as int == 48 + n % 10);
        assert(d.last() == (48 + n % 10) as u8);
        assert((n / 10) * 10 + n % 10 == n);
        assert(digits_value(d) == digits_value(prev) * 10 + (d.last() - 48));
    } else {
        let d = decimal(n);
        assert(d.drop_last() =~= Seq::<u8>::empty());
        assert(digits_value(d.drop_last()) == 0);
        assert(d.last() == (48 + n) as u8);
        assert(digits_value(d) == digits_value(d.drop_last()) * 10 + (d.last() - 48));
    }
}

pub open spec fn space() -> Seq<u8> {
    seq![32u8]
}

pub open spec fn newline() -> Seq<u8> {
    seq![10u8]
}

/// `P3`, the dimensions and `255`, each on a line of its own.
pub open spec fn ppm_header(width: u16, height: u16) -> Seq<u8> {
    seq![80u8, 51u8, 10u8] + decimal(width as nat) + space() + decimal(height as nat) + newline()
        + seq![50u8, 53u8, 53u8, 10u8]
}

/// A pixel's line: its three channels, each after a space, then a space.
pub open spec fn ppm_pixel_line(c: Color24) -> Seq<u8> {
    space() + decimal(c.r as nat) + space() + decimal(c.g as nat) + space() + decimal(c.b as nat)
        + space() + newline()
}

/// The lines of the pixels `ps`, in order.
pub open spec fn ppm_pixel_lines(ps: Seq<Color24>) -> Seq<u8>
    decreases ps.len(),
{
    if ps.len() == 0 {
        seq![]
    } else {
        ppm_pixel_lines(ps.drop_last()) + ppm_pixel_line(ps.last())
    }
}

/// The whole image: the header, then a line for each pixel in memory order.
pub open spec fn ppm_text(c: Canvas) -> Seq<u8> {
    ppm_header(c.width, c.height) + ppm_pixel_lines(c.pixels)
}

/// Appends the decimal digits of `n` to `out`.
fn push_decimal(out: &mut Vec<u8>, n: u16)
    ensures
        final(out)@ == old(out)@ + decimal(n as nat),
    decreases n,
{
    if n < 10 {
        out.push(48 + n as u8);
        assert(decimal(n as nat) =~= seq![(48 + n) as u8]);
    } else {
        push_decimal(out, n / 10);
        out.push(48 + (n % 10) as u8);
        assert(decimal(n as nat) == decimal((n / 10) as nat).push((48 + n % 10) as u8));
    }
}

fn push_bytes(out: &mut Vec<u8>, bytes: &[u8])
    ensures
        final(out)@ == old(out)@ + bytes@,
{
    let ghost start = out@;
    for i in 0..bytes.len()
        invariant
            out@ == start + bytes@.subrange(0, i as int),
    {
        out.push(bytes[i]);
        assert(start + bytes@.subrange(0, i + 1) =~= (start + bytes@.subrange(0, i as int)).push(
            bytes@[i as int],
        ));
    }
    assert(bytes@.subrange(0, bytes@.len() as int) =~= bytes@);
}

impl SoftwareBuffer {
    /// The buffer as a plain PPM (P3) image, ready to be printed.
    pub fn to_ppm(&self) -> (text: Vec<u8>)
        ensures
            text@ == ppm_text(self@),
    {
        let mut out: Vec<u8> = Vec::new();
        push_bytes(&mut out, &[80u8, 51u8, 10u8]);
        push_decimal(&mut out, self.width);
        out.push(32u8);
        push_decimal(&mut out, self.height);
        out.push(10u8);
        push_bytes(&mut out, &[50u8, 53u8, 53u8, 10u8]);
        let ghost header = out@;
        assert(header =~= ppm_header(self.width, self.height));
        for i in 0..self.pixels.len()
            invariant
                header == ppm_header(self.width, self.height),
                out@ == header + ppm_pixel_lines(self.pixels@.subrange(0, i as int)),
        {
            let pixel = self.pixels[i];
            let ghost before = out@;
            out.push(32u8);
            push_decimal(&mut out, pixel.r as u16);
            out.push(32u8);
            push_decimal(&mut out, pixel.g as u16);
            out.push(32u8);
            push_decimal(&mut out, pixel.b as u16);
            out.push(32u8);
            out.push(10u8);
            assert(out@ =~= before + ppm_pixel_line(pixel));
            assert(self.pixels@.subrange(0, i + 1).drop_last() =~= self.pixels@.subrange(0, i as int));
            assert(out@ =~= header + ppm_pixel_lines(self.pixels@.subrange(0, i + 1)));
        }
        assert(self.pixels@.subrange(0, self.pixels@.len() as int) =~= self.pixels@);
        out
    }
}

} // verus!
