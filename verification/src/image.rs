//! Turning the density grid into a binary PPM image: the header, the
//! brightest count, the rows of colour, and which rows report progress.

use vstd::prelude::*;
use crate::text::{decimal, push_decimal};
use crate::cli::{unsigned_text_value, lemma_decimal_reads_back, lemma_decimal_digits};

verus! {

/// The header of a binary PPM (`P6`) image of `width` by `height` pixels
/// with 255 as the largest channel value.
pub open spec fn ppm_header_text(width: nat, height: nat) -> Seq<char> {
    "P6\n"@ + decimal(width) + " "@ + decimal(height) + "\n255\n"@
}

/// The PPM header for a `width` by `height` image: `"P6\n4 2\n255\n"` for a
/// 4 by 2 one.
pub fn ppm_header(width: usize, height: usize) -> (r: String)
    ensures
        r@ == ppm_header_text(width as nat, height as nat),
{
    let mut s = String::from_str("P6\n");
    push_decimal(&mut s, width as u128);
    s.append(" ");
    push_decimal(&mut s, height as u128);
    s.append("\n255\n");
    s
}

/// The largest count in the grid, `0` for an empty grid.
pub fn max_count(density: &[u16]) -> (r: u32)
    ensures
        forall|i: int| 0 <= i < density@.len() ==> density@[i] <= r,
        density@.len() == 0 ==> r == 0,
        density@.len() > 0 ==> exists|i: int| 0 <= i < density@.len() && density@[i] == r,
{
    let mut best: u32 = 0;
    let mut i: usize = 0;
    while i < density.len()
        invariant
            i <= density@.len(),
            forall|j: int| 0 <= j < i ==> density@[j] <= best,
            i == 0 ==> best == 0,
            i > 0 ==> exists|j: int| 0 <= j < i && density@[j] == best,
        decreases density@.len() - i,
    {
        let v = density[i] as u32;
        if i == 0 || v > best {
            best = v;
        }
        proof {
            assert(density@[i as int] <= best);
        }
        i = i + 1;
    }
    best
}

/// Fills `row` with the colours of the pixels of image row `y`: pixel `x`
/// takes bytes `3x .. 3x + 2`, the colour `colors[c]` for its count `c`.
/// Bytes past `3 * width` are left as they are.
pub fn fill_row(row: &mut Vec<u8>, colors: &Vec<[u8; 3]>, density: &[u16], y: usize, width: usize)
    requires
        3 * width <= old(row)@.len(),
        (y + 1) * width <= density@.len(),
        forall|x: int| 0 <= x < width ==> (#[trigger] density@[y * width + x]) < colors@.len(),
    ensures
        final(row)@.len() == old(row)@.len(),
        forall|x: int, c: int|
            0 <= x < width && 0 <= c < 3 ==> #[trigger] final(row)@[3 * x + c]
                == colors@[density@[y * width + x] as int][c],
        forall|j: int| 3 * width <= j < old(row)@.len() ==> #[trigger] final(row)@[j] == old(row)@[j],
{
    let n = density.len();
    let rn = row.len();
    let mut x: usize = 0;
    while x < width
        invariant
            n == density@.len(),
            rn == row@.len(),
            x <= width,
            3 * width <= row@.len(),
            row@.len() == old(row)@.len(),
            (y + 1) * width <= density@.len(),
            forall|k: int| 0 <= k < width ==> (#[trigger] density@[y * width + k]) < colors@.len(),
            forall|k: int, c: int|
                0 <= k < x && 0 <= c < 3 ==> #[trigger] row@[3 * k + c] == colors@[density@[y
                    * width + k] as int][c],
            forall|j: int| 3 * width <= j < old(row)@.len() ==> #[trigger] row@[j] == old(row)@[j],
        decreases width - x,
    {
        assert((y + 1) * width == y * width + width) by (nonlinear_arith);
        assert(y * width + x < n);
        let index = y * width + x;
        let count = density[index] as usize;
        assert(density@[y * width + x] < colors@.len());
        let color = colors[count];
        let offset = x * 3;
        row.set(offset, color[0]);
        row.set(offset + 1, color[1]);
        row.set(offset + 2, color[2]);
        proof {
            assert forall|k: int, c: int|
                0 <= k < x + 1 && 0 <= c < 3 implies #[trigger] row@[3 * k + c] == colors@[density@[y
                * width + k] as int][c] by {
                if k < x {
                    assert(3 * k + c < 3 * x);
                }
            }
        }
        x = x + 1;
    }
}

/// Whether finishing image row `y` of `height` is reported as progress:
/// every 32nd row, and the last one.
pub fn row_reported(y: usize, height: usize) -> (r: bool)
    requires
        y < height,
    ensures
        r == (y % 32 == 0 || y + 1 == height),
{
    y % 32 == 0 || y + 1 == height
}

/// The header reads back as the image's size, width first: it is `P6`, a
/// line break, the width in decimal, a single space, the height in decimal,
/// and the line `255`.
pub proof fn lemma_ppm_header_reads_back(width: nat, height: nat)
    ensures
        ({
            let s = ppm_header_text(width, height);
            exists|k: int|
                3 < k < s.len() - 5 && #[trigger] s[k] == ' ' && s.subrange(0, 3) == "P6\n"@
                    && unsigned_text_value(s.subrange(3, k)) == Some(width) && unsigned_text_value(
                    s.subrange(k + 1, s.len() - 5),
                ) == Some(height) && s.subrange(s.len() - 5, s.len() as int) == "\n255\n"@
        }),
{
    reveal_strlit("P6\n");
    reveal_strlit(" ");
    reveal_strlit("\n255\n");
    lemma_decimal_digits(width);
    lemma_decimal_digits(height);
    lemma_decimal_reads_back(width);
    lemma_decimal_reads_back(height);
    let s = ppm_header_text(width, height);
    let dw = decimal(width);
    let dh = decimal(height);
    let k: int = 3 + dw.len() as int;
    assert(s.subrange(0, 3) =~= "P6\n"@);
    assert(s.subrange(3, k) =~= dw);
    assert(s[k] == ' ');
    assert(s.subrange(k + 1, s.len() - 5) =~= dh);
    assert(s.subrange(s.len() - 5, s.len() as int) =~= "\n255\n"@);
}

} // verus!
