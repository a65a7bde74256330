//! Rendering a block as a square grid of digits, for inspection.

use vstd::prelude::*;

use crate::bit::Bit;
use crate::block::Block;

verus! {

/// The two characters one position renders as: its digit and a space.
/// A position outside the stored bits renders as zero.
pub open spec fn spec_cell(bits: Seq<Bit>, idx: int) -> Seq<char> {
    let b = if 0 <= idx < bits.len() {
        bits[idx]
    } else {
        Bit::Zero
    };
    seq![b.spec_glyph(), ' ']
}

/// The first `cells` cells of row `j`, rendered.
pub open spec fn spec_row(bits: Seq<Bit>, width: int, j: int, cells: int) -> Seq<char>
    decreases cells,
{
    if cells <= 0 {
        Seq::empty()
    } else {
        spec_row(bits, width, j, cells - 1) + spec_cell(bits, j * width + (cells - 1))
    }
}

/// The first `rows` rows of the grid, rendered, each closed by a newline.
pub open spec fn spec_rows(bits: Seq<Bit>, width: int, rows: int) -> Seq<char>
    decreases rows,
{
    if rows <= 0 {
        Seq::empty()
    } else {
        spec_rows(bits, width, rows - 1) + spec_row(bits, width, rows - 1, width) + seq!['\n']
    }
}

/// The whole grid: `width` rows of `width` cells in row-major order.
pub open spec fn spec_render(bits: Seq<Bit>, width: int) -> Seq<char> {
    spec_rows(bits, width, width)
}

impl Block {
    /// Renders the block as `width` rows, each of `width` space-separated
    /// digits in row-major order, one row per line.
    pub fn render(&self) -> (s: String)
        ensures
            s@ == spec_render(self.bits@, self.width as int),
    {
        let width = self.width;
        let mut out = String::new();
        let mut j: usize = 0;
        while j < width
            invariant
                width == self.width,
                j <= width,
                out@ == spec_rows(self.bits@, width as int, j as int),
            decreases width - j,
        {
            let mut i: usize = 0;
            while i < width
                invariant
                    width == self.width,
                    j < width,
                    i <= width,
                    out@ == spec_rows(self.bits@, width as int, j as int) + spec_row(
                        self.bits@,
                        width as int,
                        j as int,
                        i as int,
                    ),
                decreases width - i,
            {
                let ghost out0 = out@;
                let n = self.bits.len();
                let b: Bit = match j.checked_mul(width) {
                    Some(base) => match base.checked_add(i) {
                        Some(idx) => if idx < n {
                            self.bits[idx]
                        } else {
                            Bit::Zero
                        },
                        None => Bit::Zero,
                    },
                    None => Bit::Zero,
                };
                proof {
                    let cell_idx = (j as int) * (width as int) + (i as int);
                    assert(b == if 0 <= cell_idx < self.bits@.len() {
                        self.bits@[cell_idx]
                    } else {
                        Bit::Zero
                    });
                    assert(seq![b.spec_glyph()] + seq![' '] =~= spec_cell(self.bits@, cell_idx));
                }
                out.append(b.glyph());
                out.append(" ");
                proof {
                    reveal_strlit(" ");
                    assert(" "@ =~= seq![' ']);
                    assert(out@ =~= out0 + spec_cell(
                        self.bits@,
                        (j as int) * (width as int) + (i as int),
                    ));
                }
                i = i + 1;
            }
            out.append("\n");
            proof {
                reveal_strlit("\n");
                assert("\n"@ =~= seq!['\n']);
                assert(out@ =~= spec_rows(self.bits@, width as int, j as int + 1));
            }
            j = j + 1;
        }
        out
    }
}

} // verus!
