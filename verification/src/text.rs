//! A plain-text rendering of a matrix, for debugging: every entry is
//! written in decimal, left-padded with zero characters to the width of
//! the longest entry and followed by one space, and each matrix row
//! stands on a line of its own. The rendering is for reading, not for
//! parsing back.

use vstd::prelude::*;
use vstd::string::StringExecFns;

use crate::grid::{abs_int, is_grid};
use crate::matrix::{abs_u64, Matrix};

verus! {

/// The decimal digit character for a value between zero and nine.
pub open spec fn digit_char(d: int) -> char {
    if d == 0 {
        '0'
    } else if d == 1 {
        '1'
    } else if d == 2 {
        '2'
    } else if d == 3 {
        '3'
    } else if d == 4 {
        '4'
    } else if d == 5 {
        '5'
    } else if d == 6 {
        '6'
    } else if d == 7 {
        '7'
    } else if d == 8 {
        '8'
    } else {
        '9'
    }
}

/// The decimal digits of a natural number, most significant first.
pub open spec fn dec_chars(n: nat) -> Seq<char>
    decreases n,
{
    if n < 10 {
        seq![digit_char(n as int)]
    } else {
        dec_chars(n / 10).push(digit_char((n % 10) as int))
    }
}

/// The decimal rendering of an integer: a minus sign when negative,
/// then the digits of its magnitude.
pub open spec fn int_chars(x: int) -> Seq<char> {
    if x < 0 {
        seq!['-'] + dec_chars((-x) as nat)
    } else {
        dec_chars(x as nat)
    }
}

/// How many zero characters pad a rendering of length `l` to width `w`.
pub open spec fn pad_len(l: nat, w: nat) -> nat {
    if l >= w {
        0
    } else {
        (w - l) as nat
    }
}

/// `k` zero characters.
pub open spec fn zero_run(k: nat) -> Seq<char> {
    Seq::new(k, |i: int| '0')
}

/// One rendered cell: the entry's decimal form, left-padded with zero
/// characters to width `w` and followed by one space.
pub open spec fn cell_chars(x: int, w: nat) -> Seq<char> {
    zero_run(pad_len(int_chars(x).len(), w)) + int_chars(x) + seq![' ']
}

/// One rendered row: its cells in order.
pub open spec fn row_chars(row: Seq<int>, w: nat) -> Seq<char>
    decreases row.len(),
{
    if row.len() == 0 {
        Seq::empty()
    } else {
        row_chars(row.drop_last(), w) + cell_chars(row.last(), w)
    }
}

/// A rendered grid at cell width `w`: each row's cells, then a newline.
pub open spec fn grid_chars(m: Seq<Seq<int>>, w: nat) -> Seq<char>
    decreases m.len(),
{
    if m.len() == 0 {
        Seq::empty()
    } else {
        grid_chars(m.drop_last(), w) + row_chars(m.last(), w) + seq!['\n']
    }
}

/// The larger of two widths.
pub open spec fn width_max(a: nat, b: nat) -> nat {
    if a >= b {
        a
    } else {
        b
    }
}

/// The width of the widest rendered entry of a row.
pub open spec fn row_width(row: Seq<int>) -> nat
    decreases row.len(),
{
    if row.len() == 0 {
        0
    } else {
        width_max(row_width(row.drop_last()), int_chars(row.last()).len())
    }
}

/// The width of the widest rendered entry of a grid.
pub open spec fn grid_width(m: Seq<Seq<int>>) -> nat
    decreases m.len(),
{
    if m.len() == 0 {
        0
    } else {
        width_max(grid_width(m.drop_last()), row_width(m.last()))
    }
}

/// The full rendering of a grid: its cells at the grid's own width.
pub open spec fn render_chars(m: Seq<Seq<int>>) -> Seq<char> {
    grid_chars(m, grid_width(m))
}

/// Powers of ten.
pub open spec fn pow10(k: nat) -> nat
    decreases k,
{
    if k == 0 {
        1
    } else {
        10 * pow10((k - 1) as nat)
    }
}

/// A natural number below the `k`-th power of ten has at most `k` digits.
proof fn lemma_dec_len_le(n: nat, k: nat)
    requires
        1 <= k,
        n < pow10(k),
    ensures
        dec_chars(n).len() <= k,
    decreases k,
{
    if n < 10 {
    } else {
        assert(pow10(0) == 1);
        assert(pow10(1) == 10);
        assert(k >= 2);
        let p = pow10((k - 1) as nat);
        assert(pow10(k) == 10 * p);
        assert(n / 10 < p) by (nonlinear_arith)
            requires
                n < 10 * p,
                0 <= n,
                0 < p,
        ;
        lemma_dec_len_le(n / 10, (k - 1) as nat);
        assert(dec_chars(n).len() == dec_chars(n / 10).len() + 1);
    }
}

/// A machine word's magnitude has at most twenty digits.
proof fn lemma_dec_len_word(n: nat)
    requires
        n <= 0xFFFF_FFFF_FFFF_FFFF,
    ensures
        dec_chars(n).len() <= 20,
{
    assert(pow10(0) == 1);
    assert(pow10(1) == 10);
    assert(pow10(2) == 100);
    assert(pow10(3) == 1000);
    assert(pow10(4) == 10000);
    assert(pow10(5) == 100000);
    assert(pow10(6) == 1000000);
    assert(pow10(7) == 10000000);
    assert(pow10(8) == 100000000);
    assert(pow10(9) == 1000000000);
    assert(pow10(10) == 10000000000);
    assert(pow10(11) == 100000000000);
    assert(pow10(12) == 1000000000000);
    assert(pow10(13) == 10000000000000);
    assert(pow10(14) == 100000000000000);
    assert(pow10(15) == 1000000000000000);
    assert(pow10(16) == 10000000000000000);
    assert(pow10(17) == 100000000000000000);
    assert(pow10(18) == 1000000000000000000);
    assert(pow10(19) == 10000000000000000000);
    assert(pow10(20) == 100000000000000000000);
    lemma_dec_len_le(n, 20);
}

/// A machine integer renders in at most twenty-one characters.
proof fn lemma_int_width(v: i64)
    ensures
        int_chars(v as int).len() <= 21,
{
    if v < 0 {
        lemma_dec_len_word((-(v as int)) as nat);
    } else {
        lemma_dec_len_word(v as nat);
    }
}

/// Every entry of a row renders no wider than the row's width.
proof fn lemma_cell_le_row(row: Seq<int>, j: int)
    requires
        0 <= j < row.len(),
    ensures
        int_chars(row[j]).len() <= row_width(row),
    decreases row.len(),
{
    if j == row.len() - 1 {
    } else {
        lemma_cell_le_row(row.drop_last(), j);
        assert(row.drop_last()[j] == row[j]);
    }
}

/// Every row of a grid is no wider than the grid's width.
proof fn lemma_row_le_grid(m: Seq<Seq<int>>, i: int)
    requires
        0 <= i < m.len(),
    ensures
        row_width(m[i]) <= grid_width(m),
    decreases m.len(),
{
    if i == m.len() - 1 {
    } else {
        lemma_row_le_grid(m.drop_last(), i);
        assert(m.drop_last()[i] == m[i]);
    }
}

/// Extending a row prefix by one cell extends its rendering by that cell.
proof fn lemma_row_chars_step(row: Seq<int>, w: nat, y: int)
    requires
        0 <= y < row.len(),
    ensures
        row_chars(row.take(y + 1), w) == row_chars(row.take(y), w) + cell_chars(row[y], w),
        row_width(row.take(y + 1)) == width_max(row_width(row.take(y)), int_chars(row[y]).len()),
{
    let p = row.take(y + 1);
    assert(p.drop_last() =~= row.take(y));
    assert(p.last() == row[y]);
}

/// Extending a grid prefix by one row extends its rendering by that row
/// and a newline.
proof fn lemma_grid_chars_step(m: Seq<Seq<int>>, w: nat, x: int)
    requires
        0 <= x < m.len(),
    ensures
        grid_chars(m.take(x + 1), w) == grid_chars(m.take(x), w) + row_chars(m[x], w) + seq!['\n'],
        grid_width(m.take(x + 1)) == width_max(grid_width(m.take(x)), row_width(m[x])),
{
    let p = m.take(x + 1);
    assert(p.drop_last() =~= m.take(x));
    assert(p.last() == m[x]);
}

/// The one-character string for a decimal digit.
fn digit_str(d: u64) -> (s: &'static str)
    requires
        d < 10,
    ensures
        s@ == seq![digit_char(d as int)],
{
    let s: &'static str = if d == 0 {
        "0"
    } else if d == 1 {
        "1"
    } else if d == 2 {
        "2"
    } else if d == 3 {
        "3"
    } else if d == 4 {
        "4"
    } else if d == 5 {
        "5"
    } else if d == 6 {
        "6"
    } else if d == 7 {
        "7"
    } else if d == 8 {
        "8"
    } else {
        "9"
    };
    proof {
        reveal_strlit("0");
        reveal_strlit("1");
        reveal_strlit("2");
        reveal_strlit("3");
        reveal_strlit("4");
        reveal_strlit("5");
        reveal_strlit("6");
        reveal_strlit("7");
        reveal_strlit("8");
        reveal_strlit("9");
        assert(s@ =~= seq![digit_char(d as int)]);
    }
    s
}

/// The decimal digits of a natural number, most significant first.
fn u64_chars(n: u64) -> (s: String)
    ensures
        s@ == dec_chars(n as nat),
    decreases n,
{
    if n < 10 {
        String::from_str(digit_str(n))
    } else {
        let mut s = u64_chars(n / 10);
        s.append(digit_str(n % 10));
        proof {
            assert(s@ =~= dec_chars(n as nat));
        }
        s
    }
}

/// The decimal rendering of a machine integer.
pub fn int_string(x: i64) -> (s: String)
    ensures
        s@ == int_chars(x as int),
{
    if x >= 0 {
        u64_chars(x as u64)
    } else {
        let mag: u64 = abs_u64(x);
        let mut s = String::from_str("-");
        let t = u64_chars(mag);
        s.append(t.as_str());
        proof {
            reveal_strlit("-");
            assert(mag as int == abs_int(x as int));
            assert(s@ =~= int_chars(x as int));
        }
        s
    }
}

/// The width of the decimal rendering of a machine integer.
fn char_width(x: i64) -> (w: usize)
    ensures
        w as nat == int_chars(x as int).len(),
{
    let mag0: u64 = abs_u64(x);
    proof {
        lemma_dec_len_word(mag0 as nat);
    }
    let mut mag: u64 = mag0;
    let mut d: usize = 1;
    while mag >= 10
        invariant
            1 <= d,
            dec_chars(mag0 as nat).len() == dec_chars(mag as nat).len() + d - 1,
            dec_chars(mag0 as nat).len() <= 20,
        decreases mag,
    {
        proof {
            assert(dec_chars(mag as nat).len() == dec_chars((mag / 10) as nat).len() + 1);
        }
        mag = mag / 10;
        d += 1;
    }
    proof {
        assert(dec_chars(mag as nat).len() == 1);
    }
    if x < 0 {
        d + 1
    } else {
        d
    }
}

impl Matrix {
    /// Renders the matrix as text: each entry in decimal, left-padded
    /// with zero characters to the width of the widest entry and followed
    /// by one space, one matrix row per line.
    pub fn render(&self) -> (s: String)
        requires
            self.wf(),
        ensures
            s@ == render_chars(self@),
    {
        let rows: usize = self.num_rows();
        let cols: usize = self.num_cols();
        proof {
            self.lemma_view_grid();
        }
        let mut w: usize = 0;
        let mut x: usize = 0;
        while x < rows
            invariant
                x <= rows,
                self.wf(),
                rows == self.spec_rows(),
                cols == self.spec_cols(),
                is_grid(self@, rows as nat, cols as nat),
                w as nat == grid_width(self@.take(x as int)),
                w <= 21,
            decreases rows - x,
        {
            let mut y: usize = 0;
            while y < cols
                invariant
                    x < rows,
                    y <= cols,
                    self.wf(),
                    rows == self.spec_rows(),
                    cols == self.spec_cols(),
                    is_grid(self@, rows as nat, cols as nat),
                    w as nat == width_max(
                        grid_width(self@.take(x as int)),
                        row_width(self@[x as int].take(y as int)),
                    ),
                    w <= 21,
                decreases cols - y,
            {
                let v: i64 = self.get(x, y);
                let cw: usize = char_width(v);
                proof {
                    lemma_int_width(v);
                    lemma_row_chars_step(self@[x as int], 0, y as int);
                }
                if cw > w {
                    w = cw;
                }
                y += 1;
            }
            proof {
                assert(self@[x as int].take(cols as int) =~= self@[x as int]);
                lemma_grid_chars_step(self@, 0, x as int);
            }
            x += 1;
        }
        proof {
            assert(self@.take(rows as int) =~= self@);
        }
        let width: usize = w;
        let mut s: String = String::new();
        let mut x: usize = 0;
        while x < rows
            invariant
                x <= rows,
                self.wf(),
                rows == self.spec_rows(),
                cols == self.spec_cols(),
                is_grid(self@, rows as nat, cols as nat),
                width as nat == grid_width(self@),
                s@ == grid_chars(self@.take(x as int), width as nat),
            decreases rows - x,
        {
            let mut y: usize = 0;
            while y < cols
                invariant
                    x < rows,
                    y <= cols,
                    self.wf(),
                    rows == self.spec_rows(),
                    cols == self.spec_cols(),
                    is_grid(self@, rows as nat, cols as nat),
                    width as nat == grid_width(self@),
                    s@ == grid_chars(self@.take(x as int), width as nat) + row_chars(
                        self@[x as int].take(y as int),
                        width as nat,
                    ),
                decreases cols - y,
            {
                let v: i64 = self.get(x, y);
                let cw: usize = char_width(v);
                proof {
                    lemma_cell_le_row(self@[x as int], y as int);
                    lemma_row_le_grid(self@, x as int);
                }
                let pad: usize = if cw >= width {
                    0
                } else {
                    width - cw
                };
                let ghost base = s@;
                let mut k: usize = 0;
                while k < pad
                    invariant
                        k <= pad,
                        s@ == base + zero_run(k as nat),
                    decreases pad - k,
                {
                    s.append("0");
                    proof {
                        reveal_strlit("0");
                        assert(zero_run((k + 1) as nat) =~= zero_run(k as nat) + seq!['0']);
                        assert(s@ =~= base + zero_run((k + 1) as nat));
                    }
                    k += 1;
                }
                let rep = int_string(v);
                s.append(rep.as_str());
                s.append(" ");
                proof {
                    reveal_strlit(" ");
                    assert(pad as nat == pad_len(int_chars(v as int).len(), width as nat));
                    lemma_row_chars_step(self@[x as int], width as nat, y as int);
                    assert(s@ =~= grid_chars(self@.take(x as int), width as nat) + row_chars(
                        self@[x as int].take(y + 1),
                        width as nat,
                    ));
                }
                y += 1;
            }
            s.append("\n");
            proof {
                reveal_strlit("\n");
                assert(self@[x as int].take(cols as int) =~= self@[x as int]);
                lemma_grid_chars_step(self@, width as nat, x as int);
                assert(s@ =~= grid_chars(self@.take(x + 1), width as nat));
            }
            x += 1;
        }
        proof {
            assert(self@.take(rows as int) =~= self@);
        }
        s
    }
}

} // verus!
