use vstd::prelude::*;

use crate::matrix::{lemma_cell_in_bounds, Matrix};

verus! {

/// The character of decimal digit `d`.
pub open spec fn digit_char(d: int) -> char {
    if d == 0 {
        '0'
    } else if d == 1 {
        '1'
    } else if d == 2 {
        '2'
    } else if d == 3 {
        '3'
    } else if d == 4 {
        '4'
    } else if d == 5 {
        '5'
    } else if d == 6 {
        '6'
    } else if d == 7 {
        '7'
    } else if d == 8 {
        '8'
    } else {
        '9'
    }
}

/// The decimal digits of `n`, most significant first, without leading zeros.
pub open spec fn digits(n: nat) -> Seq<char>
    decreases n,
{
    if n < 10 {
        seq![digit_char(n as int)]
    } else {
        digits(n / 10).push(digit_char((n % 10) as int))
    }
}

/// The decimal text of `v`, with a leading `-` when it is negative.
pub open spec fn decimal_text(v: int) -> Seq<char> {
    if v < 0 {
        seq!['-'] + digits((-v) as nat)
    } else {
        digits(v as nat)
    }
}

/// Relies on `ToString` for `i128`, that is its `Display`: the decimal
/// digits, with a leading `-` for a negative number.
#[verifier::external_body]
fn decimal(v: i128) -> (r: String)
    ensures
        r@ == decimal_text(v as int),
{
    v.to_string()
}

/// The first `n` cells of row `i`, separated by single spaces.
pub open spec fn row_text(m: &Matrix, i: int, n: int) -> Seq<char>
    decreases n,
{
    if n <= 0 {
        seq![]
    } else if n == 1 {
        decimal_text(m.data@[i * m.col] as int)
    } else {
        row_text(m, i, n - 1) + seq![' '] + decimal_text(m.data@[i * m.col + (n - 1)] as int)
    }
}

/// The first `n` rows, separated by a comma and a space.
pub open spec fn rows_text(m: &Matrix, n: int) -> Seq<char>
    decreases n,
{
    if n <= 0 {
        seq![]
    } else if n == 1 {
        row_text(m, 0, m.col as int)
    } else {
        rows_text(m, n - 1) + seq![',', ' '] + row_text(m, n - 1, m.col as int)
    }
}

/// The matrix in braces, row after row: `{1 2, 3 4}`.
pub open spec fn display_text(m: &Matrix) -> Seq<char> {
    seq!['{'] + rows_text(m, m.row as int) + seq!['}']
}

/// The matrix with its shape: `Matrix(row=2, col=2, {1 2, 3 4})`.
pub open spec fn debug_text(m: &Matrix) -> Seq<char> {
    seq!['M', 'a', 't', 'r', 'i', 'x', '(', 'r', 'o', 'w', '=']
        + decimal_text(m.row as int)
        + seq![',', ' ', 'c', 'o', 'l', '=']
        + decimal_text(m.col as int)
        + seq![',', ' ']
        + display_text(m)
        + seq![')']
}

impl Matrix {
    fn row_string(&self, i: usize) -> (r: String)
        requires
            self.wf(),
            i < self.row,
        ensures
            r@ == row_text(self, i as int, self.col as int),
    {
        let len = self.data.len();
        let mut s = String::new();
        let mut j: usize = 0;
        while j < self.col
            invariant
                self.wf(),
                self.data@.len() == len,
                i < self.row,
                j <= self.col,
                s@ == row_text(self, i as int, j as int),
            decreases self.col - j,
        {
            proof {
                lemma_cell_in_bounds(i as int, j as int, self.row as int, self.col as int);
            }
            let cell = decimal(self.data[i * self.col + j] as i128);
            if j > 0 {
                proof {
                    reveal_strlit(" ");
                }
                s.append(" ");
            }
            s.append(cell.as_str());
            proof {
                if j == 0 {
                    assert(s@ =~= row_text(self, i as int, 1));
                } else {
                    assert(s@ =~= row_text(self, i as int, j + 1));
                }
            }
            j = j + 1;
        }
        s
    }

    /// The matrix in braces, row after row: `{1 2, 3 4}`.
    pub fn display_string(&self) -> (r: String)
        requires
            self.wf(),
        ensures
            r@ == display_text(self),
    {
        let mut s = String::new();
        proof {
            reveal_strlit("{");
        }
        s.append("{");
        let mut i: usize = 0;
        while i < self.row
            invariant
                self.wf(),
                i <= self.row,
                s@ == seq!['{'] + rows_text(self, i as int),
            decreases self.row - i,
        {
            let line = self.row_string(i);
            if i > 0 {
                proof {
                    reveal_strlit(", ");
                }
                s.append(", ");
            }
            s.append(line.as_str());
            proof {
                if i == 0 {
                    assert(s@ =~= seq!['{'] + rows_text(self, 1));
                } else {
                    assert(s@ =~= seq!['{'] + rows_text(self, i + 1));
                }
            }
            i = i + 1;
        }
        proof {
            reveal_strlit("}");
        }
        s.append("}");
        s
    }

    /// The matrix with its shape: `Matrix(row=2, col=2, {1 2, 3 4})`.
    pub fn debug_string(&self) -> (r: String)
        requires
            self.wf(),
        ensures
            r@ == debug_text(self),
    {
        let mut s = String::new();
        proof {
            reveal_strlit("Matrix(row=");
            reveal_strlit(", col=");
            reveal_strlit(", ");
            reveal_strlit(")");
        }
        s.append("Matrix(row=");
        let row = decimal(self.row as i128);
        s.append(row.as_str());
        s.append(", col=");
        let col = decimal(self.col as i128);
        s.append(col.as_str());
        s.append(", ");
        let body = self.display_string();
        s.append(body.as_str());
        s.append(")");
        assert(s@ =~= debug_text(self));
        s
    }
}

} // verus!
