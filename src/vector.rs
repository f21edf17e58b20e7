use vstd::prelude::*;

verus! {

/// A sequence of numbers, the operand of a dot product.
pub struct Vector {
    data: Vec<i64>,
}

impl View for Vector {
    type V = Seq<i64>;

    closed spec fn view(&self) -> Seq<i64> {
        self.data@
    }
}

impl Vector {
    pub fn new(data: Vec<i64>) -> (r: Vector)
        ensures
            r@ == data@,
    {
        Vector { data }
    }

    pub fn values(&self) -> (r: &Vec<i64>)
        ensures
            r@ == self@,
    {
        &self.data
    }

    pub fn len(&self) -> (r: usize)
        ensures
            r == self@.len(),
    {
        self.data.len()
    }

    pub fn get(&self, i: usize) -> (r: i64)
        requires
            i < self@.len(),
        ensures
            r == self@[i as int],
    {
        self.data[i]
    }
}

/// Why a dot product could not be computed.
#[derive(Clone, Copy, Debug, PartialEq, Eq, Structural)]
pub enum DotError {
    /// The two operands differ in length.
    LengthMismatch,
}

/// Whether an integer is representable as an `i64`.
pub open spec fn fits_i64(x: int) -> bool {
    i64::MIN <= x <= i64::MAX
}

/// The sum of `a[k] * b[k]` over the first `n` positions.
pub open spec fn dot_upto(a: Seq<i64>, b: Seq<i64>, n: int) -> int
    decreases n,
{
    if n <= 0 {
        0
    } else {
        dot_upto(a, b, n - 1) + a[n - 1] * b[n - 1]
    }
}

/// The inner product of two sequences of equal length.
pub open spec fn dot(a: Seq<i64>, b: Seq<i64>) -> int {
    dot_upto(a, b, a.len() as int)
}

/// Whether every product and every running sum of the inner product of `a`
/// and `b`, taken left to right, is representable as an `i64`.
pub open spec fn dot_fits(a: Seq<i64>, b: Seq<i64>) -> bool {
    forall|k: int|
        0 <= k < a.len() ==> fits_i64(#[trigger] (a[k] * b[k])) && fits_i64(dot_upto(a, b, k + 1))
}

/// When every running sum fits, so does the inner product.
pub proof fn lemma_dot_fits(a: Seq<i64>, b: Seq<i64>)
    requires
        a.len() == b.len(),
        dot_fits(a, b),
    ensures
        fits_i64(dot(a, b)),
{
    if a.len() > 0 {
        let k = a.len() - 1;
        assert(fits_i64(a[k] * b[k]) && fits_i64(dot_upto(a, b, k + 1)));
    }
}

/// Whether `dot_product(a, b)` stays within `i64`: true when the lengths
/// differ (the product then fails without computing anything), else whether
/// every product and running sum fits.
pub fn dot_in_range(a: &Vector, b: &Vector) -> (r: bool)
    ensures
        r == (a@.len() == b@.len() ==> dot_fits(a@, b@)),
{
    if a.len() != b.len() {
        return true;
    }
    let mut sum: i64 = 0;
    let mut i: usize = 0;
    while i < a.len()
        invariant
            a@.len() == b@.len(),
            i <= a@.len(),
            sum == dot_upto(a@, b@, i as int),
            forall|k: int|
                0 <= k < i ==> fits_i64(#[trigger] (a@[k] * b@[k])) && fits_i64(dot_upto(a@, b@, k + 1)),
        decreases a@.len() - i,
    {
        let x = a.get(i);
        let y = b.get(i);
        match x.checked_mul(y) {
            None => {
                assert(!fits_i64(a@[i as int] * b@[i as int]));
                return false;
            },
            Some(p) => match sum.checked_add(p) {
                None => {
                    assert(!fits_i64(dot_upto(a@, b@, i + 1)));
                    assert(fits_i64(a@[i as int] * b@[i as int]));
                    return false;
                },
                Some(next) => {
                    sum = next;
                },
            },
        }
        i = i + 1;
    }
    true
}

/// Inner product of `a` and `b`; fails when their lengths differ.
pub fn dot_product(a: Vector, b: Vector) -> (r: Result<i64, DotError>)
    requires
        a@.len() == b@.len() ==> dot_fits(a@, b@),
    ensures
        r == (if a@.len() == b@.len() {
            Ok::<i64, DotError>(dot(a@, b@) as i64)
        } else {
            Err::<i64, DotError>(DotError::LengthMismatch)
        }),
{
    if a.len() != b.len() {
        return Err(DotError::LengthMismatch);
    }
    let mut sum: i64 = 0;
    let mut i: usize = 0;
    while i < a.len()
        invariant
            a@.len() == b@.len(),
            dot_fits(a@, b@),
            i <= a@.len(),
            sum == dot_upto(a@, b@, i as int),
        decreases a@.len() - i,
    {
        assert(fits_i64(a@[i as int] * b@[i as int]) && fits_i64(dot_upto(a@, b@, i + 1)));
        let p = a.get(i) * b.get(i);
        sum = sum + p;
        i = i + 1;
    }
    Ok(sum)
}

} // verus!
