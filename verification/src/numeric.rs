//! Modular numbers: the addresses and field values of a circular core.
//!
//! A `Numeric<CORE_SIZE>` stands for a residue modulo `CORE_SIZE`. Every
//! operation takes reduced representatives and gives a reduced representative
//! back, and none of them overflows, whatever the size of the core.

use vstd::arithmetic::div_mod::{
    lemma_add_mod_noop, lemma_fundamental_div_mod, lemma_mod_multiples_vanish, lemma_small_mod,
    lemma_sub_mod_noop,
};
use vstd::prelude::*;
use vstd::std_specs::cmp::PartialEqSpecImpl;
use vstd::std_specs::convert::FromSpecImpl;
use vstd::std_specs::ops::{AddSpecImpl, DivSpecImpl, MulSpecImpl, RemSpecImpl, SubSpecImpl};

verus! {

/// A value of the circular address space `[0, CORE_SIZE)`.
#[derive(Clone, Copy, Debug, PartialOrd)]
pub struct Numeric<const CORE_SIZE: usize> {
    pub value: usize,
}

impl<const CORE_SIZE: usize> PartialEq for Numeric<CORE_SIZE> {
    fn eq(&self, other: &Self) -> (r: bool) {
        self.value == other.value
    }
}

impl<const CORE_SIZE: usize> PartialEqSpecImpl for Numeric<CORE_SIZE> {
    open spec fn obeys_eq_spec() -> bool {
        true
    }

    open spec fn eq_spec(&self, other: &Self) -> bool {
        self.value == other.value
    }
}

/// The number that stands for an integer, in a core that has cells. (A
/// conversion cannot ask for anything of its caller. In a core of no cells,
/// where there is nothing to reduce to, the integer is kept as it is, and
/// nothing is promised of the result.)
impl<const CORE_SIZE: usize> From<usize> for Numeric<CORE_SIZE> {
    fn from(item: usize) -> (r: Numeric<CORE_SIZE>)
        ensures
            CORE_SIZE > 0 ==> r == Numeric::<CORE_SIZE>::reduce(item as int) && r.wf(),
    {
        if CORE_SIZE > 0 {
            Numeric::new(item)
        } else {
            Numeric { value: item }
        }
    }
}

impl<const CORE_SIZE: usize> FromSpecImpl<usize> for Numeric<CORE_SIZE> {
    open spec fn obeys_from_spec() -> bool {
        CORE_SIZE > 0
    }

    open spec fn from_spec(item: usize) -> Numeric<CORE_SIZE> {
        Numeric::reduce(item as int)
    }
}

impl<const CORE_SIZE: usize> From<Numeric<CORE_SIZE>> for usize {
    fn from(item: Numeric<CORE_SIZE>) -> (r: usize) {
        item.value
    }
}

impl<const CORE_SIZE: usize> FromSpecImpl<Numeric<CORE_SIZE>> for usize {
    open spec fn obeys_from_spec() -> bool {
        true
    }

    open spec fn from_spec(item: Numeric<CORE_SIZE>) -> usize {
        item.value
    }
}

/// Adding a multiple of the modulus does not change the residue.
pub proof fn lemma_mod_shift(x: int, k: int, m: int)
    requires
        m > 0,
    ensures
        (x + k * m) % m == x % m,
{
    lemma_mod_multiples_vanish(k, x, m);
    assert(m * k + x == x + k * m) by (nonlinear_arith);
}

impl<const CORE_SIZE: usize> Numeric<CORE_SIZE> {
    /// The value is a reduced representative.
    pub open spec fn wf(self) -> bool {
        self.value < CORE_SIZE
    }

    /// The representative of the integer `n`: its Euclidean remainder.
    pub open spec fn reduce(n: int) -> Self {
        Numeric { value: (n % (CORE_SIZE as int)) as usize }
    }

    /// The number that stands for `n`.
    pub fn new(n: usize) -> (r: Self)
        requires
            CORE_SIZE > 0,
        ensures
            r == Self::reduce(n as int),
            r.wf(),
    {
        Numeric { value: n % CORE_SIZE }
    }

    /// The sum of `self` and an unreduced count.
    pub open spec fn plus(self, n: int) -> Self {
        Self::reduce(self.value + n)
    }

    /// The difference of `self` and an unreduced count, taken around the core.
    pub open spec fn minus(self, n: int) -> Self {
        Self::reduce(self.value + CORE_SIZE - n)
    }

    /// Moves the value `rhs` places forward, around the core.
    pub fn add_assign(&mut self, rhs: usize)
        requires
            old(self).wf(),
        ensures
            *final(self) == old(self).plus(rhs as int),
            final(self).wf(),
    {
        let step: usize = rhs % CORE_SIZE;
        proof {
            lemma_add_mod_noop(self.value as int, rhs as int, CORE_SIZE as int);
            lemma_small_mod(self.value as nat, CORE_SIZE as nat);
        }
        let sum = *self + Numeric::<CORE_SIZE> { value: step };
        self.value = sum.value;
    }

    /// Moves the value `rhs` places backward, around the core.
    pub fn sub_assign(&mut self, rhs: usize)
        requires
            old(self).wf(),
        ensures
            *final(self) == old(self).minus(rhs as int),
            final(self).wf(),
    {
        let step: usize = rhs % CORE_SIZE;
        proof {
            let c = CORE_SIZE as int;
            let v = self.value as int;
            lemma_sub_mod_noop(v + c, rhs as int, c);
            lemma_sub_mod_noop(v + c, step as int, c);
            lemma_small_mod(step as nat, CORE_SIZE as nat);
        }
        let difference = *self - Numeric::<CORE_SIZE> { value: step };
        self.value = difference.value;
    }
}

impl<const CORE_SIZE: usize> core::ops::Add for Numeric<CORE_SIZE> {
    type Output = Numeric<CORE_SIZE>;

    fn add(self, rhs: Numeric<CORE_SIZE>) -> (r: Numeric<CORE_SIZE>)
        ensures
            r.wf(),
    {
        let c = CORE_SIZE;
        if self.value >= c - rhs.value {
            proof {
                lemma_mod_shift(self.value + rhs.value - c, 1, c as int);
                lemma_small_mod((self.value + rhs.value - c) as nat, c as nat);
            }
            Numeric { value: self.value - (c - rhs.value) }
        } else {
            proof {
                lemma_small_mod((self.value + rhs.value) as nat, c as nat);
            }
            Numeric { value: self.value + rhs.value }
        }
    }
}

impl<const CORE_SIZE: usize> AddSpecImpl for Numeric<CORE_SIZE> {
    open spec fn obeys_add_spec() -> bool {
        true
    }

    open spec fn add_req(self, rhs: Numeric<CORE_SIZE>) -> bool {
        self.wf() && rhs.wf()
    }

    open spec fn add_spec(self, rhs: Numeric<CORE_SIZE>) -> Numeric<CORE_SIZE> {
        self.plus(rhs.value as int)
    }
}

impl<const CORE_SIZE: usize> core::ops::Add<usize> for Numeric<CORE_SIZE> {
    type Output = Numeric<CORE_SIZE>;

    fn add(self, rhs: usize) -> (r: Numeric<CORE_SIZE>)
        ensures
            r.wf(),
    {
        let mut r = self;
        r.add_assign(rhs);
        r
    }
}

impl<const CORE_SIZE: usize> AddSpecImpl<usize> for Numeric<CORE_SIZE> {
    open spec fn obeys_add_spec() -> bool {
        true
    }

    open spec fn add_req(self, rhs: usize) -> bool {
        self.wf()
    }

    open spec fn add_spec(self, rhs: usize) -> Numeric<CORE_SIZE> {
        self.plus(rhs as int)
    }
}

impl<const CORE_SIZE: usize> core::ops::Sub for Numeric<CORE_SIZE> {
    type Output = Numeric<CORE_SIZE>;

    fn sub(self, rhs: Numeric<CORE_SIZE>) -> (r: Numeric<CORE_SIZE>)
        ensures
            r.wf(),
    {
        let c = CORE_SIZE;
        if self.value >= rhs.value {
            proof {
                lemma_mod_shift(self.value - rhs.value, 1, c as int);
                lemma_small_mod((self.value - rhs.value) as nat, c as nat);
            }
            Numeric { value: self.value - rhs.value }
        } else {
            proof {
                lemma_small_mod((self.value + c - rhs.value) as nat, c as nat);
            }
            Numeric { value: c - (rhs.value - self.value) }
        }
    }
}

impl<const CORE_SIZE: usize> SubSpecImpl for Numeric<CORE_SIZE> {
    open spec fn obeys_sub_spec() -> bool {
        true
    }

    open spec fn sub_req(self, rhs: Numeric<CORE_SIZE>) -> bool {
        self.wf() && rhs.wf()
    }

    open spec fn sub_spec(self, rhs: Numeric<CORE_SIZE>) -> Numeric<CORE_SIZE> {
        self.minus(rhs.value as int)
    }
}

impl<const CORE_SIZE: usize> core::ops::Mul for Numeric<CORE_SIZE> {
    type Output = Numeric<CORE_SIZE>;

    fn mul(self, rhs: Numeric<CORE_SIZE>) -> (r: Numeric<CORE_SIZE>)
        ensures
            r.wf(),
    {
        let a: u128 = self.value as u128;
        let b: u128 = rhs.value as u128;
        let c: u128 = CORE_SIZE as u128;
        assert(a * b <= u128::MAX) by (nonlinear_arith)
            requires
                a <= u64::MAX,
                b <= u64::MAX,
        ;
        let product: u128 = (a * b) % c;
        Numeric { value: product as usize }
    }
}

impl<const CORE_SIZE: usize> MulSpecImpl for Numeric<CORE_SIZE> {
    open spec fn obeys_mul_spec() -> bool {
        true
    }

    open spec fn mul_req(self, rhs: Numeric<CORE_SIZE>) -> bool {
        self.wf() && rhs.wf()
    }

    open spec fn mul_spec(self, rhs: Numeric<CORE_SIZE>) -> Numeric<CORE_SIZE> {
        Self::reduce(self.value * rhs.value)
    }
}

impl<const CORE_SIZE: usize> core::ops::Div for Numeric<CORE_SIZE> {
    type Output = Numeric<CORE_SIZE>;

    fn div(self, rhs: Numeric<CORE_SIZE>) -> (r: Numeric<CORE_SIZE>)
        ensures
            r.wf(),
    {
        let quotient: usize = self.value / rhs.value;
        proof {
            lemma_fundamental_div_mod(self.value as int, rhs.value as int);
            assert(quotient <= self.value) by (nonlinear_arith)
                requires
                    self.value == rhs.value * quotient + self.value % rhs.value,
                    rhs.value >= 1,
                    self.value % rhs.value >= 0,
                    quotient >= 0,
            ;
            lemma_small_mod(quotient as nat, CORE_SIZE as nat);
        }
        Numeric { value: quotient }
    }
}

impl<const CORE_SIZE: usize> DivSpecImpl for Numeric<CORE_SIZE> {
    open spec fn obeys_div_spec() -> bool {
        true
    }

    open spec fn div_req(self, rhs: Numeric<CORE_SIZE>) -> bool {
        self.wf() && rhs.wf() && rhs.value != 0
    }

    open spec fn div_spec(self, rhs: Numeric<CORE_SIZE>) -> Numeric<CORE_SIZE> {
        Self::reduce(self.value as int / rhs.value as int)
    }
}

impl<const CORE_SIZE: usize> core::ops::Rem for Numeric<CORE_SIZE> {
    type Output = Numeric<CORE_SIZE>;

    fn rem(self, rhs: Numeric<CORE_SIZE>) -> (r: Numeric<CORE_SIZE>)
        ensures
            r.wf(),
    {
        let remainder: usize = self.value % rhs.value;
        proof {
            lemma_small_mod(remainder as nat, CORE_SIZE as nat);
        }
        Numeric { value: remainder }
    }
}

impl<const CORE_SIZE: usize> RemSpecImpl for Numeric<CORE_SIZE> {
    open spec fn obeys_rem_spec() -> bool {
        true
    }

    open spec fn rem_req(self, rhs: Numeric<CORE_SIZE>) -> bool {
        self.wf() && rhs.wf() && rhs.value != 0
    }

    open spec fn rem_spec(self, rhs: Numeric<CORE_SIZE>) -> Numeric<CORE_SIZE> {
        Self::reduce(self.value as int % rhs.value as int)
    }
}

/// A whole turn around the core leads back to the same number.
pub proof fn lemma_reduce_periodic<const CORE_SIZE: usize>(a: int)
    requires
        CORE_SIZE > 0,
    ensures
        Numeric::<CORE_SIZE>::reduce(a + CORE_SIZE) == Numeric::<CORE_SIZE>::reduce(a),
{
    lemma_mod_shift(a, 1, CORE_SIZE as int);
}

/// Subtracting two numbers is subtracting what they stand for, one turn ahead.
pub proof fn lemma_sub_is_shifted_difference<const CORE_SIZE: usize>(a: int, b: int)
    requires
        CORE_SIZE > 0,
    ensures
        Numeric::<CORE_SIZE>::reduce(a).minus(Numeric::<CORE_SIZE>::reduce(b).value as int)
            == Numeric::<CORE_SIZE>::reduce(a + CORE_SIZE - b),
{
    let c = CORE_SIZE as int;
    lemma_sub_mod_noop(a + c, b, c);
    lemma_add_mod_noop(a, c, c);
    lemma_sub_mod_noop(a % c + c, b % c, c);
    lemma_add_mod_noop(a % c, c, c);
    vstd::arithmetic::div_mod::lemma_mod_twice(a, c);
    vstd::arithmetic::div_mod::lemma_mod_twice(b, c);
}

} // verus!
