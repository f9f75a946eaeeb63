//! Machine integers as scalars: identities, powers of ten, and the exact
//! integer reading that rationals are built on.
use vstd::prelude::*;
use crate::rules::{Identity, PowersOfTen, pow10, lemma_pow10_monotone};

verus! {

/// A machine integer type, read as the mathematical integer it holds.
pub trait Whole: Identity {
    spec fn val(self) -> int;

    /// The least value of the type.
    spec fn least() -> int;

    proof fn lemma_range(a: Self)
        ensures
            Self::least() <= a.val() <= -Self::least() - 1,
            Self::least() < 0,
            Self::spec_zero().val() == 0,
            Self::spec_one().val() == 1,
    ;

    fn is_negative(self) -> (r: bool)
        ensures
            r == (self.val() < 0),
    ;

    fn same(self, rhs: Self) -> (r: bool)
        ensures
            r == (self.val() == rhs.val()),
    ;

    fn above(self, rhs: Self) -> (r: bool)
        ensures
            r == (self.val() > rhs.val()),
    ;

    fn opposite(self) -> (r: Self)
        requires
            self.val() > Self::least(),
        ensures
            r.val() == -self.val(),
    ;

    fn quot(self, rhs: Self) -> (r: Self)
        requires
            self.val() >= 0,
            rhs.val() > 0,
        ensures
            r.val() == self.val() / rhs.val(),
    ;

    fn rest(self, rhs: Self) -> (r: Self)
        requires
            self.val() >= 0,
            rhs.val() > 0,
        ensures
            r.val() == self.val() % rhs.val(),
    ;
}

impl Identity for i8 {
    open spec fn spec_zero() -> i8 {
        0
    }

    open spec fn spec_one() -> i8 {
        1
    }

    open spec fn spec_seed() -> i8 {
        1
    }

    fn zero() -> (r: i8) {
        0
    }

    fn one() -> (r: i8) {
        1
    }

    fn seed() -> (r: i8) {
        1
    }
}

impl PowersOfTen for i8 {
    open spec fn order_of_in_range(power: isize) -> bool {
        power < 0 || pow10(power as nat) <= i8::MAX
    }

    /// `10^power`, or zero for a negative power.
    open spec fn spec_order_of(power: isize) -> i8 {
        if power < 0 {
            0
        } else {
            pow10(power as nat) as i8
        }
    }

    fn order_of(power: isize) -> (r: i8) {
        if power < 0 {
            return 0;
        }
        let mut running: i8 = 1;
        let mut k: isize = 0;
        while k < power
            invariant
                0 <= k <= power,
                pow10(power as nat) <= i8::MAX,
                running as int == pow10(k as nat),
            decreases power - k,
        {
            proof {
                lemma_pow10_monotone((k + 1) as nat, power as nat);
            }
            running = running * 10;
            k = k + 1;
        }
        running
    }
}

impl Whole for i8 {
    open spec fn val(self) -> int {
        self as int
    }

    open spec fn least() -> int {
        i8::MIN as int
    }

    proof fn lemma_range(a: i8) {
    }

    fn is_negative(self) -> (r: bool) {
        self < 0
    }

    fn same(self, rhs: i8) -> (r: bool) {
        self == rhs
    }

    fn above(self, rhs: i8) -> (r: bool) {
        self > rhs
    }

    fn opposite(self) -> (r: i8) {
        -self
    }

    fn quot(self, rhs: i8) -> (r: i8) {
        self / rhs
    }

    fn rest(self, rhs: i8) -> (r: i8) {
        self % rhs
    }
}

impl Identity for i16 {
    open spec fn spec_zero() -> i16 {
        0
    }

    open spec fn spec_one() -> i16 {
        1
    }

    open spec fn spec_seed() -> i16 {
        1
    }

    fn zero() -> (r: i16) {
        0
    }

    fn one() -> (r: i16) {
        1
    }

    fn seed() -> (r: i16) {
        1
    }
}

impl PowersOfTen for i16 {
    open spec fn order_of_in_range(power: isize) -> bool {
        power < 0 || pow10(power as nat) <= i16::MAX
    }

    /// `10^power`, or zero for a negative power.
    open spec fn spec_order_of(power: isize) -> i16 {
        if power < 0 {
            0
        } else {
            pow10(power as nat) as i16
        }
    }

    fn order_of(power: isize) -> (r: i16) {
        if power < 0 {
            return 0;
        }
        let mut running: i16 = 1;
        let mut k: isize = 0;
        while k < power
            invariant
                0 <= k <= power,
                pow10(power as nat) <= i16::MAX,
                running as int == pow10(k as nat),
            decreases power - k,
        {
            proof {
                lemma_pow10_monotone((k + 1) as nat, power as nat);
            }
            running = running * 10;
            k = k + 1;
        }
        running
    }
}

impl Whole for i16 {
    open spec fn val(self) -> int {
        self as int
    }

    open spec fn least() -> int {
        i16::MIN as int
    }

    proof fn lemma_range(a: i16) {
    }

    fn is_negative(self) -> (r: bool) {
        self < 0
    }

    fn same(self, rhs: i16) -> (r: bool) {
        self == rhs
    }

    fn above(self, rhs: i16) -> (r: bool) {
        self > rhs
    }

    fn opposite(self) -> (r: i16) {
        -self
    }

    fn quot(self, rhs: i16) -> (r: i16) {
        self / rhs
    }

    fn rest(self, rhs: i16) -> (r: i16) {
        self % rhs
    }
}

impl Identity for i32 {
    open spec fn spec_zero() -> i32 {
        0
    }

    open spec fn spec_one() -> i32 {
        1
    }

    open spec fn spec_seed() -> i32 {
        1
    }

    fn zero() -> (r: i32) {
        0
    }

    fn one() -> (r: i32) {
        1
    }

    fn seed() -> (r: i32) {
        1
    }
}

impl PowersOfTen for i32 {
    open spec fn order_of_in_range(power: isize) -> bool {
        power < 0 || pow10(power as nat) <= i32::MAX
    }

    /// `10^power`, or zero for a negative power.
    open spec fn spec_order_of(power: isize) -> i32 {
        if power < 0 {
            0
        } else {
            pow10(power as nat) as i32
        }
    }

    fn order_of(power: isize) -> (r: i32) {
        if power < 0 {
            return 0;
        }
        let mut running: i32 = 1;
        let mut k: isize = 0;
        while k < power
            invariant
                0 <= k <= power,
                pow10(power as nat) <= i32::MAX,
                running as int == pow10(k as nat),
            decreases power - k,
        {
            proof {
                lemma_pow10_monotone((k + 1) as nat, power as nat);
            }
            running = running * 10;
            k = k + 1;
        }
        running
    }
}

impl Whole for i32 {
    open spec fn val(self) -> int {
        self as int
    }

    open spec fn least() -> int {
        i32::MIN as int
    }

    proof fn lemma_range(a: i32) {
    }

    fn is_negative(self) -> (r: bool) {
        self < 0
    }

    fn same(self, rhs: i32) -> (r: bool) {
        self == rhs
    }

    fn above(self, rhs: i32) -> (r: bool) {
        self > rhs
    }

    fn opposite(self) -> (r: i32) {
        -self
    }

    fn quot(self, rhs: i32) -> (r: i32) {
        self / rhs
    }

    fn rest(self, rhs: i32) -> (r: i32) {
        self % rhs
    }
}

impl Identity for i64 {
    open spec fn spec_zero() -> i64 {
        0
    }

    open spec fn spec_one() -> i64 {
        1
    }

    open spec fn spec_seed() -> i64 {
        1
    }

    fn zero() -> (r: i64) {
        0
    }

    fn one() -> (r: i64) {
        1
    }

    fn seed() -> (r: i64) {
        1
    }
}

impl PowersOfTen for i64 {
    open spec fn order_of_in_range(power: isize) -> bool {
        power < 0 || pow10(power as nat) <= i64::MAX
    }

    /// `10^power`, or zero for a negative power.
    open spec fn spec_order_of(power: isize) -> i64 {
        if power < 0 {
            0
        } else {
            pow10(power as nat) as i64
        }
    }

    fn order_of(power: isize) -> (r: i64) {
        if power < 0 {
            return 0;
        }
        let mut running: i64 = 1;
        let mut k: isize = 0;
        while k < power
            invariant
                0 <= k <= power,
                pow10(power as nat) <= i64::MAX,
                running as int == pow10(k as nat),
            decreases power - k,
        {
            proof {
                lemma_pow10_monotone((k + 1) as nat, power as nat);
            }
            running = running * 10;
            k = k + 1;
        }
        running
    }
}

impl Whole for i64 {
    open spec fn val(self) -> int {
        self as int
    }

    open spec fn least() -> int {
        i64::MIN as int
    }

    proof fn lemma_range(a: i64) {
    }

    fn is_negative(self) -> (r: bool) {
        self < 0
    }

    fn same(self, rhs: i64) -> (r: bool) {
        self == rhs
    }

    fn above(self, rhs: i64) -> (r: bool) {
        self > rhs
    }

    fn opposite(self) -> (r: i64) {
        -self
    }

    fn quot(self, rhs: i64) -> (r: i64) {
        self / rhs
    }

    fn rest(self, rhs: i64) -> (r: i64) {
        self % rhs
    }
}

impl Identity for isize {
    open spec fn spec_zero() -> isize {
        0
    }

    open spec fn spec_one() -> isize {
        1
    }

    open spec fn spec_seed() -> isize {
        1
    }

    fn zero() -> (r: isize) {
        0
    }

    fn one() -> (r: isize) {
        1
    }

    fn seed() -> (r: isize) {
        1
    }
}

impl PowersOfTen for isize {
    open spec fn order_of_in_range(power: isize) -> bool {
        power < 0 || pow10(power as nat) <= isize::MAX
    }

    /// `10^power`, or zero for a negative power.
    open spec fn spec_order_of(power: isize) -> isize {
        if power < 0 {
            0
        } else {
            pow10(power as nat) as isize
        }
    }

    fn order_of(power: isize) -> (r: isize) {
        if power < 0 {
            return 0;
        }
        let mut running: isize = 1;
        let mut k: isize = 0;
        while k < power
            invariant
                0 <= k <= power,
                pow10(power as nat) <= isize::MAX,
                running as int == pow10(k as nat),
            decreases power - k,
        {
            proof {
                lemma_pow10_monotone((k + 1) as nat, power as nat);
            }
            running = running * 10;
            k = k + 1;
        }
        running
    }
}

impl Whole for isize {
    open spec fn val(self) -> int {
        self as int
    }

    open spec fn least() -> int {
        isize::MIN as int
    }

    proof fn lemma_range(a: isize) {
    }

    fn is_negative(self) -> (r: bool) {
        self < 0
    }

    fn same(self, rhs: isize) -> (r: bool) {
        self == rhs
    }

    fn above(self, rhs: isize) -> (r: bool) {
        self > rhs
    }

    fn opposite(self) -> (r: isize) {
        -self
    }

    fn quot(self, rhs: isize) -> (r: isize) {
        self / rhs
    }

    fn rest(self, rhs: isize) -> (r: isize) {
        self % rhs
    }
}

impl Identity for u8 {
    open spec fn spec_zero() -> u8 {
        0
    }

    open spec fn spec_one() -> u8 {
        1
    }

    open spec fn spec_seed() -> u8 {
        1
    }

    fn zero() -> (r: u8) {
        0
    }

    fn one() -> (r: u8) {
        1
    }

    fn seed() -> (r: u8) {
        1
    }
}

impl PowersOfTen for u8 {
    open spec fn order_of_in_range(power: isize) -> bool {
        power < 0 || pow10(power as nat) <= u8::MAX
    }

    /// `10^power`, or zero for a negative power.
    open spec fn spec_order_of(power: isize) -> u8 {
        if power < 0 {
            0
        } else {
            pow10(power as nat) as u8
        }
    }

    fn order_of(power: isize) -> (r: u8) {
        if power < 0 {
            return 0;
        }
        let mut running: u8 = 1;
        let mut k: isize = 0;
        while k < power
            invariant
                0 <= k <= power,
                pow10(power as nat) <= u8::MAX,
                running as int == pow10(k as nat),
            decreases power - k,
        {
            proof {
                lemma_pow10_monotone((k + 1) as nat, power as nat);
            }
            running = running * 10;
            k = k + 1;
        }
        running
    }
}

impl Identity for u16 {
    open spec fn spec_zero() -> u16 {
        0
    }

    open spec fn spec_one() -> u16 {
        1
    }

    open spec fn spec_seed() -> u16 {
        1
    }

    fn zero() -> (r: u16) {
        0
    }

    fn one() -> (r: u16) {
        1
    }

    fn seed() -> (r: u16) {
        1
    }
}

impl PowersOfTen for u16 {
    open spec fn order_of_in_range(power: isize) -> bool {
        power < 0 || pow10(power as nat) <= u16::MAX
    }

    /// `10^power`, or zero for a negative power.
    open spec fn spec_order_of(power: isize) -> u16 {
        if power < 0 {
            0
        } else {
            pow10(power as nat) as u16
        }
    }

    fn order_of(power: isize) -> (r: u16) {
        if power < 0 {
            return 0;
        }
        let mut running: u16 = 1;
        let mut k: isize = 0;
        while k < power
            invariant
                0 <= k <= power,
                pow10(power as nat) <= u16::MAX,
                running as int == pow10(k as nat),
            decreases power - k,
        {
            proof {
                lemma_pow10_monotone((k + 1) as nat, power as nat);
            }
            running = running * 10;
            k = k + 1;
        }
        running
    }
}

impl Identity for u32 {
    open spec fn spec_zero() -> u32 {
        0
    }

    open spec fn spec_one() -> u32 {
        1
    }

    open spec fn spec_seed() -> u32 {
        1
    }

    fn zero() -> (r: u32) {
        0
    }

    fn one() -> (r: u32) {
        1
    }

    fn seed() -> (r: u32) {
        1
    }
}

impl PowersOfTen for u32 {
    open spec fn order_of_in_range(power: isize) -> bool {
        power < 0 || pow10(power as nat) <= u32::MAX
    }

    /// `10^power`, or zero for a negative power.
    open spec fn spec_order_of(power: isize) -> u32 {
        if power < 0 {
            0
        } else {
            pow10(power as nat) as u32
        }
    }

    fn order_of(power: isize) -> (r: u32) {
        if power < 0 {
            return 0;
        }
        let mut running: u32 = 1;
        let mut k: isize = 0;
        while k < power
            invariant
                0 <= k <= power,
                pow10(power as nat) <= u32::MAX,
                running as int == pow10(k as nat),
            decreases power - k,
        {
            proof {
                lemma_pow10_monotone((k + 1) as nat, power as nat);
            }
            running = running * 10;
            k = k + 1;
        }
        running
    }
}

impl Identity for u64 {
    open spec fn spec_zero() -> u64 {
        0
    }

    open spec fn spec_one() -> u64 {
        1
    }

    open spec fn spec_seed() -> u64 {
        1
    }

    fn zero() -> (r: u64) {
        0
    }

    fn one() -> (r: u64) {
        1
    }

    fn seed() -> (r: u64) {
        1
    }
}

impl PowersOfTen for u64 {
    open spec fn order_of_in_range(power: isize) -> bool {
        power < 0 || pow10(power as nat) <= u64::MAX
    }

    /// `10^power`, or zero for a negative power.
    open spec fn spec_order_of(power: isize) -> u64 {
        if power < 0 {
            0
        } else {
            pow10(power as nat) as u64
        }
    }

    fn order_of(power: isize) -> (r: u64) {
        if power < 0 {
            return 0;
        }
        let mut running: u64 = 1;
        let mut k: isize = 0;
        while k < power
            invariant
                0 <= k <= power,
                pow10(power as nat) <= u64::MAX,
                running as int == pow10(k as nat),
            decreases power - k,
        {
            proof {
                lemma_pow10_monotone((k + 1) as nat, power as nat);
            }
            running = running * 10;
            k = k + 1;
        }
        running
    }
}

impl Identity for usize {
    open spec fn spec_zero() -> usize {
        0
    }

    open spec fn spec_one() -> usize {
        1
    }

    open spec fn spec_seed() -> usize {
        1
    }

    fn zero() -> (r: usize) {
        0
    }

    fn one() -> (r: usize) {
        1
    }

    fn seed() -> (r: usize) {
        1
    }
}

impl PowersOfTen for usize {
    open spec fn order_of_in_range(power: isize) -> bool {
        power < 0 || pow10(power as nat) <= usize::MAX
    }

    /// `10^power`, or zero for a negative power.
    open spec fn spec_order_of(power: isize) -> usize {
        if power < 0 {
            0
        } else {
            pow10(power as nat) as usize
        }
    }

    fn order_of(power: isize) -> (r: usize) {
        if power < 0 {
            return 0;
        }
        let mut running: usize = 1;
        let mut k: isize = 0;
        while k < power
            invariant
                0 <= k <= power,
                pow10(power as nat) <= usize::MAX,
                running as int == pow10(k as nat),
            decreases power - k,
        {
            proof {
                lemma_pow10_monotone((k + 1) as nat, power as nat);
            }
            running = running * 10;
            k = k + 1;
        }
        running
    }
}

} // verus!
