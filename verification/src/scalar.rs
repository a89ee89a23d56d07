//! Vocabulary for the arithmetic of an entry type.
//!
//! The entry type `T` brings its own `+`, `-`, `*`, `/`, `<`, `>`, `==` and its
//! own zero (`T::default()`). Nothing is assumed of them: these predicates
//! name exactly what each operation accepts and what it may return, so a
//! contract can say "this entry is what `x + y` returned" for any `T`. For
//! the primitive integers an operation may be evaluated where its result is
//! in range, and what it returns is the usual value. Comparisons accept
//! every pair of operands.
use vstd::prelude::*;
use core::ops::{Add, Div, Mul, Sub};
use vstd::std_specs::ops::AddSpec;

verus! {

/// `z` is a value that `T::default()` may return: the zero of the entry type.
pub open spec fn is_zero<T: Default>(z: T) -> bool {
    call_ensures(T::default, (), z)
}

/// `x + y` may be evaluated.
pub open spec fn can_add<T: Add<Output = T>>(x: T, y: T) -> bool {
    call_requires(T::add, (x, y))
}

/// `r` is a value that `x + y` may return.
pub open spec fn sum_of<T: Add<Output = T>>(x: T, y: T, r: T) -> bool {
    call_ensures(T::add, (x, y), r)
}

/// `x - y` may be evaluated.
pub open spec fn can_sub<T: Sub<Output = T>>(x: T, y: T) -> bool {
    call_requires(T::sub, (x, y))
}

/// `r` is a value that `x - y` may return.
pub open spec fn difference_of<T: Sub<Output = T>>(x: T, y: T, r: T) -> bool {
    call_ensures(T::sub, (x, y), r)
}

/// `x * y` may be evaluated.
pub open spec fn can_mul<T: Mul<Output = T>>(x: T, y: T) -> bool {
    call_requires(T::mul, (x, y))
}

/// `r` is a value that `x * y` may return.
pub open spec fn product_of<T: Mul<Output = T>>(x: T, y: T, r: T) -> bool {
    call_ensures(T::mul, (x, y), r)
}

/// `x / y` may be evaluated.
pub open spec fn can_div<T: Div<Output = T>>(x: T, y: T) -> bool {
    call_requires(T::div, (x, y))
}

/// `r` is a value that `x / y` may return.
pub open spec fn quotient_of<T: Div<Output = T>>(x: T, y: T, r: T) -> bool {
    call_ensures(T::div, (x, y), r)
}

/// `b` is an answer that `x < y` may give.
pub open spec fn below<T: PartialOrd>(x: T, y: T, b: bool) -> bool {
    call_ensures(T::lt, (&x, &y), b)
}

/// `b` is an answer that `x > y` may give.
pub open spec fn above<T: PartialOrd>(x: T, y: T, b: bool) -> bool {
    call_ensures(T::gt, (&x, &y), b)
}

/// `b` is an answer that `x != y` may give.
pub open spec fn differs<T: PartialEq>(x: T, y: T, b: bool) -> bool {
    call_ensures(T::ne, (&x, &y), b)
}

/// `x + y` and `y + x` have one and the same value.
pub open spec fn add_commutes<T: Add<Output = T>>() -> bool {
    forall|x: T, y: T, r1: T, r2: T| #[trigger]
        sum_of(x, y, r1) && #[trigger] sum_of(y, x, r2) ==> r1 == r2
}

/// Where `x + y` is within the entry type's range, subtracting `y` from it
/// gives `x` back.
pub open spec fn sub_undoes_add<T: Add<Output = T> + Sub<Output = T>>() -> bool {
    forall|x: T, y: T, s: T, d: T|
        x.add_req(y) && #[trigger] sum_of(x, y, s) && #[trigger] difference_of(s, y, d) ==> d
            == x
}

/// `T` has one zero only.
pub open spec fn zero_is_unique<T: Default>() -> bool {
    forall|a: T, b: T| #[trigger] is_zero(a) && #[trigger] is_zero(b) ==> a == b
}

/// `x + y` has one value only.
pub open spec fn add_is_function<T: Add<Output = T>>() -> bool {
    forall|x: T, y: T, r1: T, r2: T| #[trigger]
        sum_of(x, y, r1) && #[trigger] sum_of(x, y, r2) ==> r1 == r2
}

/// `x - y` has one value only.
pub open spec fn sub_is_function<T: Sub<Output = T>>() -> bool {
    forall|x: T, y: T, r1: T, r2: T| #[trigger]
        difference_of(x, y, r1) && #[trigger] difference_of(x, y, r2) ==> r1 == r2
}

/// `x * y` has one value only.
pub open spec fn mul_is_function<T: Mul<Output = T>>() -> bool {
    forall|x: T, y: T, r1: T, r2: T| #[trigger]
        product_of(x, y, r1) && #[trigger] product_of(x, y, r2) ==> r1 == r2
}

/// `x / y` has one value only.
pub open spec fn div_is_function<T: Div<Output = T>>() -> bool {
    forall|x: T, y: T, r1: T, r2: T| #[trigger]
        quotient_of(x, y, r1) && #[trigger] quotient_of(x, y, r2) ==> r1 == r2
}

/// `x < y` and `x > y` have one answer only.
pub open spec fn order_is_function<T: PartialOrd>() -> bool {
    &&& forall|x: T, y: T, b1: bool, b2: bool| #[trigger]
        below(x, y, b1) && #[trigger] below(x, y, b2) ==> b1 == b2
    &&& forall|x: T, y: T, b1: bool, b2: bool| #[trigger]
        above(x, y, b1) && #[trigger] above(x, y, b2) ==> b1 == b2
}

/// `f` has one value only for each argument.
pub open spec fn is_function<T, F: Fn(T) -> T>(f: F) -> bool {
    forall|x: T, y1: T, y2: T| #[trigger]
        call_ensures(f, (x,), y1) && #[trigger] call_ensures(f, (x,), y2) ==> y1 == y2
}

} // verus!
