//! Calls whose results are told to be results of the function that was called.
use vstd::prelude::*;

verus! {

/// Calls `f`.
pub(crate) fn call0<R, F: Fn() -> R>(f: F) -> (r: R)
    requires
        call_requires(f, ()),
    ensures
        call_ensures(f, (), r),
{
    f()
}

/// Calls `f` on `a`.
pub(crate) fn call1<A, R, F: Fn(A) -> R>(f: F, a: A) -> (r: R)
    requires
        call_requires(f, (a,)),
    ensures
        call_ensures(f, (a,), r),
{
    f(a)
}

/// Calls `f` on `a` and `b`.
pub(crate) fn call2<A, B, R, F: Fn(A, B) -> R>(f: F, a: A, b: B) -> (r: R)
    requires
        call_requires(f, (a, b)),
    ensures
        call_ensures(f, (a, b), r),
{
    f(a, b)
}

} // verus!
