//! Two mutable references into one sequence at once.

use vstd::prelude::*;

use std::collections::VecDeque;

verus! {

/// Containers that can lend two of their elements mutably at the same time.
pub trait GetMutPair<T> {
    /// The elements, in order.
    spec fn items(&self) -> Seq<T>;

    /// Mutable references to elements `a` and `b` (in that order); writing
    /// through them changes exactly those two elements.
    fn get_mut_pair(&mut self, a: usize, b: usize) -> (r: (&mut T, &mut T))
        requires
            a != b,
            a < old(self).items().len(),
            b < old(self).items().len(),
        ensures
            *r.0 == old(self).items()[a as int],
            *r.1 == old(self).items()[b as int],
            final(self).items() == old(self).items().update(a as int, *final(r.0)).update(
                b as int,
                *final(r.1),
            ),
    ;
}

impl<T> GetMutPair<T> for [T] {
    open spec fn items(&self) -> Seq<T> {
        self@
    }

    fn get_mut_pair(&mut self, a: usize, b: usize) -> (r: (&mut T, &mut T)) {
        let (lo, hi, swapped) = if a < b {
            (a, b, false)
        } else {
            (b, a, true)
        };
        let xyz = self;
        let (_x, yz) = xyz.split_at_mut(lo);
        let (y, z) = yz.split_at_mut(hi - lo);
        let mut1 = y.first_mut().unwrap();
        let mut2 = z.first_mut().unwrap();
        if swapped {
            (mut2, mut1)
        } else {
            (mut1, mut2)
        }
    }
}

/// The two slices of a `VecDeque`, by `VecDeque::as_mut_slices`.
/// Trusted: the front slice followed by the back slice holds the elements in
/// order, and what is written through them is what the deque then holds.
#[verifier::external_body]
fn deque_slices<T>(d: &mut VecDeque<T>) -> (r: (&mut [T], &mut [T]))
    ensures
        old(d)@ == r.0@ + r.1@,
        final(d)@ == final(r.0)@ + final(r.1)@,
{
    d.as_mut_slices()
}

/// A mutable reference to element `i` of `s`.
fn elem_mut<T>(s: &mut [T], i: usize) -> (r: &mut T)
    requires
        i < old(s)@.len(),
    ensures
        *r == old(s)@[i as int],
        final(s)@ == old(s)@.update(i as int, *final(r)),
{
    let (_x, rest) = s.split_at_mut(i);
    rest.first_mut().unwrap()
}

/// A mutable reference to element `i` of `d`.
pub fn deque_elem_mut<T>(d: &mut VecDeque<T>, i: usize) -> (r: &mut T)
    requires
        i < old(d)@.len(),
    ensures
        *r == old(d)@[i as int],
        final(d)@ == old(d)@.update(i as int, *final(r)),
{
    let (fst, snd) = deque_slices(d);
    let flen = fst.len();
    if i < flen {
        elem_mut(fst, i)
    } else {
        elem_mut(snd, i - flen)
    }
}

impl<T> GetMutPair<T> for VecDeque<T> {
    open spec fn items(&self) -> Seq<T> {
        self@
    }

    fn get_mut_pair(&mut self, a: usize, b: usize) -> (r: (&mut T, &mut T)) {
        let (fst, snd) = deque_slices(self);
        let (lo, hi, swapped) = if a < b {
            (a, b, false)
        } else {
            (b, a, true)
        };
        let flen = fst.len();
        let (mut1, mut2) = if hi < flen {
            fst.get_mut_pair(lo, hi)
        } else if flen <= lo {
            snd.get_mut_pair(lo - flen, hi - flen)
        } else {
            (elem_mut(fst, lo), elem_mut(snd, hi - flen))
        };
        if swapped {
            (mut2, mut1)
        } else {
            (mut1, mut2)
        }
    }
}

} // verus!
