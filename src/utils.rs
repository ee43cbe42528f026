//! Byte copying and the on/off slot used for keys.
use vstd::prelude::*;

verus! {

/// Copies `input` to the front of `out` and returns the number of bytes copied.
pub fn copy_memory(input: &[u8], out: &mut [u8]) -> (r: usize)
    requires
        input@.len() <= old(out)@.len(),
    ensures
        r == input@.len(),
        final(out)@.len() == old(out)@.len(),
        final(out)@.subrange(0, r as int) == input@,
        final(out)@.subrange(r as int, final(out)@.len() as int) == old(out)@.subrange(
            r as int,
            old(out)@.len() as int,
        ),
{
    let n = input.len();
    let mut count: usize = 0;
    while count < n
        invariant
            n == input@.len(),
            n <= out@.len(),
            out@.len() == old(out)@.len(),
            count <= n,
            forall|j: int| 0 <= j < count ==> out@[j] == input@[j],
            forall|j: int| count <= j < out@.len() ==> out@[j] == old(out)@[j],
        decreases n - count,
    {
        out[count] = input[count];
        count = count + 1;
    }
    assert(out@.subrange(0, n as int) =~= input@);
    assert(out@.subrange(n as int, out@.len() as int) =~= old(out)@.subrange(
        n as int,
        old(out)@.len() as int,
    ));
    n
}

/// Copies `input` into `out` starting at `at` and returns the number of bytes
/// copied; the other bytes of `out` stay.
pub fn copy_at(input: &[u8], out: &mut [u8], at: usize) -> (r: usize)
    requires
        at + input@.len() <= old(out)@.len(),
    ensures
        r == input@.len(),
        final(out)@.len() == old(out)@.len(),
        final(out)@.subrange(at as int, at + r) == input@,
        final(out)@.subrange(0, at as int) == old(out)@.subrange(0, at as int),
        final(out)@.subrange(at + r, final(out)@.len() as int) == old(out)@.subrange(
            at + r,
            old(out)@.len() as int,
        ),
{
    let n = input.len();
    let out_len = out.len();
    let mut count: usize = 0;
    while count < n
        invariant
            n == input@.len(),
            out_len == out@.len(),
            at + n <= out_len,
            out@.len() == old(out)@.len(),
            count <= n,
            forall|j: int| 0 <= j < count ==> out@[at + j] == input@[j],
            forall|j: int| 0 <= j < at ==> out@[j] == old(out)@[j],
            forall|j: int| at + count <= j < out@.len() ==> out@[j] == old(out)@[j],
        decreases n - count,
    {
        out[at + count] = input[count];
        count = count + 1;
    }
    assert(out@.subrange(at as int, at + n) =~= input@);
    assert(out@.subrange(0, at as int) =~= old(out)@.subrange(0, at as int));
    assert(out@.subrange(at + n, out@.len() as int) =~= old(out)@.subrange(at + n, old(out)@.len() as int));
    n
}

/// A value that is always allocated, with a flag that says whether it holds
/// meaningful contents.
pub struct Toggle<T> {
    pub inner: T,
    pub on: bool,
}

impl<T> Toggle<T> {
    /// A slot holding `inner`, switched on.
    pub fn on(inner: T) -> (r: Self)
        ensures
            r.inner == inner,
            r.on,
    {
        Toggle { inner, on: true }
    }

    /// A slot holding `inner`, switched off.
    pub fn off(inner: T) -> (r: Self)
        ensures
            r.inner == inner,
            !r.on,
    {
        Toggle { inner, on: false }
    }

    /// The held value, whether the slot is on or not.
    pub fn into_inner(self) -> (r: T)
        ensures
            r == self.inner,
    {
        self.inner
    }

    /// Switches the slot on, keeping its contents.
    pub fn enable(&mut self)
        ensures
            final(self).on,
            final(self).inner == old(self).inner,
    {
        self.on = true;
    }

    pub fn is_on(&self) -> (r: bool)
        ensures
            r == self.on,
    {
        self.on
    }

    /// The held value if the slot is on.
    pub fn as_option_ref(&self) -> (r: Option<&T>)
        ensures
            self.on ==> r == Some(&self.inner),
            !self.on ==> r is None,
    {
        if self.on {
            Some(&self.inner)
        } else {
            None
        }
    }
}

} // verus!
