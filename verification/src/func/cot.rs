//! Correlated oblivious transfer extension without errors, as an ideal
//! functionality over the field with two elements.

use super::Role;
use crate::f2::F2;
use crate::field::Ring;
use vstd::prelude::*;

verus! {

/// One extension: `l` rows of `kappa` bits each. The receiver's rows `t` are
/// random; the sender's rows are `q[i][k] = t[i][k] + delta[k] * x[i][k]`.
#[derive(Debug, Default)]
pub struct Cot {
    kappa: usize,
    l: usize,
    delta: Vec<F2>,
    t: Vec<Vec<F2>>,
    q: Vec<Vec<F2>>,
}

/// The rows of a matrix as sequences.
pub open spec fn rows_of(m: Seq<Vec<F2>>) -> Seq<Seq<F2>> {
    Seq::new(m.len(), |i: int| m[i]@)
}

/// The sender's row for the receiver's row `t`, the correlation `delta` and
/// the choice row `x`. It is as long as the shorter of `t` and `delta`.
pub open spec fn correlated_row(t: Seq<F2>, delta: Seq<F2>, x: Seq<F2>) -> Seq<F2> {
    Seq::new(
        if delta.len() <= t.len() {
            delta.len()
        } else {
            t.len()
        },
        |k: int| t[k].plus(delta[k].times(x[k])),
    )
}

impl Cot {
    pub closed spec fn kappa(&self) -> usize {
        self.kappa
    }

    pub closed spec fn l(&self) -> usize {
        self.l
    }

    pub closed spec fn delta(&self) -> Seq<F2> {
        self.delta@
    }

    /// The receiver's rows.
    pub closed spec fn t(&self) -> Seq<Seq<F2>> {
        rows_of(self.t@)
    }

    /// The sender's rows.
    pub closed spec fn q(&self) -> Seq<Seq<F2>> {
        rows_of(self.q@)
    }

    /// The state in which nothing was given and nothing is held.
    pub open spec fn is_reset(&self) -> bool {
        &&& self.kappa() == 0
        &&& self.l() == 0
        &&& self.delta().len() == 0
        &&& self.t().len() == 0
        &&& self.q().len() == 0
    }

    pub fn new(kappa: usize, l: usize) -> (r: Self)
        ensures
            r.kappa() == kappa,
            r.l() == l,
            r.delta().len() == 0,
            r.t().len() == 0,
            r.q().len() == 0,
    {
        Self { kappa, l, delta: Vec::new(), t: Vec::new(), q: Vec::new() }
    }

    /// Records the sender's correlation, one bit for each of the `kappa`
    /// columns.
    pub fn initialize_input_delta(&mut self, delta: Vec<F2>)
        requires
            delta.len() == old(self).kappa(),
        ensures
            final(self).delta() == delta@,
            final(self).kappa() == old(self).kappa(),
            final(self).l() == old(self).l(),
            final(self).t() == old(self).t(),
            final(self).q() == old(self).q(),
    {
        self.delta = delta;
    }

    /// Takes the receiver's choice rows, draws the receiver's rows `t` and
    /// derives the sender's rows `q` from them.
    pub fn extend_input_x(&mut self, x: Vec<Vec<F2>>)
        requires
            old(self).t().len() == 0,
            old(self).q().len() == 0,
            x.len() == old(self).l(),
            forall|i: int| 0 <= i < x.len() ==> (#[trigger] x[i]).len() == old(self).kappa(),
        ensures
            final(self).kappa() == old(self).kappa(),
            final(self).l() == old(self).l(),
            final(self).delta() == old(self).delta(),
            final(self).t().len() == old(self).l(),
            final(self).q().len() == old(self).l(),
            forall|i: int|
                0 <= i < old(self).l() ==> (#[trigger] final(self).t()[i]).len() == old(
                    self,
                ).kappa(),
            forall|i: int|
                0 <= i < old(self).l() ==> #[trigger] final(self).q()[i] == correlated_row(
                    final(self).t()[i],
                    old(self).delta(),
                    x[i]@,
                ),
    {
        let mut t: Vec<Vec<F2>> = Vec::new();
        let mut i: usize = 0;
        while i < self.l
            invariant
                i <= self.l,
                t.len() == i,
                forall|j: int| 0 <= j < i ==> (#[trigger] t[j]).len() == self.kappa,
            decreases self.l - i,
        {
            let mut inner: Vec<F2> = Vec::new();
            let mut k: usize = 0;
            while k < self.kappa
                invariant
                    k <= self.kappa,
                    inner.len() == k,
                decreases self.kappa - k,
            {
                inner.push(F2::rand());
                k = k + 1;
            }
            t.push(inner);
            i = i + 1;
        }
        let mut q: Vec<Vec<F2>> = Vec::new();
        let mut i: usize = 0;
        while i < self.l
            invariant
                i <= self.l,
                self.l == x.len(),
                t.len() == self.l,
                q.len() == i,
                forall|j: int| 0 <= j < x.len() ==> (#[trigger] x[j]).len() == self.kappa,
                forall|j: int| 0 <= j < t.len() ==> (#[trigger] t[j]).len() == self.kappa,
                forall|j: int|
                    0 <= j < i ==> (#[trigger] q[j])@ == correlated_row(t[j]@, self.delta@, x[j]@),
            decreases self.l - i,
        {
            let row = Self::correlate(&t[i], &self.delta, &x[i]);
            q.push(row);
            i = i + 1;
        }
        self.t = t;
        self.q = q;
        proof {
            assert forall|j: int| 0 <= j < old(self).l() implies #[trigger] self.q()[j]
                == correlated_row(self.t()[j], old(self).delta(), x[j]@) by {
                assert(self.q()[j] == self.q@[j]@);
                assert(self.t()[j] == self.t@[j]@);
            }
        }
    }

    /// One sender's row.
    fn correlate(t: &Vec<F2>, delta: &Vec<F2>, x: &Vec<F2>) -> (row: Vec<F2>)
        requires
            t.len() == x.len(),
        ensures
            row@ == correlated_row(t@, delta@, x@),
    {
        let n = if delta.len() <= t.len() {
            delta.len()
        } else {
            t.len()
        };
        let mut row: Vec<F2> = Vec::new();
        let mut k: usize = 0;
        while k < n
            invariant
                k <= n,
                n <= t.len(),
                n <= delta.len(),
                t.len() == x.len(),
                row.len() == k,
                forall|j: int| 0 <= j < k ==> #[trigger] row[j] == t[j].plus(delta[j].times(x[j])),
            decreases n - k,
        {
            let xd = delta[k].mul(x[k]);
            row.push(t[k].add(xd));
            k = k + 1;
        }
        assert(row@ =~= correlated_row(t@, delta@, x@));
        row
    }

    /// Hands out the rows of one side, the sender's `q` or the receiver's
    /// `t`, and resets the functionality: what the other side had
    /// is gone with it.
    pub fn output(&mut self, role: Role) -> (out: Vec<Vec<F2>>)
        ensures
            rows_of(out@) == match role {
                Role::Sender => old(self).q(),
                Role::Receiver => old(self).t(),
            },
            final(self).is_reset(),
    {
        let mut taken: Vec<Vec<F2>> = Vec::new();
        match role {
            Role::Sender => {
                std::mem::swap(&mut self.q, &mut taken);
            },
            Role::Receiver => {
                std::mem::swap(&mut self.t, &mut taken);
            },
        }
        self.kappa = 0;
        self.l = 0;
        self.delta = Vec::new();
        self.t = Vec::new();
        self.q = Vec::new();
        taken
    }
}

} // verus!
