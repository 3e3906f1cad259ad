//! Oblivious linear evaluation as an ideal functionality: it sees both
//! parties' vectors and hands each an additive share of their elementwise
//! product. It stands in for a real two-party protocol.

use super::Role;
use crate::algebra::lemma_difference_restored;
use crate::field::{all_valid, difference, Ring};
use vstd::prelude::*;

verus! {

/// Why a batch has no output.
#[derive(Debug, Clone, Copy, PartialEq, Eq)]
pub enum OleError {
    /// The two parties have not both given a vector, or their vectors differ
    /// in length.
    InvalidBatch,
}

/// One batch of multiplications. Both parties give a vector; the first call
/// of `output` draws that party's shares and keeps the other party's, which
/// the second call hands out. A batch is used once.
#[derive(Debug)]
pub struct Ole<T: Ring> {
    input_sender: Option<Vec<T>>,
    input_receiver: Option<Vec<T>>,
    output: Option<Vec<T>>,
}

/// `out` and `kept` are the two parties' shares of the products of `s` and
/// `r`, where `out` belongs to `role`: the sender's share is free, and the
/// receiver's is the product less the sender's.
pub open spec fn shares_of_products<T: Ring>(
    s: Seq<T>,
    r: Seq<T>,
    role: Role,
    out: Seq<T>,
    kept: Seq<T>,
) -> bool {
    &&& out.len() == s.len()
    &&& kept.len() == s.len()
    &&& all_valid(out)
    &&& all_valid(kept)
    &&& forall|i: int|
        0 <= i < s.len() ==> match role {
            Role::Sender => #[trigger] kept[i] == difference(s[i].times(r[i]), out[i]),
            Role::Receiver => #[trigger] out[i] == difference(s[i].times(r[i]), kept[i]),
        }
}

/// The length of a vector that was given, zero for one that was not.
pub open spec fn given_len<T>(v: Option<Seq<T>>) -> nat {
    match v {
        Some(s) => s.len(),
        None => 0,
    }
}

/// The elements of a vector as a sequence.
pub open spec fn elements<T>(v: Option<Vec<T>>) -> Option<Seq<T>> {
    match v {
        Some(v) => Some(v@),
        None => None,
    }
}

impl<T: Ring> Ole<T> {
    #[verifier::type_invariant]
    spec fn elements_valid(self) -> bool {
        &&& self.input_sender matches Some(v) ==> all_valid(v@)
        &&& self.input_receiver matches Some(v) ==> all_valid(v@)
        &&& self.output matches Some(v) ==> all_valid(v@)
    }

    /// The vector that the sender gave, if it gave one.
    pub closed spec fn sender_input(&self) -> Option<Seq<T>> {
        elements(self.input_sender)
    }

    /// The vector that the receiver gave, if it gave one.
    pub closed spec fn receiver_input(&self) -> Option<Seq<T>> {
        elements(self.input_receiver)
    }

    /// The shares kept for the party that has not asked yet, if one party has
    /// asked.
    pub closed spec fn kept(&self) -> Option<Seq<T>> {
        elements(self.output)
    }

    /// A batch that has been given `s` and `r` and has handed out nothing.
    pub open spec fn holds_inputs(&self, s: Seq<T>, r: Seq<T>) -> bool {
        &&& self.sender_input() == Some(s)
        &&& self.receiver_input() == Some(r)
        &&& self.kept() is None
    }

    /// A batch that holds nothing: a new one, or one that has handed out both
    /// parties' shares.
    pub open spec fn is_empty(&self) -> bool {
        &&& self.sender_input() is None
        &&& self.receiver_input() is None
        &&& self.kept() is None
    }

    /// The same vectors and the same kept shares.
    pub open spec fn same_as(&self, other: &Self) -> bool {
        &&& self.sender_input() == other.sender_input()
        &&& self.receiver_input() == other.receiver_input()
        &&& self.kept() == other.kept()
    }

    /// The length of what the next call of `output` returns; none where it
    /// fails.
    pub open spec fn output_len(&self) -> Option<nat> {
        if given_len(self.sender_input()) != given_len(self.receiver_input()) {
            None
        } else if self.kept() is Some {
            Some(self.kept()->0.len())
        } else if self.sender_input() is None || self.receiver_input() is None {
            None
        } else {
            Some(self.sender_input()->0.len())
        }
    }

    /// What one call of `output` for `role` does: `self` is the batch before
    /// the call, `after` the batch after it, `res` what the call returned.
    ///
    /// Vectors of different lengths are refused, a vector that was not given
    /// counting as empty. Else kept shares are handed out as they are. Else
    /// both vectors are needed: the shares are drawn, and the vectors are
    /// dropped.
    pub open spec fn output_step(
        &self,
        role: Role,
        after: &Self,
        res: Result<Vec<T>, OleError>,
    ) -> bool {
        if given_len(self.sender_input()) != given_len(self.receiver_input()) {
            &&& res == Err::<Vec<T>, OleError>(OleError::InvalidBatch)
            &&& after.same_as(self)
        } else if self.kept() is Some {
            &&& res is Ok
            &&& res->Ok_0@ == self.kept()->0
            &&& after.sender_input() == self.sender_input()
            &&& after.receiver_input() == self.receiver_input()
            &&& after.kept() is None
        } else if self.sender_input() is None || self.receiver_input() is None {
            &&& res == Err::<Vec<T>, OleError>(OleError::InvalidBatch)
            &&& after.same_as(self)
        } else {
            &&& res is Ok
            &&& after.sender_input() is None
            &&& after.receiver_input() is None
            &&& after.kept() is Some
            &&& shares_of_products(
                self.sender_input()->0,
                self.receiver_input()->0,
                role,
                res->Ok_0@,
                after.kept()->0,
            )
        }
    }

    /// Records the vector of the party `role`, in place of an earlier one.
    pub fn input(&mut self, role: Role, input: Vec<T>)
        requires
            all_valid(input@),
        ensures
            final(self).kept() == old(self).kept(),
            match role {
                Role::Sender => {
                    &&& final(self).sender_input() == Some(input@)
                    &&& final(self).receiver_input() == old(self).receiver_input()
                },
                Role::Receiver => {
                    &&& final(self).receiver_input() == Some(input@)
                    &&& final(self).sender_input() == old(self).sender_input()
                },
            },
    {
        proof {
            use_type_invariant(&*self);
        }
        match role {
            Role::Sender => {
                self.input_sender = Some(input);
            },
            Role::Receiver => {
                self.input_receiver = Some(input);
            },
        }
    }

    /// The shares of the party `role`. Where shares are kept from an earlier
    /// call, they are handed out as they are. Otherwise one fresh share is
    /// drawn for each position, the other party's share is derived from it
    /// and kept, and both vectors of the batch are dropped.
    pub fn output(&mut self, role: Role) -> (res: Result<Vec<T>, OleError>)
        ensures
            old(self).output_step(role, final(self), res),
            res is Ok <==> old(self).output_len() is Some,
            res is Ok ==> res->Ok_0@.len() == old(self).output_len()->0 && all_valid(res->Ok_0@),
    {
        proof {
            use_type_invariant(&*self);
        }
        let sender_len = match &self.input_sender {
            Some(v) => v.len(),
            None => 0,
        };
        let receiver_len = match &self.input_receiver {
            Some(v) => v.len(),
            None => 0,
        };
        if sender_len != receiver_len {
            return Err(OleError::InvalidBatch);
        }
        if self.output.is_some() {
            let mut taken: Option<Vec<T>> = None;
            std::mem::swap(&mut self.output, &mut taken);
            return Ok(taken.unwrap());
        }
        if self.input_sender.is_none() || self.input_receiver.is_none() {
            return Err(OleError::InvalidBatch);
        }
        let mut given_sender: Option<Vec<T>> = None;
        let mut given_receiver: Option<Vec<T>> = None;
        std::mem::swap(&mut self.input_sender, &mut given_sender);
        std::mem::swap(&mut self.input_receiver, &mut given_receiver);
        let input_sender = given_sender.unwrap();
        let input_receiver = given_receiver.unwrap();
        let n = input_sender.len();
        let mut output: Vec<T> = Vec::new();
        let mut kept: Vec<T> = Vec::new();
        let mut i: usize = 0;
        while i < n
            invariant
                i <= n,
                n == input_sender.len(),
                n == input_receiver.len(),
                all_valid(input_sender@),
                all_valid(input_receiver@),
                output.len() == i,
                kept.len() == i,
                all_valid(output@),
                all_valid(kept@),
                forall|j: int|
                    0 <= j < i ==> match role {
                        Role::Sender => #[trigger] kept[j] == difference(
                            input_sender[j].times(input_receiver[j]),
                            output[j],
                        ),
                        Role::Receiver => #[trigger] output[j] == difference(
                            input_sender[j].times(input_receiver[j]),
                            kept[j],
                        ),
                    },
            decreases n - i,
        {
            let s = input_sender[i];
            let r = input_receiver[i];
            let s_out = T::rand();
            proof {
                T::lemma_results_valid(s, r);
                T::lemma_results_valid(s_out, s_out);
                T::lemma_results_valid(s.times(r), s_out.opposite());
            }
            let r_out = s.mul(r).add(s_out.neg());
            match role {
                Role::Sender => {
                    output.push(s_out);
                    kept.push(r_out);
                },
                Role::Receiver => {
                    output.push(r_out);
                    kept.push(s_out);
                },
            }
            i = i + 1;
        }
        self.output = Some(kept);
        Ok(output)
    }
}

impl<T: Ring> Default for Ole<T> {
    fn default() -> (r: Self)
        ensures
            r.is_empty(),
    {
        Self { input_sender: None, input_receiver: None, output: None }
    }
}

/// The two parties' outputs of one batch add up to the products of their
/// inputs, position by position, whichever party asks first.
pub proof fn lemma_outputs_share_products<T: Ring>(
    batch: Ole<T>,
    s: Seq<T>,
    r: Seq<T>,
    first: Role,
    after_first: Ole<T>,
    out_first: Vec<T>,
    second: Role,
    after_second: Ole<T>,
    out_second: Vec<T>,
)
    requires
        batch.holds_inputs(s, r),
        s.len() == r.len(),
        first != second,
        batch.output_step(first, &after_first, Ok(out_first)),
        after_first.output_step(second, &after_second, Ok(out_second)),
    ensures
        out_first.len() == s.len(),
        out_second.len() == s.len(),
        forall|i: int|
            0 <= i < s.len() ==> (#[trigger] out_first[i]).plus(out_second[i]) == s[i].times(r[i]),
        after_second.is_empty(),
{
    lemma_second_output_is_kept(after_first, second, after_second, out_second);
    assert forall|i: int| 0 <= i < s.len() implies (#[trigger] out_first[i]).plus(out_second[i])
        == s[i].times(r[i]) by {
        T::lemma_results_valid(s[i], r[i]);
        lemma_share_and_rest(s[i].times(r[i]), out_first[i]);
        lemma_share_and_rest(s[i].times(r[i]), out_second[i]);
        T::lemma_plus_commutes(out_first[i], out_second[i]);
        match first {
            Role::Sender => {
                assert(after_first.kept()->0[i] == difference(s[i].times(r[i]), out_first[i]));
            },
            Role::Receiver => {
                assert(out_first[i] == difference(s[i].times(r[i]), after_first.kept()->0[i]));
            },
        }
    }
}

/// Once one party has its shares, the next call of `output` returns what the
/// first call kept, whichever role it is made for, and draws nothing. After
/// it the batch is empty.
pub proof fn lemma_second_output_is_kept<T: Ring>(
    used: Ole<T>,
    role: Role,
    after: Ole<T>,
    out: Vec<T>,
)
    requires
        used.sender_input() is None,
        used.receiver_input() is None,
        used.kept() is Some,
        used.output_step(role, &after, Ok(out)),
    ensures
        out@ == used.kept()->0,
        after.is_empty(),
{
}

/// A batch that holds nothing has no output.
pub proof fn lemma_empty_batch_has_no_output<T: Ring>(
    batch: Ole<T>,
    role: Role,
    after: Ole<T>,
    res: Result<Vec<T>, OleError>,
)
    requires
        batch.is_empty(),
        batch.output_step(role, &after, res),
    ensures
        res == Err::<Vec<T>, OleError>(OleError::InvalidBatch),
        after.is_empty(),
{
}

/// A share and what is left of the whole without it add up to the whole.
pub proof fn lemma_share_and_rest<T: Ring>(whole: T, share: T)
    requires
        whole.valid(),
    ensures
        share.plus(difference(whole, share)) == whole,
        difference(whole, share).plus(share) == whole,
{
    lemma_difference_restored(whole, share);
    T::lemma_plus_commutes(share, difference(whole, share));
}

} // verus!
