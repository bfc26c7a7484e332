//! The public group parameters that prover and verifier share.

use vstd::prelude::*;
use crate::bignum::{byte_length, BigNum};

verus! {

/// The parameters as numbers.
pub ghost struct GroupView {
    pub g: nat,
    pub h: nat,
    pub p: nat,
    pub q: nat,
}

impl GroupView {
    /// What the arithmetic needs of the parameters: a modulus above 1 and an
    /// order that is positive and below the modulus.
    pub open spec fn wf(self) -> bool {
        self.p > 1 && 0 < self.q < self.p
    }

    /// The agreed width of every number on the wire: the byte length of the
    /// modulus.
    pub open spec fn width(self) -> nat {
        byte_length(self.p)
    }
}

/// Group parameters `(g, h, p, q)`, fixed for a deployment. Every value of
/// this type is well formed.
pub struct Group {
    g: BigNum,
    h: BigNum,
    p: BigNum,
    q: BigNum,
    width: usize,
}

impl View for Group {
    type V = GroupView;

    closed spec fn view(&self) -> GroupView {
        GroupView { g: self.g@, h: self.h@, p: self.p@, q: self.q@ }
    }
}

impl Group {
    #[verifier::type_invariant]
    spec fn inv(self) -> bool {
        self@.wf() && self.width == self@.width()
    }

    /// The group with generators `g`, `h`, modulus `p` and order `q`, or
    /// `None` where `p` is not above 1 or `q` is not in `(0, p)`.
    pub fn new(g: BigNum, h: BigNum, p: BigNum, q: BigNum) -> (r: Option<Group>)
        ensures
            match r {
                Some(group) => group@ == (GroupView { g: g@, h: h@, p: p@, q: q@ }) && group@.wf(),
                None => !(GroupView { g: g@, h: h@, p: p@, q: q@ }).wf(),
            },
    {
        let one: BigNum = BigNum::from_bytes_be(&[1u8]);
        proof {
            assert(seq![1u8].drop_last() =~= Seq::<u8>::empty());
            reveal_with_fuel(crate::bignum::be_value, 2);
        }
        if one.less_than(&p) && !q.is_zero() && q.less_than(&p) {
            let width: usize = p.byte_length();
            Some(Group { g, h, p, q, width })
        } else {
            None
        }
    }

    /// The first generator.
    pub fn g(&self) -> (r: &BigNum)
        ensures
            r@ == self@.g,
    {
        &self.g
    }

    /// The second generator.
    pub fn h(&self) -> (r: &BigNum)
        ensures
            r@ == self@.h,
    {
        &self.h
    }

    /// The modulus, which is above 1.
    pub fn p(&self) -> (r: &BigNum)
        ensures
            r@ == self@.p,
            self@.wf(),
    {
        proof {
            use_type_invariant(self);
        }
        &self.p
    }

    /// The order of the generators, which is positive and below the modulus.
    pub fn q(&self) -> (r: &BigNum)
        ensures
            r@ == self@.q,
            self@.wf(),
    {
        proof {
            use_type_invariant(self);
        }
        &self.q
    }

    /// The agreed width in bytes of every number on the wire.
    pub fn width(&self) -> (r: usize)
        ensures
            r == self@.width(),
            self@.wf(),
    {
        proof {
            use_type_invariant(self);
        }
        self.width
    }
}

} // verus!
