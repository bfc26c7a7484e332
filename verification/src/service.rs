//! The verifier's side of the protocol: registration, challenge and answer,
//! each one step of the store.
//!
//! What a step does is a function of the state, the request and, for the two
//! steps that draw random values, of the values drawn. The functions
//! [`register_outcome`], [`challenge_outcome`] and [`answer_outcome`] say so,
//! and the methods of [`AuthImpl`] are specified against them.

use vstd::prelude::*;
use vstd::arithmetic::div_mod::{
    lemma_add_mod_noop, lemma_mod_bound, lemma_mod_equivalence, lemma_small_mod,
};
use vstd::arithmetic::power::pow;
use vstd::pervasive::unreached;
use rand::distributions::{Alphanumeric, DistString};
use crate::bignum::{be_value, lemma_byte_length_fits, BigNum};
use crate::codec::{
    decode_spec, deserialize, encode_spec, lemma_encode_spec, lemma_round_trip, serialize,
    DecodeError,
};
use crate::engine::{random_secure_integer, verify};
use crate::group::{Group, GroupView};
use crate::prover::{honest_public_values, honest_response};
use crate::relation::{
    accepts, lemma_equation_holds_iff, lemma_honest_response_accepted,
    lemma_response_from_remainders, pow_mod, response, valid_group,
};
use crate::store::{AuthStore, StoreState};

verus! {

/// Why a request was refused.
#[derive(Debug, Clone, Copy, PartialEq, Eq)]
pub enum AuthError {
    /// The user or the challenge token that the request names is unknown.
    NotFound,
    /// The answer does not satisfy the verification equations.
    Unauthenticated,
    /// A number of the request is not a byte string of the agreed width.
    Malformed(DecodeError),
}

/// The length of challenge tokens and of session ids.
pub const TOKEN_LEN: usize = 6;

/// A letter or a digit of ASCII.
pub open spec fn is_alphanumeric(c: char) -> bool {
    ('a' <= c && c <= 'z') || ('A' <= c && c <= 'Z') || ('0' <= c && c <= '9')
}

/// A token as the service draws them: six letters or digits.
pub open spec fn is_token(s: Seq<char>) -> bool {
    s.len() == TOKEN_LEN && forall|i: int| 0 <= i < s.len() ==> is_alphanumeric(#[trigger] s[i])
}

/// The first reason, if any, for which two numbers of a request do not
/// decode.
pub open spec fn decode_pair(a: Seq<u8>, b: Seq<u8>, width: nat) -> Result<(nat, nat), DecodeError> {
    match decode_spec(a, width) {
        Err(e) => Err(e),
        Ok(first) => match decode_spec(b, width) {
            Err(e) => Err(e),
            Ok(second) => Ok((first, second)),
        },
    }
}

/// Registration: the public values are decoded and stored as they are
/// claimed; a value that does not decode refuses the request.
pub open spec fn register_outcome(
    st: StoreState,
    group: GroupView,
    user: Seq<char>,
    y1: Seq<u8>,
    y2: Seq<u8>,
) -> (StoreState, Result<(), AuthError>) {
    match decode_pair(y1, y2, group.width()) {
        Err(e) => (st, Err(AuthError::Malformed(e))),
        Ok((a, b)) => (st.register(user, a, b), Ok(())),
    }
}

/// Why no challenge can be issued for a request, if it cannot: the user is
/// unknown, or a commitment does not decode.
pub open spec fn challenge_refusal(
    st: StoreState,
    group: GroupView,
    user: Seq<char>,
    r1: Seq<u8>,
    r2: Seq<u8>,
) -> Option<AuthError> {
    if !st.users.contains_key(user) {
        Some(AuthError::NotFound)
    } else {
        match decode_pair(r1, r2, group.width()) {
            Err(e) => Some(AuthError::Malformed(e)),
            Ok(_) => None,
        }
    }
}

/// Issuing the challenge `c` under the token `auth_id`: a refused request
/// changes nothing; otherwise the commitments and `c` replace those of any
/// earlier challenge of the user, and the reply carries `c` encoded.
pub open spec fn challenge_outcome(
    st: StoreState,
    group: GroupView,
    user: Seq<char>,
    r1: Seq<u8>,
    r2: Seq<u8>,
    c: nat,
    auth_id: Seq<char>,
) -> (StoreState, Result<Seq<u8>, AuthError>) {
    match challenge_refusal(st, group, user, r1, r2) {
        Some(e) => (st, Err(e)),
        None => (
            st.begin_challenge(
                user,
                decode_pair(r1, r2, group.width())->Ok_0.0,
                decode_pair(r1, r2, group.width())->Ok_0.1,
                c,
                auth_id,
            ),
            Ok(encode_spec(c, group.width())),
        ),
    }
}

/// Why an answer is refused, if it is: the token leads to no user, the
/// response does not decode, or the verification equations fail for the
/// values stored with the user's latest challenge.
pub open spec fn answer_refusal(
    st: StoreState,
    group: GroupView,
    auth_id: Seq<char>,
    s: Seq<u8>,
) -> Option<AuthError> {
    match st.pending(auth_id) {
        None => Some(AuthError::NotFound),
        Some((user, record)) => match decode_spec(s, group.width()) {
            Err(e) => Some(AuthError::Malformed(e)),
            Ok(response) => if accepts(
                group.g,
                group.h,
                group.p,
                record.y1,
                record.y2,
                record.r1,
                record.r2,
                record.c,
                response,
            ) {
                None
            } else {
                Some(AuthError::Unauthenticated)
            },
        },
    }
}

/// Checking an answer: a refused answer changes nothing, so the user stays
/// challenged; an accepted one stores `session_id` with the user.
pub open spec fn answer_outcome(
    st: StoreState,
    group: GroupView,
    auth_id: Seq<char>,
    s: Seq<u8>,
    session_id: Seq<char>,
) -> (StoreState, Result<(), AuthError>) {
    match answer_refusal(st, group, auth_id, s) {
        Some(e) => (st, Err(e)),
        None => (st.complete_session(st.pending(auth_id)->Some_0.0, session_id), Ok(())),
    }
}

/// The verifier: the group parameters and the store.
pub struct AuthImpl {
    group: Group,
    store: AuthStore,
}

impl View for AuthImpl {
    type V = StoreState;

    closed spec fn view(&self) -> StoreState {
        self.store@
    }
}

impl AuthImpl {
    /// The group parameters of this verifier.
    pub closed spec fn params(&self) -> GroupView {
        self.group@
    }

    /// A verifier for `group` with nobody registered.
    pub fn new(group: Group) -> (r: Self)
        ensures
            r.params() == group@,
            r@ == StoreState::empty(),
    {
        AuthImpl { group, store: AuthStore::new() }
    }

    /// The group parameters.
    pub fn group(&self) -> (r: &Group)
        ensures
            r@ == self.params(),
    {
        &self.group
    }

    /// The store.
    pub fn store(&self) -> (r: &AuthStore)
        ensures
            r@ == self@,
    {
        &self.store
    }

    /// Registers `user` with the public values `y1` and `y2` as it claims
    /// them, replacing any earlier registration of that user.
    pub fn register(&mut self, user: String, y1: &[u8], y2: &[u8]) -> (r: Result<(), AuthError>)
        ensures
            final(self).params() == old(self).params(),
            (final(self)@, r) == register_outcome(old(self)@, old(self).params(), user@, y1@, y2@),
    {
        let width: usize = self.group.width();
        let a: BigNum = match deserialize(y1, width) {
            Ok(n) => n,
            Err(e) => {
                return Err(AuthError::Malformed(e));
            },
        };
        let b: BigNum = match deserialize(y2, width) {
            Ok(n) => n,
            Err(e) => {
                return Err(AuthError::Malformed(e));
            },
        };
        self.store.register(user, a, b);
        Ok(())
    }

    /// Issues the challenge `c` to `user` under the token `auth_id` and
    /// returns `c` encoded for the reply.
    pub fn issue_challenge(
        &mut self,
        user: String,
        r1: &[u8],
        r2: &[u8],
        c: BigNum,
        auth_id: String,
    ) -> (r: Result<Vec<u8>, AuthError>)
        requires
            c@ < old(self).params().q,
        ensures
            final(self).params() == old(self).params(),
            (
                final(self)@,
                match r {
                    Ok(bytes) => Ok(bytes@),
                    Err(e) => Err(e),
                },
            ) == challenge_outcome(
                old(self)@,
                old(self).params(),
                user@,
                r1@,
                r2@,
                c@,
                auth_id@,
            ),
    {
        let width: usize = self.group.width();
        if !self.store.is_registered(user.as_str()) {
            return Err(AuthError::NotFound);
        }
        let a: BigNum = match deserialize(r1, width) {
            Ok(n) => n,
            Err(e) => {
                return Err(AuthError::Malformed(e));
            },
        };
        let b: BigNum = match deserialize(r2, width) {
            Ok(n) => n,
            Err(e) => {
                return Err(AuthError::Malformed(e));
            },
        };
        proof {
            lemma_byte_length_fits(self.params().p, width as nat);
        }
        let encoded: Vec<u8> = match serialize(&c, width) {
            Some(bytes) => bytes,
            None => unreached(),
        };
        let stored = self.store.begin_challenge(user, a, b, c, auth_id);
        Ok(encoded)
    }

    /// Issues a challenge to `user`: draws a fresh challenge below the order
    /// of the group and a fresh token, and returns the token with the
    /// challenge encoded. The request is refused exactly when
    /// [`challenge_refusal`] says so; otherwise the step is that of
    /// [`challenge_outcome`] for the values that the reply carries.
    pub fn create_authentication_challenge(&mut self, user: String, r1: &[u8], r2: &[u8]) -> (r:
        Result<(String, Vec<u8>), AuthError>)
        ensures
            final(self).params() == old(self).params(),
            match r {
                Ok((auth_id, c)) => {
                    &&& is_token(auth_id@)
                    &&& be_value(c@) < old(self).params().q
                    &&& (final(self)@, Ok::<Seq<u8>, AuthError>(c@)) == challenge_outcome(
                        old(self)@,
                        old(self).params(),
                        user@,
                        r1@,
                        r2@,
                        be_value(c@),
                        auth_id@,
                    )
                },
                Err(e) => {
                    &&& final(self)@ == old(self)@
                    &&& challenge_refusal(old(self)@, old(self).params(), user@, r1@, r2@) == Some(e)
                },
            },
    {
        let width: usize = self.group.width();
        let c: BigNum = random_secure_integer(self.group.q());
        let auth_id: String = random_token();
        let token: String = auth_id.clone();
        proof {
            lemma_byte_length_fits(self.params().p, width as nat);
            lemma_encode_spec(c@, width as nat);
        }
        match self.issue_challenge(user, r1, r2, c, auth_id) {
            Ok(encoded) => Ok((token, encoded)),
            Err(e) => Err(e),
        }
    }

    /// Checks the answer `s` to the challenge issued under `auth_id`, and on
    /// success stores `session_id` with the user.
    pub fn check_answer(&mut self, auth_id: &str, s: &[u8], session_id: String) -> (r: Result<
        (),
        AuthError,
    >)
        ensures
            final(self).params() == old(self).params(),
            (final(self)@, r) == answer_outcome(
                old(self)@,
                old(self).params(),
                auth_id@,
                s@,
                session_id@,
            ),
    {
        let width: usize = self.group.width();
        let (user_id, info) = match self.store.lookup_for_answer(auth_id) {
            Ok(found) => found,
            Err(_) => {
                return Err(AuthError::NotFound);
            },
        };
        let response: BigNum = match deserialize(s, width) {
            Ok(n) => n,
            Err(e) => {
                return Err(AuthError::Malformed(e));
            },
        };
        let accepted: bool = verify(
            self.group.g(),
            self.group.h(),
            self.group.p(),
            &info.y1,
            &info.y2,
            &info.r1,
            &info.r2,
            &info.c,
            &response,
        );
        if accepted {
            let stored = self.store.complete_session(user_id, session_id);
            Ok(())
        } else {
            Err(AuthError::Unauthenticated)
        }
    }

    /// Checks the answer `s` to the challenge issued under `auth_id`. The
    /// answer is refused exactly when [`answer_refusal`] says so; otherwise a
    /// fresh session id is drawn, stored with the user and returned.
    pub fn verify_authentication(&mut self, auth_id: &str, s: &[u8]) -> (r: Result<
        String,
        AuthError,
    >)
        ensures
            final(self).params() == old(self).params(),
            match r {
                Ok(session_id) => {
                    &&& is_token(session_id@)
                    &&& (final(self)@, Ok::<(), AuthError>(())) == answer_outcome(
                        old(self)@,
                        old(self).params(),
                        auth_id@,
                        s@,
                        session_id@,
                    )
                },
                Err(e) => {
                    &&& final(self)@ == old(self)@
                    &&& answer_refusal(old(self)@, old(self).params(), auth_id@, s@) == Some(e)
                },
            },
    {
        let session_id: String = random_token();
        let reply: String = session_id.clone();
        match self.check_answer(auth_id, s, session_id) {
            Ok(()) => Ok(reply),
            Err(e) => Err(e),
        }
    }
}

/// Valid group parameters are well formed: the order is below the modulus.
pub proof fn lemma_valid_group_is_well_formed(group: GroupView)
    requires
        valid_group(group.g, group.h, group.p, group.q),
    ensures
        group.wf(),
{
    if group.p - 1 < group.q {
        lemma_small_mod((group.p - 1) as nat, group.q);
    }
}

/// Every number below the modulus survives the wire.
pub proof fn lemma_wire_round_trip(group: GroupView, v: nat)
    requires
        v < group.p,
    ensures
        decode_spec(encode_spec(v, group.width()), group.width()) == Ok::<nat, DecodeError>(v),
{
    lemma_byte_length_fits(group.p, group.width());
    lemma_round_trip(v, group.width());
}

/// Store isolation: a registration, accepted or refused, leaves the record of
/// every other user, and every issued challenge, as it was.
pub proof fn lemma_register_leaves_others(
    st: StoreState,
    group: GroupView,
    user: Seq<char>,
    y1: Seq<u8>,
    y2: Seq<u8>,
    other: Seq<char>,
)
    requires
        other != user,
    ensures
        ({
            let after = register_outcome(st, group, user, y1, y2).0;
            &&& after.users.contains_key(other) == st.users.contains_key(other)
            &&& st.users.contains_key(other) ==> after.users[other] == st.users[other]
            &&& after.challenges == st.challenges
        }),
{
}

/// The protocol is complete: in a valid group, a prover that registers the
/// public values of its secret `x`, commits to a nonce `k` and answers the
/// challenge `c` with the response it computes from them is authenticated,
/// whatever the state before and whatever token and session id are drawn.
pub proof fn lemma_honest_prover_authenticates(
    st: StoreState,
    group: GroupView,
    user: Seq<char>,
    x: nat,
    k: nat,
    c: nat,
    auth_id: Seq<char>,
    session_id: Seq<char>,
)
    requires
        valid_group(group.g, group.h, group.p, group.q),
        x < group.q,
        k < group.q,
        c < group.q,
    ensures
        ({
            let y = honest_public_values(group, x);
            let r = honest_public_values(group, k);
            let registered = register_outcome(st, group, user, y.0, y.1);
            let challenged = challenge_outcome(registered.0, group, user, r.0, r.1, c, auth_id);
            let answered = answer_outcome(
                challenged.0,
                group,
                auth_id,
                honest_response(group, x, k, c),
                session_id,
            );
            &&& registered.1 is Ok
            &&& challenged.1 == Ok::<Seq<u8>, AuthError>(encode_spec(c, group.width()))
            &&& answered.1 is Ok
            &&& answered.0.users.contains_key(user)
            &&& answered.0.users[user].session_id == session_id
        }),
{
    lemma_valid_group_is_well_formed(group);
    let p = group.p;
    let q = group.q;
    lemma_mod_bound(pow(group.g as int, x), p as int);
    lemma_mod_bound(pow(group.h as int, x), p as int);
    lemma_mod_bound(pow(group.g as int, k), p as int);
    lemma_mod_bound(pow(group.h as int, k), p as int);
    lemma_wire_round_trip(group, pow_mod(group.g, x, p));
    lemma_wire_round_trip(group, pow_mod(group.h, x, p));
    lemma_wire_round_trip(group, pow_mod(group.g, k, p));
    lemma_wire_round_trip(group, pow_mod(group.h, k, p));
    lemma_response_from_remainders(x, k, c, q);
    lemma_wire_round_trip(group, response(x, k, c, q));
    lemma_honest_response_accepted(group.g, group.h, p, q, x, k, c);
}

/// Challenge invalidation: once a second challenge has been issued to a
/// user, an answer is checked against the second challenge and its
/// commitments only. The response that an honest prover computed for the
/// first challenge `c1` and nonce `k1` is then refused as unauthenticated,
/// unless the two challenges happen to call for the same response, that is
/// unless `k1 + c2 * x` and `k2 + c1 * x` agree modulo `q`.
pub proof fn lemma_stale_answer_rejected(
    st: StoreState,
    group: GroupView,
    user: Seq<char>,
    x: nat,
    k1: nat,
    c1: nat,
    auth1: Seq<char>,
    k2: nat,
    c2: nat,
    auth2: Seq<char>,
    session_id: Seq<char>,
)
    requires
        valid_group(group.g, group.h, group.p, group.q),
        st.users.contains_key(user),
        st.users[user].y1 == pow_mod(group.g, x, group.p),
        st.users[user].y2 == pow_mod(group.h, x, group.p),
        x < group.q,
        k1 < group.q,
        c1 < group.q,
        k2 < group.q,
        c2 < group.q,
        (k1 + c2 * x) % group.q != (k2 + c1 * x) % group.q,
    ensures
        ({
            let first = honest_public_values(group, k1);
            let second = honest_public_values(group, k2);
            let once = challenge_outcome(st, group, user, first.0, first.1, c1, auth1).0;
            let twice = challenge_outcome(once, group, user, second.0, second.1, c2, auth2).0;
            answer_outcome(twice, group, auth1, honest_response(group, x, k1, c1), session_id) == (
                twice,
                Err::<(), AuthError>(AuthError::Unauthenticated),
            )
        }),
{
    lemma_valid_group_is_well_formed(group);
    let p = group.p;
    let q = group.q;
    let m = q as int;
    lemma_mod_bound(pow(group.g as int, k1), p as int);
    lemma_mod_bound(pow(group.h as int, k1), p as int);
    lemma_mod_bound(pow(group.g as int, k2), p as int);
    lemma_mod_bound(pow(group.h as int, k2), p as int);
    lemma_wire_round_trip(group, pow_mod(group.g, k1, p));
    lemma_wire_round_trip(group, pow_mod(group.h, k1, p));
    lemma_wire_round_trip(group, pow_mod(group.g, k2, p));
    lemma_wire_round_trip(group, pow_mod(group.h, k2, p));
    let s1 = response(x, k1, c1, q);
    lemma_response_from_remainders(x, k1, c1, q);
    lemma_wire_round_trip(group, s1);
    lemma_equation_holds_iff(group.g, p, q, x, k2, c2, s1);
    if (s1 + c2 * x) % q == k2 % q {
        let c1x: int = (c1 * x) as int;
        let c2x: int = (c2 * x) as int;
        lemma_small_mod(s1, q);
        lemma_add_mod_noop(s1 as int, c2x, m);
        lemma_add_mod_noop(k1 - c1x, c2x, m);
        assert((k1 - c1x + c2x) % m == (k2 as int) % m);
        lemma_mod_equivalence(k1 - c1x + c2x, k2 as int, m);
        lemma_mod_equivalence(k1 + c2x, k2 + c1x, m);
        assert(false);
    }
}


/// `DistString::sample_string` of `rand`'s `Alphanumeric` on
/// `rand::thread_rng()`: a string of [`TOKEN_LEN`] characters, each a letter
/// or a digit of ASCII. Which ones depends on the generator, so nothing more
/// is stated.
#[verifier::external_body]
fn random_token() -> (r: String)
    ensures
        is_token(r@),
{
    Alphanumeric.sample_string(&mut rand::thread_rng(), TOKEN_LEN)
}

} // verus!
