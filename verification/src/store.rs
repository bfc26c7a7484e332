//! The verifier's state: the registered users and the index of issued
//! challenges.
//!
//! The store is an owned value. Every operation is one step from a state to
//! the next, stated over [`StoreState`]; whoever shares a store between
//! threads guards it with a lock of their own.

use vstd::prelude::*;
use vstd::hash_map::StringHashMap;
use crate::bignum::BigNum;

verus! {

/// What the verifier knows of one user, as numbers.
pub ghost struct UserRecord {
    /// `g^x mod p`, set at registration.
    pub y1: nat,
    /// `h^x mod p`, set at registration.
    pub y2: nat,
    /// The prover's latest commitment `g^k mod p`.
    pub r1: nat,
    /// The prover's latest commitment `h^k mod p`.
    pub r2: nat,
    /// The latest challenge.
    pub c: nat,
    /// The session of the latest successful login; empty before the first.
    pub session_id: Seq<char>,
}

/// The state of the store: users by their id, and for each issued challenge
/// the user it was issued to.
pub ghost struct StoreState {
    pub users: Map<Seq<char>, UserRecord>,
    pub challenges: Map<Seq<char>, Seq<char>>,
}

impl StoreState {
    /// The store in which nobody is registered.
    pub open spec fn empty() -> StoreState {
        StoreState { users: Map::empty(), challenges: Map::empty() }
    }

    /// Insert-or-replace: `user` starts over with the public values `y1`,
    /// `y2`, no commitments, no challenge and no session.
    pub open spec fn register(self, user: Seq<char>, y1: nat, y2: nat) -> StoreState {
        StoreState {
            users: self.users.insert(
                user,
                UserRecord { y1, y2, r1: 0, r2: 0, c: 0, session_id: Seq::empty() },
            ),
            challenges: self.challenges,
        }
    }

    /// A new challenge for a registered `user` replaces the commitments and
    /// the challenge of any earlier one, and `auth_id` now leads to `user`.
    /// For an unknown user nothing changes.
    pub open spec fn begin_challenge(
        self,
        user: Seq<char>,
        r1: nat,
        r2: nat,
        c: nat,
        auth_id: Seq<char>,
    ) -> StoreState {
        if self.users.contains_key(user) {
            StoreState {
                users: self.users.insert(user, UserRecord { r1, r2, c, ..self.users[user] }),
                challenges: self.challenges.insert(auth_id, user),
            }
        } else {
            self
        }
    }

    /// The user that `auth_id` was issued to, with that user's record, where
    /// both are known.
    pub open spec fn pending(self, auth_id: Seq<char>) -> Option<(Seq<char>, UserRecord)> {
        if self.challenges.contains_key(auth_id) && self.users.contains_key(
            self.challenges[auth_id],
        ) {
            Some((self.challenges[auth_id], self.users[self.challenges[auth_id]]))
        } else {
            None
        }
    }

    /// A successful login overwrites the session of a registered `user`. For
    /// an unknown user nothing changes.
    pub open spec fn complete_session(self, user: Seq<char>, session_id: Seq<char>) -> StoreState {
        if self.users.contains_key(user) {
            StoreState {
                users: self.users.insert(user, UserRecord { session_id, ..self.users[user] }),
                challenges: self.challenges,
            }
        } else {
            self
        }
    }
}

/// Registrations of distinct users do not interfere: both are kept, and the
/// state after the two does not depend on their order.
pub proof fn lemma_registrations_commute(
    st: StoreState,
    a: Seq<char>,
    a1: nat,
    a2: nat,
    b: Seq<char>,
    b1: nat,
    b2: nat,
)
    requires
        a != b,
    ensures
        st.register(a, a1, a2).register(b, b1, b2) == st.register(b, b1, b2).register(a, a1, a2),
        st.register(a, a1, a2).register(b, b1, b2).users[a] == st.register(a, a1, a2).users[a],
        st.register(a, a1, a2).register(b, b1, b2).users[b] == st.register(b, b1, b2).users[b],
{
    let left = st.register(a, a1, a2).register(b, b1, b2);
    let right = st.register(b, b1, b2).register(a, a1, a2);
    assert(left.users =~= right.users);
}

/// What the verifier keeps of one user.
#[derive(Debug)]
pub struct UserInfo {
    pub y1: BigNum,
    pub y2: BigNum,
    pub r1: BigNum,
    pub r2: BigNum,
    pub c: BigNum,
    pub session_id: String,
}

impl View for UserInfo {
    type V = UserRecord;

    open spec fn view(&self) -> UserRecord {
        UserRecord {
            y1: self.y1@,
            y2: self.y2@,
            r1: self.r1@,
            r2: self.r2@,
            c: self.c@,
            session_id: self.session_id@,
        }
    }
}

impl Default for UserInfo {
    /// The record of a user of whom nothing is known yet: every number zero
    /// and no session.
    fn default() -> (r: Self)
        ensures
            r@ == (UserRecord { y1: 0, y2: 0, r1: 0, r2: 0, c: 0, session_id: Seq::empty() }),
    {
        UserInfo {
            y1: BigNum::zero(),
            y2: BigNum::zero(),
            r1: BigNum::zero(),
            r2: BigNum::zero(),
            c: BigNum::zero(),
            session_id: String::new(),
        }
    }
}

impl Clone for UserInfo {
    fn clone(&self) -> (r: Self)
        ensures
            r@ == self@,
    {
        UserInfo {
            y1: self.y1.clone(),
            y2: self.y2.clone(),
            r1: self.r1.clone(),
            r2: self.r2.clone(),
            c: self.c.clone(),
            session_id: self.session_id.clone(),
        }
    }
}

/// A lookup that found no record.
#[derive(Debug, Clone, Copy, PartialEq, Eq)]
pub struct NotFound;

/// The store of registered users and issued challenges.
pub struct AuthStore {
    user_info: StringHashMap<UserInfo>,
    auth_info: StringHashMap<String>,
}

impl View for AuthStore {
    type V = StoreState;

    closed spec fn view(&self) -> StoreState {
        StoreState {
            users: self.user_info@.map_values(|u: UserInfo| u@),
            challenges: self.auth_info@.map_values(|s: String| s@),
        }
    }
}

impl AuthStore {
    /// A store in which nobody is registered.
    pub fn new() -> (r: Self)
        ensures
            r@ == StoreState::empty(),
    {
        let r = AuthStore { user_info: StringHashMap::new(), auth_info: StringHashMap::new() };
        assert(r@.users =~= Map::empty());
        assert(r@.challenges =~= Map::empty());
        r
    }

    /// Registers `user_id` with its public values, replacing any earlier
    /// registration under that id. No other user's record changes.
    pub fn register(&mut self, user_id: String, y1: BigNum, y2: BigNum)
        ensures
            final(self)@ == old(self)@.register(user_id@, y1@, y2@),
    {
        let record = UserInfo {
            y1,
            y2,
            r1: BigNum::zero(),
            r2: BigNum::zero(),
            c: BigNum::zero(),
            session_id: String::new(),
        };
        self.user_info.insert(user_id, record);
        assert(self@.users =~= old(self)@.register(user_id@, y1@, y2@).users);
    }

    /// Whether `user_id` is registered.
    pub fn is_registered(&self, user_id: &str) -> (r: bool)
        ensures
            r == self@.users.contains_key(user_id@),
    {
        self.user_info.contains_key(user_id)
    }

    /// The record of `user_id`, if it is registered.
    pub fn user(&self, user_id: &str) -> (r: Option<&UserInfo>)
        ensures
            match r {
                Some(info) => self@.users.contains_key(user_id@) && info@ == self@.users[user_id@],
                None => !self@.users.contains_key(user_id@),
            },
    {
        self.user_info.get(user_id)
    }

    /// Records a new challenge for `user_id`: its commitments, the challenge
    /// `c`, and `auth_id` as the token that leads back to the user. Fails,
    /// changing nothing, if the user is not registered.
    pub fn begin_challenge(
        &mut self,
        user_id: String,
        r1: BigNum,
        r2: BigNum,
        c: BigNum,
        auth_id: String,
    ) -> (r: Result<(), NotFound>)
        ensures
            r is Ok <==> old(self)@.users.contains_key(user_id@),
            final(self)@ == old(self)@.begin_challenge(user_id@, r1@, r2@, c@, auth_id@),
    {
        let record = match self.user_info.get(user_id.as_str()) {
            Some(known) => UserInfo {
                y1: known.y1.clone(),
                y2: known.y2.clone(),
                r1,
                r2,
                c,
                session_id: known.session_id.clone(),
            },
            None => {
                return Err(NotFound);
            },
        };
        self.user_info.insert(user_id.clone(), record);
        self.auth_info.insert(auth_id, user_id);
        proof {
            let after = old(self)@.begin_challenge(user_id@, r1@, r2@, c@, auth_id@);
            assert(self@.users =~= after.users);
            assert(self@.challenges =~= after.challenges);
        }
        Ok(())
    }

    /// The user that `auth_id` was issued to, and a copy of that user's
    /// record. Fails if the token or the user is unknown.
    pub fn lookup_for_answer(&self, auth_id: &str) -> (r: Result<(String, UserInfo), NotFound>)
        ensures
            match r {
                Ok((user_id, info)) => self@.pending(auth_id@) == Some((user_id@, info@)),
                Err(_) => self@.pending(auth_id@) is None,
            },
    {
        let user_id: String = match self.auth_info.get(auth_id) {
            Some(id) => id.clone(),
            None => {
                return Err(NotFound);
            },
        };
        match self.user_info.get(user_id.as_str()) {
            Some(known) => Ok((user_id, known.clone())),
            None => Err(NotFound),
        }
    }

    /// Stores `session_id` as the session of `user_id`, over any earlier one.
    /// Fails, changing nothing, if the user is not registered.
    pub fn complete_session(&mut self, user_id: String, session_id: String) -> (r: Result<
        (),
        NotFound,
    >)
        ensures
            r is Ok <==> old(self)@.users.contains_key(user_id@),
            final(self)@ == old(self)@.complete_session(user_id@, session_id@),
    {
        let record = match self.user_info.get(user_id.as_str()) {
            Some(known) => UserInfo {
                y1: known.y1.clone(),
                y2: known.y2.clone(),
                r1: known.r1.clone(),
                r2: known.r2.clone(),
                c: known.c.clone(),
                session_id,
            },
            None => {
                return Err(NotFound);
            },
        };
        self.user_info.insert(user_id, record);
        proof {
            assert(self@.users =~= old(self)@.complete_session(user_id@, session_id@).users);
        }
        Ok(())
    }
}

} // verus!
