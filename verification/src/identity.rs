//! Participants and proposals, and the small integer codes under which the
//! registry files them in its hash maps.

use vstd::prelude::*;

verus! {

/// A participant of the registry.
#[derive(Clone, Copy, Debug, PartialEq, Eq, Hash, Structural)]
pub enum User {
    Alice,
    Bob,
    Charlie,
}

/// Something that seeks admission to the registry.
#[derive(Clone, Copy, Debug, PartialEq, Eq, Hash, Structural)]
pub enum Proposal {
    Prop1,
    Prop2,
    Prop3,
    Prop4,
}

impl User {
    /// The code under which this user is filed. Distinct users have distinct codes.
    pub open spec fn code(self) -> u8 {
        match self {
            User::Alice => 0,
            User::Bob => 1,
            User::Charlie => 2,
        }
    }

    /// Whether some user is filed under `c`.
    pub open spec fn is_code(c: u8) -> bool {
        c < 3
    }

    /// The user filed under `c`, where there is one.
    pub open spec fn of_code(c: u8) -> User {
        if c == 0 {
            User::Alice
        } else if c == 1 {
            User::Bob
        } else {
            User::Charlie
        }
    }

    /// The code under which this user is filed.
    pub fn encode(self) -> (c: u8)
        ensures
            c == self.code(),
    {
        match self {
            User::Alice => 0,
            User::Bob => 1,
            User::Charlie => 2,
        }
    }

    /// The user filed under `c`.
    pub fn decode(c: u8) -> (u: User)
        requires
            User::is_code(c),
        ensures
            u == User::of_code(c),
    {
        if c == 0 {
            User::Alice
        } else if c == 1 {
            User::Bob
        } else {
            User::Charlie
        }
    }

    /// `code` and `of_code` are inverse to each other on the codes in use.
    pub proof fn lemma_code_bijective()
        ensures
            forall|u: User|
                #![trigger u.code()]
                User::is_code(u.code()) && User::of_code(u.code()) == u,
            forall|c: u8|
                #![trigger User::of_code(c)]
                User::is_code(c) ==> User::of_code(c).code() == c,
    {
    }
}

impl Proposal {
    /// The code under which this proposal is filed. Distinct proposals have
    /// distinct codes.
    pub open spec fn code(self) -> u8 {
        match self {
            Proposal::Prop1 => 0,
            Proposal::Prop2 => 1,
            Proposal::Prop3 => 2,
            Proposal::Prop4 => 3,
        }
    }

    /// Whether some proposal is filed under `c`.
    pub open spec fn is_code(c: u8) -> bool {
        c < 4
    }

    /// The proposal filed under `c`, where there is one.
    pub open spec fn of_code(c: u8) -> Proposal {
        if c == 0 {
            Proposal::Prop1
        } else if c == 1 {
            Proposal::Prop2
        } else if c == 2 {
            Proposal::Prop3
        } else {
            Proposal::Prop4
        }
    }

    /// The code under which this proposal is filed.
    pub fn encode(self) -> (c: u8)
        ensures
            c == self.code(),
    {
        match self {
            Proposal::Prop1 => 0,
            Proposal::Prop2 => 1,
            Proposal::Prop3 => 2,
            Proposal::Prop4 => 3,
        }
    }

    /// `code` and `of_code` are inverse to each other on the codes in use.
    pub proof fn lemma_code_bijective()
        ensures
            forall|p: Proposal|
                #![trigger p.code()]
                Proposal::is_code(p.code()) && Proposal::of_code(p.code()) == p,
            forall|c: u8|
                #![trigger Proposal::of_code(c)]
                Proposal::is_code(c) ==> Proposal::of_code(c).code() == c,
    {
    }
}

} // verus!
