//! The fixed, totally ordered role set and its authority comparator.

use vstd::prelude::*;

use crate::errors::ApiError;
use crate::strutil::str_eq;

verus! {

/// One of the four roles of the closed hierarchy `[root, super, user,
/// visitor]`, most authoritative first. `Role::from` is the only supported
/// way to obtain one from untrusted text.
#[derive(Clone, Copy, PartialEq, Eq, Structural, Debug, Hash)]
pub enum Role {
    Root,
    Super,
    User,
    Visitor,
}

/// The role named by a string, if any: this closes the role set.
pub open spec fn role_of_str(s: Seq<char>) -> Option<Role> {
    if s == "root"@ {
        Some(Role::Root)
    } else if s == "super"@ {
        Some(Role::Super)
    } else if s == "user"@ {
        Some(Role::User)
    } else if s == "visitor"@ {
        Some(Role::Visitor)
    } else {
        None
    }
}

impl Role {
    /// Position in the hierarchy, most authoritative = 0.
    pub open spec fn rank(self) -> int {
        match self {
            Role::Root => 0,
            Role::Super => 1,
            Role::User => 2,
            Role::Visitor => 3,
        }
    }

    fn position(&self) -> (p: u8)
        ensures
            p as int == self.rank(),
    {
        match self {
            Role::Root => 0,
            Role::Super => 1,
            Role::User => 2,
            Role::Visitor => 3,
        }
    }

    /// Whether `compare` holds strictly more authority than `to`. The role
    /// set being closed, the lookup of a position can no longer fail, so the
    /// comparison always succeeds; the `Result` shape is kept for callers.
    pub fn superior_to(compare: &Role, to: &Role) -> (r: Result<bool, ApiError>)
        ensures
            r == Ok::<bool, ApiError>(compare.rank() < to.rank()),
    {
        Ok(compare.position() < to.position())
    }

    /// Parses a role name; any string outside the closed set is rejected.
    pub fn from(s: &str) -> (r: Result<Role, ApiError>)
        ensures
            r == (match role_of_str(s@) {
                Some(role) => Ok::<Role, ApiError>(role),
                None => Err::<Role, ApiError>(ApiError::Role),
            }),
    {
        if str_eq(s, "root") {
            Ok(Role::Root)
        } else if str_eq(s, "super") {
            Ok(Role::Super)
        } else if str_eq(s, "user") {
            Ok(Role::User)
        } else if str_eq(s, "visitor") {
            Ok(Role::Visitor)
        } else {
            Err(ApiError::Role)
        }
    }

    /// The canonical name of the role, the inverse of `Role::from`.
    pub fn name(&self) -> (s: String)
        ensures
            role_of_str(s@) == Some(*self),
    {
        proof {
            lemma_role_literals_distinct();
        }
        match self {
            Role::Root => String::from_str("root"),
            Role::Super => String::from_str("super"),
            Role::User => String::from_str("user"),
            Role::Visitor => String::from_str("visitor"),
        }
    }
}

/// The four role names differ pairwise, so `role_of_str` sends each to its
/// own role.
pub proof fn lemma_role_literals_distinct()
    ensures
        "root"@.len() == 4,
        "super"@.len() == 5,
        "user"@.len() == 4,
        "visitor"@.len() == 7,
        "root"@[0] == 'r',
        "user"@[0] == 'u',
        role_of_str("root"@) == Some(Role::Root),
        role_of_str("super"@) == Some(Role::Super),
        role_of_str("user"@) == Some(Role::User),
        role_of_str("visitor"@) == Some(Role::Visitor),
{
    reveal_strlit("root");
    reveal_strlit("super");
    reveal_strlit("user");
    reveal_strlit("visitor");
    assert("root"@.len() == 4);
    assert("super"@.len() == 5);
    assert("user"@.len() == 4);
    assert("visitor"@.len() == 7);
    assert("root"@[0] == 'r');
    assert("user"@[0] == 'u');
}

/// The authority comparison is a strict total order consistent with the list
/// `[root, super, user, visitor]`: irreflexive, asymmetric, transitive, and
/// total on distinct roles, with root above super above user above visitor.
pub proof fn lemma_superiority_strict_order(a: Role, b: Role, c: Role)
    ensures
        !(a.rank() < a.rank()),
        a.rank() < b.rank() ==> !(b.rank() < a.rank()),
        a.rank() < b.rank() && b.rank() < c.rank() ==> a.rank() < c.rank(),
        a != b ==> (a.rank() < b.rank() || b.rank() < a.rank()),
        Role::Root.rank() < Role::Super.rank(),
        Role::Super.rank() < Role::User.rank(),
        Role::User.rank() < Role::Visitor.rank(),
{
}

} // verus!
