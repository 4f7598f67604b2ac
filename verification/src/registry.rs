//! The server-side liveness registry: a signed token is authoritative only
//! while a record with its `jti` stands here. Registration keeps tokens
//! alive, deletion revokes them, and the `needs_refresh` flag drives lazy
//! rotation.

use vstd::prelude::*;

use crate::errors::ApiError;
use crate::strutil::str_eq;

verus! {

/// One live-token row, keyed by `jti`.
#[derive(Debug, PartialEq)]
pub struct TokenRecord {
    pub jti: String,
    pub user_id: i32,
    pub needs_refresh: bool,
}

/// The allow-list of live tokens. Absence of a `jti` means the token is
/// dead even if its signature and expiry are otherwise valid.
#[derive(Debug, PartialEq)]
pub struct TokenRegistry {
    pub records: Vec<TokenRecord>,
}

impl TokenRegistry {
    /// Well-formed: one record per `jti`.
    pub open spec fn wf(self) -> bool {
        forall|i: int, j: int|
            0 <= i < j < self.records@.len() ==> self.records@[i].jti@ != self.records@[j].jti@
    }

    /// Whether a record with this `jti` is live.
    pub open spec fn contains_jti(self, jti: Seq<char>) -> bool {
        exists|i: int| 0 <= i < self.records@.len() && self.records@[i].jti@ == jti
    }

    /// Index of the record with this `jti` (meaningful under `wf` and
    /// `contains_jti`).
    pub open spec fn idx_of(self, jti: Seq<char>) -> int {
        choose|i: int| 0 <= i < self.records@.len() && self.records@[i].jti@ == jti
    }

    /// The user owning the live token.
    pub open spec fn owner_of(self, jti: Seq<char>) -> int
        recommends
            self.contains_jti(jti),
    {
        self.records@[self.idx_of(jti)].user_id as int
    }

    /// Whether the live token is marked for rotation.
    pub open spec fn flagged(self, jti: Seq<char>) -> bool
        recommends
            self.contains_jti(jti),
    {
        self.records@[self.idx_of(jti)].needs_refresh
    }

    /// Under `wf`, an index holding `jti` is the one `idx_of` denotes.
    pub proof fn lemma_found(self, i: int, jti: Seq<char>)
        requires
            self.wf(),
            0 <= i < self.records@.len(),
            self.records@[i].jti@ == jti,
        ensures
            self.contains_jti(jti),
            self.idx_of(jti) == i,
    {
        assert(self.contains_jti(jti));
        let w = self.idx_of(jti);
        assert(0 <= w < self.records@.len() && self.records@[w].jti@ == jti);
        if w != i {
            if w < i {
                assert(self.records@[w].jti@ != self.records@[i].jti@);
            } else {
                assert(self.records@[i].jti@ != self.records@[w].jti@);
            }
        }
    }

    pub fn new() -> (r: TokenRegistry)
        ensures
            r.wf(),
            r.records@.len() == 0,
            forall|s: Seq<char>| !r.contains_jti(s),
    {
        TokenRegistry { records: Vec::new() }
    }

    /// Index of the record holding `jti`, if any.
    fn find(&self, jti: &str) -> (r: Option<usize>)
        ensures
            match r {
                Some(i) => i < self.records@.len() && self.records@[i as int].jti@ == jti@,
                None => !self.contains_jti(jti@),
            },
    {
        let n = self.records.len();
        let mut i: usize = 0;
        while i < n
            invariant
                n == self.records@.len(),
                i <= n,
                forall|k: int| 0 <= k < i ==> self.records@[k].jti@ != jti@,
            decreases n - i,
        {
            if str_eq(self.records[i].jti.as_str(), jti) {
                return Some(i);
            }
            i += 1;
        }
        None
    }

    /// Liveness check: exactly one matching record exists in a well-formed
    /// registry, and this reports whether there is one.
    pub fn is_valid_jti(&self, jti: &str) -> (b: bool)
        requires
            self.wf(),
        ensures
            b == self.contains_jti(jti@),
    {
        match self.find(jti) {
            Some(i) => {
                proof {
                    self.lemma_found(i as int, jti@);
                }
                true
            },
            None => false,
        }
    }

    /// Whether the live token with `jti` is marked for rotation; a dead
    /// `jti` reports `false`, as a row count of zero would.
    pub fn is_flagged(&self, jti: &str) -> (b: bool)
        requires
            self.wf(),
        ensures
            b == (self.contains_jti(jti@) && self.flagged(jti@)),
    {
        match self.find(jti) {
            Some(i) => {
                proof {
                    self.lemma_found(i as int, jti@);
                }
                self.records[i].needs_refresh
            },
            None => false,
        }
    }

    /// Inserts a fresh live record, unflagged. A duplicate `jti` is the
    /// uniqueness violation the store reported as an internal error.
    pub fn register(&mut self, jti: &str, user_id: i32) -> (r: Result<(), ApiError>)
        requires
            old(self).wf(),
        ensures
            final(self).wf(),
            old(self).contains_jti(jti@) ==> r == Err::<(), ApiError>(ApiError::Internal)
                && *final(self) == *old(self),
            !old(self).contains_jti(jti@) ==> {
                &&& r == Ok::<(), ApiError>(())
                &&& final(self).contains_jti(jti@)
                &&& final(self).owner_of(jti@) == user_id as int
                &&& !final(self).flagged(jti@)
                &&& forall|x: Seq<char>| x != jti@ ==>
                    final(self).contains_jti(x) == old(self).contains_jti(x)
                &&& forall|x: Seq<char>| x != jti@ && old(self).contains_jti(x) ==>
                    final(self).owner_of(x) == old(self).owner_of(x)
                    && final(self).flagged(x) == old(self).flagged(x)
            },
    {
        match self.find(jti) {
            Some(i) => {
                proof {
                    self.lemma_found(i as int, jti@);
                }
                Err(ApiError::Internal)
            },
            None => {
                let ghost oldself = *self;
                let rec = TokenRecord {
                    jti: String::from_str(jti),
                    user_id,
                    needs_refresh: false,
                };
                self.records.push(rec);
                proof {
                    let n = oldself.records@.len() as int;
                    assert forall|i: int, j: int|
                        0 <= i < j < self.records@.len() implies
                        self.records@[i].jti@ != self.records@[j].jti@ by {
                        if j < n {
                            assert(oldself.records@[i].jti@ != oldself.records@[j].jti@);
                        } else {
                            assert(self.records@[j].jti@ == jti@);
                            if oldself.records@[i].jti@ == jti@ {
                                assert(oldself.contains_jti(jti@));
                            }
                        }
                    }
                    self.lemma_found(n, jti@);
                    assert forall|x: Seq<char>| x != jti@ implies
                        self.contains_jti(x) == oldself.contains_jti(x) by {
                        if oldself.contains_jti(x) {
                            let w = oldself.idx_of(x);
                            assert(0 <= w < oldself.records@.len()
                                && oldself.records@[w].jti@ == x);
                            assert(self.records@[w].jti@ == x);
                            assert(self.contains_jti(x));
                        }
                        if self.contains_jti(x) {
                            let w = choose|i: int|
                                0 <= i < self.records@.len() && self.records@[i].jti@ == x;
                            assert(w != n);
                            assert(oldself.records@[w].jti@ == x);
                            assert(oldself.contains_jti(x));
                        }
                    }
                    assert forall|x: Seq<char>| x != jti@ && oldself.contains_jti(x) implies
                        self.owner_of(x) == oldself.owner_of(x)
                        && self.flagged(x) == oldself.flagged(x) by {
                        let w = oldself.idx_of(x);
                        assert(0 <= w < oldself.records@.len() && oldself.records@[w].jti@ == x);
                        self.lemma_found(w, x);
                    }
                }
                Ok(())
            },
        }
    }

    /// Revokes one `jti`: afterwards it is dead whatever time remains on
    /// the signed token; every other record is untouched. Deleting an
    /// absent `jti` succeeds and changes nothing, as the store's delete
    /// did.
    pub fn delete(&mut self, jti: &str) -> (r: Result<(), ApiError>)
        requires
            old(self).wf(),
        ensures
            final(self).wf(),
            r == Ok::<(), ApiError>(()),
            !final(self).contains_jti(jti@),
            forall|x: Seq<char>| x != jti@ ==>
                final(self).contains_jti(x) == old(self).contains_jti(x),
            forall|x: Seq<char>| x != jti@ && old(self).contains_jti(x) ==>
                final(self).owner_of(x) == old(self).owner_of(x)
                && final(self).flagged(x) == old(self).flagged(x),
    {
        let ghost oldself = *self;
        match self.find(jti) {
            Some(i) => {
                self.records.remove(i);
                proof {
                    let n = oldself.records@.len() as int;
                    let ii = i as int;
                    assert(self.records@ =~= oldself.records@.subrange(0, ii)
                        + oldself.records@.subrange(ii + 1, n));
                    assert forall|a: int, b: int|
                        0 <= a < b < self.records@.len() implies
                        self.records@[a].jti@ != self.records@[b].jti@ by {
                        let oa = if a < ii { a } else { a + 1 };
                        let ob = if b < ii { b } else { b + 1 };
                        assert(self.records@[a] == oldself.records@[oa]);
                        assert(self.records@[b] == oldself.records@[ob]);
                        assert(oldself.records@[oa].jti@ != oldself.records@[ob].jti@);
                    }
                    assert forall|w: int| 0 <= w < self.records@.len() implies
                        self.records@[w].jti@ != jti@ by {
                        let ow = if w < ii { w } else { w + 1 };
                        assert(self.records@[w] == oldself.records@[ow]);
                        if ow != ii {
                            oldself.lemma_found(ii, jti@);
                            if oldself.records@[ow].jti@ == jti@ {
                                oldself.lemma_found(ow, jti@);
                            }
                        }
                    }
                    assert forall|x: Seq<char>| x != jti@ implies
                        self.contains_jti(x) == oldself.contains_jti(x) by {
                        if oldself.contains_jti(x) {
                            let w = oldself.idx_of(x);
                            assert(0 <= w < n && oldself.records@[w].jti@ == x);
                            assert(w != ii);
                            let nw = if w < ii { w } else { w - 1 };
                            assert(self.records@[nw] == oldself.records@[w]);
                            assert(self.contains_jti(x));
                        }
                        if self.contains_jti(x) {
                            let w = choose|k: int|
                                0 <= k < self.records@.len() && self.records@[k].jti@ == x;
                            let ow = if w < ii { w } else { w + 1 };
                            assert(self.records@[w] == oldself.records@[ow]);
                            assert(oldself.contains_jti(x));
                        }
                    }
                    assert forall|x: Seq<char>| x != jti@ && oldself.contains_jti(x) implies
                        self.owner_of(x) == oldself.owner_of(x)
                        && self.flagged(x) == oldself.flagged(x) by {
                        let w = oldself.idx_of(x);
                        oldself.lemma_found(w, x);
                        assert(0 <= w < n && oldself.records@[w].jti@ == x);
                        assert(w != ii);
                        let nw = if w < ii { w } else { w - 1 };
                        assert(self.records@[nw] == oldself.records@[w]);
                        self.lemma_found(nw, x);
                    }
                }
                Ok(())
            },
            None => Ok(()),
        }
    }

    /// Marks every live token of `user_id` as needing rotation: the next
    /// authenticated request of that user is transparently upgraded.
    pub fn set_refresh_for_user(&mut self, user_id: i32) -> (r: Result<(), ApiError>)
        requires
            old(self).wf(),
        ensures
            final(self).wf(),
            r == Ok::<(), ApiError>(()),
            final(self).records@.len() == old(self).records@.len(),
            forall|x: Seq<char>|
                final(self).contains_jti(x) == old(self).contains_jti(x),
            forall|x: Seq<char>| old(self).contains_jti(x) ==>
                final(self).owner_of(x) == old(self).owner_of(x)
                && final(self).flagged(x) == (old(self).flagged(x)
                    || old(self).owner_of(x) == user_id as int),
    {
        let ghost oldself = *self;
        let n = self.records.len();
        let mut i: usize = 0;
        while i < n
            invariant
                n == self.records@.len(),
                n == oldself.records@.len(),
                i <= n,
                forall|k: int| 0 <= k < n ==> self.records@[k].jti@ == oldself.records@[k].jti@
                    && self.records@[k].user_id == oldself.records@[k].user_id,
                forall|k: int| 0 <= k < i ==> self.records@[k].needs_refresh
                    == (oldself.records@[k].needs_refresh
                        || oldself.records@[k].user_id == user_id),
                forall|k: int| i <= k < n ==> self.records@[k].needs_refresh
                    == oldself.records@[k].needs_refresh,
            decreases n - i,
        {
            if self.records[i].user_id == user_id {
                let jti = self.records[i].jti.clone();
                self.records.set(i, TokenRecord { jti, user_id, needs_refresh: true });
            }
            i += 1;
        }
        proof {
            assert forall|a: int, b: int| 0 <= a < b < self.records@.len() implies
                self.records@[a].jti@ != self.records@[b].jti@ by {
                assert(oldself.records@[a].jti@ != oldself.records@[b].jti@);
            }
            assert forall|x: Seq<char>|
                self.contains_jti(x) == oldself.contains_jti(x) by {
                if oldself.contains_jti(x) {
                    let w = oldself.idx_of(x);
                    assert(self.records@[w].jti@ == x);
                    assert(self.contains_jti(x));
                }
                if self.contains_jti(x) {
                    let w = choose|k: int|
                        0 <= k < self.records@.len() && self.records@[k].jti@ == x;
                    assert(oldself.records@[w].jti@ == x);
                    assert(oldself.contains_jti(x));
                }
            }
            assert forall|x: Seq<char>| oldself.contains_jti(x) implies
                self.owner_of(x) == oldself.owner_of(x)
                && self.flagged(x) == (oldself.flagged(x)
                    || oldself.owner_of(x) == user_id as int) by {
                let w = oldself.idx_of(x);
                oldself.lemma_found(w, x);
                assert(self.records@[w].jti@ == x);
                self.lemma_found(w, x);
            }
        }
        Ok(())
    }

    /// Index of some record owned by `user_id`, if one remains.
    fn find_by_user(&self, user_id: i32) -> (r: Option<usize>)
        ensures
            match r {
                Some(i) => i < self.records@.len()
                    && self.records@[i as int].user_id == user_id,
                None => forall|k: int| 0 <= k < self.records@.len()
                    ==> self.records@[k].user_id != user_id,
            },
    {
        let n = self.records.len();
        let mut i: usize = 0;
        while i < n
            invariant
                n == self.records@.len(),
                i <= n,
                forall|k: int| 0 <= k < i ==> self.records@[k].user_id != user_id,
            decreases n - i,
        {
            if self.records[i].user_id == user_id {
                return Some(i);
            }
            i += 1;
        }
        None
    }

    /// Revokes every live token of `user_id`: any previously issued token
    /// of that user fails validation permanently. Other users' records are
    /// untouched.
    pub fn purge_user(&mut self, user_id: i32) -> (r: Result<(), ApiError>)
        requires
            old(self).wf(),
        ensures
            final(self).wf(),
            r == Ok::<(), ApiError>(()),
            forall|x: Seq<char>| final(self).contains_jti(x)
                == (old(self).contains_jti(x) && old(self).owner_of(x) != user_id as int),
            forall|x: Seq<char>| final(self).contains_jti(x) ==>
                final(self).owner_of(x) == old(self).owner_of(x)
                && final(self).flagged(x) == old(self).flagged(x),
    {
        let ghost oldself = *self;
        loop
            invariant
                oldself == *old(self),
                self.wf(),
                forall|x: Seq<char>| #[trigger] self.contains_jti(x) ==>
                    oldself.contains_jti(x)
                    && self.owner_of(x) == oldself.owner_of(x)
                    && self.flagged(x) == oldself.flagged(x),
                forall|x: Seq<char>|
                    (#[trigger] oldself.contains_jti(x) && oldself.owner_of(x) != user_id as int)
                    ==> self.contains_jti(x),
            decreases self.records@.len(),
        {
            let ghost prev = *self;
            match self.find_by_user(user_id) {
                Some(i) => {
                    self.records.remove(i);
                    proof {
                        let n = prev.records@.len() as int;
                        let ii = i as int;
                        assert(self.records@ =~= prev.records@.subrange(0, ii)
                            + prev.records@.subrange(ii + 1, n));
                        assert forall|a: int, b: int|
                            0 <= a < b < self.records@.len() implies
                            self.records@[a].jti@ != self.records@[b].jti@ by {
                            let oa = if a < ii { a } else { a + 1 };
                            let ob = if b < ii { b } else { b + 1 };
                            assert(self.records@[a] == prev.records@[oa]);
                            assert(self.records@[b] == prev.records@[ob]);
                            assert(prev.records@[oa].jti@ != prev.records@[ob].jti@);
                        }
                        assert forall|x: Seq<char>| self.contains_jti(x) implies
                            oldself.contains_jti(x)
                            && self.owner_of(x) == oldself.owner_of(x)
                            && self.flagged(x) == oldself.flagged(x) by {
                            let w = choose|k: int|
                                0 <= k < self.records@.len() && self.records@[k].jti@ == x;
                            let ow = if w < ii { w } else { w + 1 };
                            assert(self.records@[w] == prev.records@[ow]);
                            prev.lemma_found(ow, x);
                            self.lemma_found(w, x);
                            assert(prev.contains_jti(x));
                            assert(prev.owner_of(x) == oldself.owner_of(x));
                        }
                        assert forall|x: Seq<char>|
                            (oldself.contains_jti(x) && oldself.owner_of(x) != user_id as int)
                            implies self.contains_jti(x) by {
                            assert(prev.contains_jti(x));
                            let w = prev.idx_of(x);
                            prev.lemma_found(w, x);
                            assert(prev.owner_of(x) == oldself.owner_of(x));
                            assert(prev.records@[w].user_id != user_id);
                            assert(w != ii);
                            let nw = if w < ii { w } else { w - 1 };
                            assert(self.records@[nw] == prev.records@[w]);
                            assert(self.contains_jti(x));
                        }
                    }
                },
                None => {
                    proof {
                        assert forall|x: Seq<char>| #[trigger] self.contains_jti(x)
                            == (oldself.contains_jti(x)
                                && oldself.owner_of(x) != user_id as int) by {
                            if self.contains_jti(x) {
                                let w = self.idx_of(x);
                                self.lemma_found(w, x);
                                assert(self.records@[w].user_id != user_id);
                                assert(self.owner_of(x) != user_id as int);
                                assert(oldself.contains_jti(x));
                                assert(oldself.owner_of(x) != user_id as int);
                            }
                            if oldself.contains_jti(x)
                                && oldself.owner_of(x) != user_id as int {
                                assert(self.contains_jti(x));
                            }
                        }
                    }
                    return Ok(());
                },
            }
        }
    }
}

} // verus!
