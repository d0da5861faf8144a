//! A jukebox table: a shared listening session with a FIFO queue, a
//! currently playing track, a membership set, an admin index, and a
//! per-track skip-vote ballot.
//!
//! The per-table state machine has two states: idle (no current track)
//! and playing. Enqueueing never promotes idle to playing by itself;
//! only an explicit queue advance does.

use vstd::prelude::*;

use crate::records::TableMembership;

verus! {

/// A shared listening session.
#[derive(Debug, PartialEq, Eq)]
pub struct JukeboxTable {
    pub table_id: u64,
    pub name: String,
    pub owner: u64,
    /// What plays now; `None` when the table is idle.
    pub current_track: Option<u64>,
    /// Track identifiers waiting to play, in request order.
    pub queue: Vec<u64>,
    /// The members who voted to skip the current track. A set: each
    /// voter appears at most once, so repeat votes change nothing.
    pub skip_votes: Vec<u64>,
    /// Absolute number of votes that advances the queue.
    pub skip_threshold: u32,
    /// Basis points; 10000 is 1.0x.
    pub price_multiplier: u32,
    /// Equals the number of membership records of this table.
    pub member_count: u32,
    pub is_active: bool,
    /// One record per member.
    pub members: Vec<TableMembership>,
    /// The members holding table-admin rights.
    pub admins: Vec<u64>,
}

/// No identifier appears twice.
pub open spec fn unique_ids(s: Seq<u64>) -> bool {
    forall|i: int, j: int| 0 <= i < j < s.len() ==> #[trigger] s[i] != #[trigger] s[j]
}

/// No member has two membership records.
pub open spec fn unique_members(s: Seq<TableMembership>) -> bool {
    forall|i: int, j: int|
        0 <= i < j < s.len() ==> (#[trigger] s[i]).member != (#[trigger] s[j]).member
}

/// Whether `u` has a membership record in `s`.
pub open spec fn has_member(s: Seq<TableMembership>, u: u64) -> bool {
    exists|i: int| 0 <= i < s.len() && (#[trigger] s[i]).member == u
}

/// The index of `u`'s membership record.
pub open spec fn member_at(s: Seq<TableMembership>, u: u64) -> int {
    choose|i: int| 0 <= i < s.len() && (#[trigger] s[i]).member == u
}

/// `u`'s membership record, if any.
pub open spec fn member_rec(s: Seq<TableMembership>, u: u64) -> Option<TableMembership> {
    if has_member(s, u) {
        Some(s[member_at(s, u)])
    } else {
        None
    }
}

/// The ballot after `u` casts a skip vote: unchanged when `u` already
/// voted, else `u` is appended.
pub open spec fn cast_vote(votes: Seq<u64>, u: u64) -> Seq<u64> {
    if votes.contains(u) {
        votes
    } else {
        votes.push(u)
    }
}

/// A well-formed table: membership, admin, and ballot sets hold no
/// duplicates, the member count matches the membership records, and an
/// idle table has an empty ballot.
pub open spec fn table_wf(t: JukeboxTable) -> bool {
    &&& unique_members(t.members@)
    &&& unique_ids(t.admins@)
    &&& unique_ids(t.skip_votes@)
    &&& t.member_count == t.members@.len()
    &&& t.current_track is None ==> t.skip_votes@.len() == 0
}

/// The index of `x` in `s`.
pub open spec fn id_at(s: Seq<u64>, x: u64) -> int {
    choose|i: int| 0 <= i < s.len() && s[i] == x
}

/// The identifiers of a table did not change.
pub open spec fn same_table_config(pre: JukeboxTable, post: JukeboxTable) -> bool {
    &&& post.table_id == pre.table_id
    &&& post.name == pre.name
    &&& post.owner == pre.owner
    &&& post.skip_threshold == pre.skip_threshold
    &&& post.price_multiplier == pre.price_multiplier
}

/// The playing state of a table did not change.
pub open spec fn same_table_session(pre: JukeboxTable, post: JukeboxTable) -> bool {
    &&& post.current_track == pre.current_track
    &&& post.queue@ == pre.queue@
    &&& post.skip_votes@ == pre.skip_votes@
}

/// The membership and admin sets of a table did not change.
pub open spec fn same_table_members(pre: JukeboxTable, post: JukeboxTable) -> bool {
    &&& post.member_count == pre.member_count
    &&& post.members@ == pre.members@
    &&& post.admins@ == pre.admins@
}

/// Adds `x` to a duplicate-free identifier set; present already, nothing
/// changes.
pub fn insert_id(v: &mut Vec<u64>, x: u64)
    requires
        unique_ids(old(v)@),
    ensures
        unique_ids(final(v)@),
        old(v)@.contains(x) ==> final(v)@ == old(v)@,
        !old(v)@.contains(x) ==> final(v)@ == old(v)@.push(x),
        final(v)@.contains(x),
        forall|y: u64| y != x ==> final(v)@.contains(y) == old(v)@.contains(y),
{
    if !contains_id(v, x) {
        v.push(x);
        proof {
            let s = old(v)@;
            assert forall|i: int, j: int|
                0 <= i < j < s.push(x).len() implies #[trigger] s.push(x)[i] != #[trigger] s.push(
                x,
            )[j] by {
                if j == s.len() {
                    assert(!s.contains(x));
                    assert(s.push(x)[i] == s[i]);
                }
            }
            assert(s.push(x)[s.len() as int] == x);
            assert forall|y: u64| y != x && s.contains(y) implies s.push(x).contains(
                y,
            ) by {
                let i = choose|i: int| 0 <= i < s.len() && s[i] == y;
                assert(s.push(x)[i] == y);
            }
            assert forall|y: u64| y != x && s.push(x).contains(y) implies s.contains(y) by {
                let i = choose|i: int| 0 <= i < s.push(x).len() && s.push(x)[i] == y;
                assert(i < s.len());
                assert(s[i] == y);
            }
        }
    }
}

/// Removes `x` from a duplicate-free identifier set; absent, nothing
/// changes.
pub fn remove_id(v: &mut Vec<u64>, x: u64)
    requires
        unique_ids(old(v)@),
    ensures
        unique_ids(final(v)@),
        old(v)@.contains(x) ==> final(v)@ == old(v)@.remove(id_at(old(v)@, x)),
        !old(v)@.contains(x) ==> final(v)@ == old(v)@,
        !final(v)@.contains(x),
        forall|y: u64| y != x ==> final(v)@.contains(y) == old(v)@.contains(y),
{
    let mut i: usize = 0;
    while i < v.len()
        invariant
            i <= v@.len(),
            v@ == old(v)@,
            unique_ids(v@),
            forall|k: int| 0 <= k < i ==> v@[k] != x,
        decreases v@.len() - i,
    {
        if v[i] == x {
            let ghost s = v@;
            v.remove(i);
            proof {
                assert(s[i as int] == x);
                assert(s.contains(x));
                let k = id_at(s, x);
                assert(0 <= k < s.len() && s[k] == x);
                if k != i as int {
                    if k < i as int {
                        assert(s[k] != s[i as int]);
                    } else {
                        assert(s[i as int] != s[k]);
                    }
                    assert(false);
                }
                lemma_remove_keeps_rest(s, i as int);
            }
            return;
        }
        i = i + 1;
    }
    proof {
        let s = v@;
        if s.contains(x) {
            let k = choose|k: int| 0 <= k < s.len() && s[k] == x;
            assert(s[k] != x);
        }
    }
}

/// Removing one position from a duplicate-free sequence keeps it
/// duplicate-free, drops the removed value, and keeps every other value.
pub proof fn lemma_remove_keeps_rest(s: Seq<u64>, k: int)
    requires
        unique_ids(s),
        0 <= k < s.len(),
    ensures
        unique_ids(s.remove(k)),
        !s.remove(k).contains(s[k]),
        forall|y: u64| y != s[k] ==> s.remove(k).contains(y) == s.contains(y),
{
    let t = s.remove(k);
    s.remove_ensures(k);
    assert forall|i: int, j: int| 0 <= i < j < t.len() implies #[trigger] t[i] != #[trigger] t[j] by {
        let io: int = if i < k { i } else { i + 1 };
        let jo: int = if j < k { j } else { j + 1 };
        assert(t[i] == s[io]);
        assert(t[j] == s[jo]);
    }
    assert forall|i: int| 0 <= i < t.len() implies t[i] != s[k] by {
        let io: int = if i < k { i } else { i + 1 };
        assert(t[i] == s[io]);
    }
    assert forall|y: u64| y != s[k] && s.contains(y) implies t.contains(y) by {
        let io = choose|io: int| 0 <= io < s.len() && s[io] == y;
        if io < k {
            assert(t[io] == y);
        } else {
            assert(t[io - 1] == y);
        }
    }
    assert forall|y: u64| t.contains(y) implies s.contains(y) by {
        let i = choose|i: int| 0 <= i < t.len() && t[i] == y;
        let io: int = if i < k { i } else { i + 1 };
        assert(s[io] == y);
    }
}

/// Replacing the record at the index where a member already stands keeps
/// the records duplicate-free and leaves every other member's record as
/// it was.
pub proof fn lemma_upsert_rec(s: Seq<TableMembership>, i: int, rec: TableMembership)
    requires
        unique_members(s),
        0 <= i < s.len(),
        s[i].member == rec.member,
    ensures
        unique_members(s.update(i, rec)),
        member_rec(s.update(i, rec), rec.member) == Some(rec),
        forall|v: u64|
            v != rec.member ==> member_rec(s.update(i, rec), v) == member_rec(s, v),
{
    let t = s.update(i, rec);
    assert forall|a: int, b: int|
        0 <= a < b < t.len() implies (#[trigger] t[a]).member != (#[trigger] t[b]).member by {
        assert(s[a].member != s[b].member);
        assert(t[a].member == s[a].member);
        assert(t[b].member == s[b].member);
    }
    assert(t[i].member == rec.member);
    assert(has_member(t, rec.member));
    let j = member_at(t, rec.member);
    assert(0 <= j < t.len() && t[j].member == rec.member);
    if j != i {
        if j < i {
            assert(s[j].member != s[i].member);
        } else {
            assert(s[i].member != s[j].member);
        }
        assert(t[j].member == s[j].member);
        assert(false);
    }
    assert forall|v: u64| v != rec.member implies member_rec(t, v) == member_rec(s, v) by {
        if has_member(s, v) {
            let k = member_at(s, v);
            assert(0 <= k < s.len() && s[k].member == v);
            assert(k != i);
            assert(t[k] == s[k]);
            assert(has_member(t, v));
            let k2 = member_at(t, v);
            assert(0 <= k2 < t.len() && t[k2].member == v);
            assert(k2 != i);
            assert(t[k2] == s[k2]);
            if k2 != k {
                if k < k2 {
                    assert(s[k].member != s[k2].member);
                } else {
                    assert(s[k2].member != s[k].member);
                }
                assert(false);
            }
        } else {
            if has_member(t, v) {
                let k2 = member_at(t, v);
                assert(0 <= k2 < t.len() && t[k2].member == v);
                assert(k2 != i);
                assert(s[k2].member == v);
                assert(false);
            }
        }
    }
}

/// Appending a record for a member without one keeps the records
/// duplicate-free and leaves every other member's record as it was.
pub proof fn lemma_push_rec(s: Seq<TableMembership>, rec: TableMembership)
    requires
        unique_members(s),
        !has_member(s, rec.member),
    ensures
        unique_members(s.push(rec)),
        member_rec(s.push(rec), rec.member) == Some(rec),
        forall|v: u64| v != rec.member ==> member_rec(s.push(rec), v) == member_rec(s, v),
{
    let t = s.push(rec);
    assert forall|a: int, b: int|
        0 <= a < b < t.len() implies (#[trigger] t[a]).member != (#[trigger] t[b]).member by {
        if b == s.len() {
            assert(t[a] == s[a]);
            if s[a].member == rec.member {
                assert(has_member(s, rec.member));
            }
        } else {
            assert(t[a] == s[a]);
            assert(t[b] == s[b]);
            assert(s[a].member != s[b].member);
        }
    }
    assert(t[s.len() as int] == rec);
    assert(has_member(t, rec.member));
    let j = member_at(t, rec.member);
    assert(0 <= j < t.len() && t[j].member == rec.member);
    if j != s.len() as int {
        assert(t[j] == s[j]);
        assert(has_member(s, rec.member));
        assert(false);
    }
    assert forall|v: u64| v != rec.member implies member_rec(t, v) == member_rec(s, v) by {
        if has_member(s, v) {
            let k = member_at(s, v);
            assert(0 <= k < s.len() && s[k].member == v);
            assert(t[k] == s[k]);
            assert(has_member(t, v));
            let k2 = member_at(t, v);
            assert(0 <= k2 < t.len() && t[k2].member == v);
            assert(k2 != s.len() as int);
            assert(t[k2] == s[k2]);
            if k2 != k {
                if k < k2 {
                    assert(s[k].member != s[k2].member);
                } else {
                    assert(s[k2].member != s[k].member);
                }
                assert(false);
            }
        } else {
            if has_member(t, v) {
                let k2 = member_at(t, v);
                assert(0 <= k2 < t.len() && t[k2].member == v);
                assert(k2 != s.len() as int);
                assert(s[k2].member == v);
                assert(false);
            }
        }
    }
}

/// Deleting one record keeps the rest duplicate-free, with the removed
/// member gone and every other member's record as it was.
pub proof fn lemma_remove_rec(s: Seq<TableMembership>, i: int)
    requires
        unique_members(s),
        0 <= i < s.len(),
    ensures
        unique_members(s.remove(i)),
        member_at(s, s[i].member) == i,
        !has_member(s.remove(i), s[i].member),
        forall|v: u64| v != s[i].member ==> member_rec(s.remove(i), v) == member_rec(s, v),
{
    let t = s.remove(i);
    let m = s[i].member;
    s.remove_ensures(i);
    assert(has_member(s, m));
    let j0 = member_at(s, m);
    if j0 != i {
        if j0 < i {
            assert(s[j0].member != s[i].member);
        } else {
            assert(s[i].member != s[j0].member);
        }
        assert(false);
    }
    assert forall|a: int, b: int|
        0 <= a < b < t.len() implies (#[trigger] t[a]).member != (#[trigger] t[b]).member by {
        let ao: int = if a < i { a } else { a + 1 };
        let bo: int = if b < i { b } else { b + 1 };
        assert(t[a] == s[ao]);
        assert(t[b] == s[bo]);
        assert(s[ao].member != s[bo].member);
    }
    assert forall|a: int| 0 <= a < t.len() implies (#[trigger] t[a]).member != m by {
        let ao: int = if a < i { a } else { a + 1 };
        assert(t[a] == s[ao]);
        if ao < i {
            assert(s[ao].member != s[i].member);
        } else {
            assert(s[i].member != s[ao].member);
        }
    }
    assert forall|v: u64| v != m implies member_rec(t, v) == member_rec(s, v) by {
        if has_member(s, v) {
            let k = member_at(s, v);
            assert(0 <= k < s.len() && s[k].member == v);
            assert(k != i);
            let kn: int = if k < i { k } else { k - 1 };
            assert(t[kn] == s[k]);
            assert(has_member(t, v));
            let k2 = member_at(t, v);
            assert(0 <= k2 < t.len() && t[k2].member == v);
            if k2 != kn {
                if kn < k2 {
                    assert(t[kn].member != t[k2].member);
                } else {
                    assert(t[k2].member != t[kn].member);
                }
                assert(false);
            }
        } else {
            if has_member(t, v) {
                let k2 = member_at(t, v);
                assert(0 <= k2 < t.len() && t[k2].member == v);
                let ko: int = if k2 < i { k2 } else { k2 + 1 };
                assert(t[k2] == s[ko]);
                assert(has_member(s, v));
                assert(false);
            }
        }
    }
}

/// Whether `x` occurs in `v`.
pub fn contains_id(v: &Vec<u64>, x: u64) -> (r: bool)
    ensures
        r == v@.contains(x),
{
    let mut i: usize = 0;
    while i < v.len()
        invariant
            i <= v@.len(),
            forall|k: int| 0 <= k < i ==> v@[k] != x,
        decreases v@.len() - i,
    {
        if v[i] == x {
            return true;
        }
        i = i + 1;
    }
    false
}

impl JukeboxTable {
    /// The index of `u`'s membership record, if `u` is a member.
    pub fn find_member(&self, u: u64) -> (r: Option<usize>)
        requires
            unique_members(self.members@),
        ensures
            r is Some <==> has_member(self.members@, u),
            r matches Some(i) ==> i < self.members@.len()
                && self.members@[i as int].member == u && member_at(self.members@, u)
                == i as int,
    {
        let mut i: usize = 0;
        while i < self.members.len()
            invariant
                i <= self.members@.len(),
                forall|k: int| 0 <= k < i ==> (#[trigger] self.members@[k]).member != u,
                unique_members(self.members@),
            decreases self.members@.len() - i,
        {
            if self.members[i].member == u {
                proof {
                    let j = member_at(self.members@, u);
                    assert(self.members@[i as int].member == u);
                    assert(0 <= j < self.members@.len() && self.members@[j].member == u);
                }
                return Some(i);
            }
            i = i + 1;
        }
        None
    }

    /// Whether `u` has a membership record at this table.
    pub fn is_member(&self, u: u64) -> (r: bool)
        ensures
            r == has_member(self.members@, u),
    {
        let mut i: usize = 0;
        while i < self.members.len()
            invariant
                i <= self.members@.len(),
                forall|k: int| 0 <= k < i ==> (#[trigger] self.members@[k]).member != u,
            decreases self.members@.len() - i,
        {
            if self.members[i].member == u {
                return true;
            }
            i = i + 1;
        }
        false
    }

    /// Whether `u` stands in the table-admin index.
    pub fn is_admin_listed(&self, u: u64) -> (r: bool)
        ensures
            r == self.admins@.contains(u),
    {
        contains_id(&self.admins, u)
    }

    /// Whether `u` has voted to skip the current track.
    pub fn has_voted(&self, u: u64) -> (r: bool)
        ensures
            r == self.skip_votes@.contains(u),
    {
        contains_id(&self.skip_votes, u)
    }

    /// Writes `u`'s membership record, replacing an existing one or
    /// appending a fresh one; the member count tracks the records.
    pub fn set_membership(&mut self, rec: TableMembership)
        requires
            unique_members(old(self).members@),
            old(self).member_count == old(self).members@.len(),
            old(self).members@.len() < u32::MAX,
        ensures
            unique_members(final(self).members@),
            final(self).member_count == final(self).members@.len(),
            has_member(old(self).members@, rec.member) ==> final(self).members@ == old(
                self,
            ).members@.update(member_at(old(self).members@, rec.member), rec)
                && final(self).member_count == old(self).member_count,
            !has_member(old(self).members@, rec.member) ==> final(self).members@ == old(
                self,
            ).members@.push(rec) && final(self).member_count == old(self).member_count + 1,
            member_rec(final(self).members@, rec.member) == Some(rec),
            forall|v: u64| v != rec.member ==> member_rec(final(self).members@, v) == member_rec(
                old(self).members@,
                v,
            ),
            *final(self) == (JukeboxTable {
                members: final(self).members,
                member_count: final(self).member_count,
                ..*old(self)
            }),
    {
        let ghost s = old(self).members@;
        match self.find_member(rec.member) {
            Some(i) => {
                self.members[i] = rec;
                proof {
                    lemma_upsert_rec(s, i as int, rec);
                }
            },
            None => {
                self.members.push(rec);
                self.member_count = self.member_count + 1;
                proof {
                    lemma_push_rec(s, rec);
                }
            },
        }
    }

    /// Deletes `u`'s membership record, if any, returning it; the member
    /// count tracks the records.
    pub fn remove_membership(&mut self, u: u64) -> (r: Option<TableMembership>)
        requires
            unique_members(old(self).members@),
            old(self).member_count == old(self).members@.len(),
        ensures
            unique_members(final(self).members@),
            final(self).member_count == final(self).members@.len(),
            r is Some <==> has_member(old(self).members@, u),
            has_member(old(self).members@, u) ==> final(self).members@ == old(
                self,
            ).members@.remove(member_at(old(self).members@, u)) && final(self).member_count == old(
                self,
            ).member_count - 1 && r == Some(old(self).members@[member_at(old(self).members@, u)]),
            !has_member(old(self).members@, u) ==> final(self).members@ == old(self).members@
                && final(self).member_count == old(self).member_count,
            !has_member(final(self).members@, u),
            forall|v: u64| v != u ==> member_rec(final(self).members@, v) == member_rec(
                old(self).members@,
                v,
            ),
            *final(self) == (JukeboxTable {
                members: final(self).members,
                member_count: final(self).member_count,
                ..*old(self)
            }),
    {
        let ghost s = old(self).members@;
        match self.find_member(u) {
            Some(i) => {
                let rec = self.members.remove(i);
                self.member_count = self.member_count - 1;
                proof {
                    lemma_remove_rec(s, i as int);
                }
                Some(rec)
            },
            None => None,
        }
    }

    /// Records `u`'s skip vote; a repeat vote changes nothing.
    pub fn record_vote(&mut self, u: u64)
        requires
            unique_ids(old(self).skip_votes@),
        ensures
            final(self).skip_votes@ == cast_vote(old(self).skip_votes@, u),
            unique_ids(final(self).skip_votes@),
            final(self).skip_votes@.contains(u),
            *final(self) == (JukeboxTable {
                skip_votes: final(self).skip_votes,
                ..*old(self)
            }),
    {
        if !self.has_voted(u) {
            self.skip_votes.push(u);
            proof {
                let s = old(self).skip_votes@;
                assert forall|i: int, j: int|
                    0 <= i < j < s.push(u).len() implies #[trigger] s.push(u)[i]
                    != #[trigger] s.push(u)[j] by {
                    if j == s.len() {
                        assert(!s.contains(u));
                        assert(s.push(u)[i] == s[i]);
                    }
                }
                assert(s.push(u)[s.len() as int] == u);
            }
        }
    }

    /// Pops the queue head into the current-track slot and starts a fresh
    /// vote round. An empty queue leaves the table idle. Either way the
    /// ballot is cleared.
    pub fn advance(&mut self) -> (r: Option<u64>)
        ensures
            final(self).skip_votes@.len() == 0,
            r is Some <==> old(self).queue@.len() > 0,
            old(self).queue@.len() == 0 ==> final(self).current_track is None
                && final(self).queue@ == old(self).queue@,
            old(self).queue@.len() > 0 ==> r == Some(old(self).queue@[0])
                && final(self).current_track == Some(old(self).queue@[0])
                && final(self).queue@ == old(self).queue@.drop_first(),
            final(self).current_track is None <==> old(self).queue@.len() == 0,
            *final(self) == (JukeboxTable {
                current_track: final(self).current_track,
                queue: final(self).queue,
                skip_votes: final(self).skip_votes,
                ..*old(self)
            }),
    {
        if self.queue.len() == 0 {
            self.current_track = None;
            self.skip_votes.clear();
            None
        } else {
            let next = self.queue.remove(0);
            self.current_track = Some(next);
            self.skip_votes.clear();
            proof {
                assert(final(self).queue@ =~= old(self).queue@.drop_first());
            }
            Some(next)
        }
    }
}

} // verus!
