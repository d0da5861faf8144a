//! The engine: registry, table sessions, payment and royalty
//! distribution, and the append-only request ledger.
//!
//! All state lives in one value. Entity identifiers are drawn from
//! per-kind counters: the n-th track, table, or request of the engine has
//! identifier n, so identifiers never collide. Every fallible operation
//! either completes entirely or returns an error leaving all state — the
//! engine's and the ledger's — unchanged.

use std::collections::HashMap;
use vstd::prelude::*;

use crate::errors::Error;
use crate::ledger::TokenLedger;
use crate::math::{
    fee_amount, final_price, lemma_prefix_shares, lemma_price_bounds, lemma_scale_le,
    lemma_shares_to_bounds, lemma_take_step, royalty_pool, share_amount, shares_to, sum_pct,
    sum_shares, BPS_DENOM, FEE_CAP_BPS, MAX_BASE_PRICE, PCT_DENOM,
};
use crate::records::{track_wf, Artist, ContractEvent, TableMembership, Track, TrackRequest, User};
use crate::table::{
    cast_vote, has_member, member_at, member_rec, same_table_config, same_table_members,
    same_table_session, table_wf, JukeboxTable,
};

verus! {

broadcast use vstd::std_specs::hash::group_hash_axioms;

/// The whole venue: configuration, registries, tables, and the request
/// ledger.
pub struct MetaJuke {
    /// The administrative account; receives the platform fee.
    pub admin: u64,
    /// The engine's own custodial account: payments land here before
    /// fan-out, and rounding dust stays here.
    pub contract_account: u64,
    /// Platform fee in basis points; at most `FEE_CAP_BPS`.
    pub platform_fee: u32,
    pub users: HashMap<u64, User>,
    pub artists: HashMap<u64, Artist>,
    pub user_to_nft: HashMap<u64, u64>,
    pub nft_to_user: HashMap<u64, u64>,
    /// The n-th minted track has `track_id` n.
    pub tracks: Vec<Track>,
    /// The n-th created table has `table_id` n.
    pub tables: Vec<JukeboxTable>,
    /// Append-only: the n-th accepted request has `request_id` n.
    pub requests: Vec<TrackRequest>,
    /// Everything published to observers, in order.
    pub events: Vec<ContractEvent>,
}

impl MetaJuke {
    /// Whether a track with this identifier was minted.
    pub open spec fn has_track(&self, id: u64) -> bool {
        1 <= id && id <= self.tracks@.len()
    }

    /// The track with this identifier.
    pub open spec fn track_of(&self, id: u64) -> Track {
        self.tracks@[id as int - 1]
    }

    /// Whether a table with this identifier was created.
    pub open spec fn has_table(&self, id: u64) -> bool {
        1 <= id && id <= self.tables@.len()
    }

    /// The table with this identifier.
    pub open spec fn table_of(&self, id: u64) -> JukeboxTable {
        self.tables@[id as int - 1]
    }

    /// Whether a request with this identifier was accepted.
    pub open spec fn has_request(&self, id: u64) -> bool {
        1 <= id && id <= self.requests@.len()
    }

    /// The request receipt with this identifier.
    pub open spec fn request_of(&self, id: u64) -> TrackRequest {
        self.requests@[id as int - 1]
    }

    /// Whether this account registered as a user.
    pub open spec fn is_registered(&self, u: u64) -> bool {
        self.users@.contains_key(u)
    }

    /// Whether this account registered as an artist.
    pub open spec fn is_artist(&self, u: u64) -> bool {
        self.artists@.contains_key(u)
    }

    /// Every track is well formed, numbered by its position, and has
    /// played no more often than requests were accepted.
    pub open spec fn tracks_wf(&self) -> bool {
        forall|i: int|
            0 <= i < self.tracks@.len() ==> {
                let t = #[trigger] self.tracks@[i];
                &&& t.track_id == i + 1
                &&& track_wf(t)
                &&& t.play_count <= self.requests@.len()
            }
    }

    /// Every table is well formed, numbered by its position, and refers
    /// only to minted tracks.
    pub open spec fn tables_wf(&self) -> bool {
        forall|i: int|
            0 <= i < self.tables@.len() ==> {
                let t = #[trigger] self.tables@[i];
                &&& t.table_id == i + 1
                &&& table_wf(t)
                &&& forall|j: int|
                    0 <= j < t.queue@.len() ==> self.has_track(#[trigger] t.queue@[j])
                &&& t.current_track matches Some(c) ==> self.has_track(c)
            }
    }

    /// Every receipt is numbered by its position and paid a non-negative
    /// amount.
    pub open spec fn requests_wf(&self) -> bool {
        forall|i: int|
            0 <= i < self.requests@.len() ==> {
                let r = #[trigger] self.requests@[i];
                &&& r.request_id == i + 1
                &&& r.amount_paid >= 0
            }
    }

    /// Every artist record is keyed by its own identity and owes a
    /// non-negative pending balance.
    pub open spec fn artists_wf(&self) -> bool {
        forall|a: u64|
            self.artists@.contains_key(a) ==> {
                let r = #[trigger] self.artists@[a];
                &&& r.revenue_balance >= 0
                &&& r.user_id == a
            }
    }

    /// The engine's invariant: established by `initialize`, preserved by
    /// every operation.
    pub open spec fn wf(&self) -> bool {
        &&& self.platform_fee <= FEE_CAP_BPS
        &&& self.tracks@.len() <= u32::MAX
        &&& self.tables@.len() <= u32::MAX
        &&& self.requests@.len() <= u32::MAX
        &&& self.tracks_wf()
        &&& self.tables_wf()
        &&& self.requests_wf()
        &&& self.artists_wf()
    }
}

/// The configuration did not change.
pub open spec fn same_config(pre: MetaJuke, post: MetaJuke) -> bool {
    &&& post.admin == pre.admin
    &&& post.contract_account == pre.contract_account
    &&& post.platform_fee == pre.platform_fee
}

/// The user registry and ownership-token bindings did not change.
pub open spec fn same_users(pre: MetaJuke, post: MetaJuke) -> bool {
    &&& post.users@ == pre.users@
    &&& post.user_to_nft@ == pre.user_to_nft@
    &&& post.nft_to_user@ == pre.nft_to_user@
}

/// The artist registry did not change.
pub open spec fn same_artists(pre: MetaJuke, post: MetaJuke) -> bool {
    post.artists@ == pre.artists@
}

/// The track catalog did not change.
pub open spec fn same_tracks(pre: MetaJuke, post: MetaJuke) -> bool {
    post.tracks@ == pre.tracks@
}

/// The tables did not change.
pub open spec fn same_tables(pre: MetaJuke, post: MetaJuke) -> bool {
    post.tables@ == pre.tables@
}

/// The request ledger did not change.
pub open spec fn same_requests(pre: MetaJuke, post: MetaJuke) -> bool {
    post.requests@ == pre.requests@
}

/// No event was published.
pub open spec fn same_events(pre: MetaJuke, post: MetaJuke) -> bool {
    post.events@ == pre.events@
}

/// Nothing about the engine changed.
pub open spec fn unchanged(pre: MetaJuke, post: MetaJuke) -> bool {
    &&& same_config(pre, post)
    &&& same_users(pre, post)
    &&& same_artists(pre, post)
    &&& same_tracks(pre, post)
    &&& same_tables(pre, post)
    &&& same_requests(pre, post)
    &&& same_events(pre, post)
}

impl MetaJuke {
    /// Sets up the venue. The platform fee is rejected above the cap at
    /// configuration time; the engine thereafter assumes every stored fee
    /// is within bounds.
    pub fn initialize(admin: u64, contract_account: u64, platform_fee: u32) -> (r: Result<
        MetaJuke,
        Error,
    >)
        ensures
            r is Ok <==> platform_fee <= FEE_CAP_BPS,
            r is Err ==> r == Result::<MetaJuke, Error>::Err(Error::InvalidArgument),
            r matches Ok(e) ==> {
                &&& e.wf()
                &&& e.admin == admin
                &&& e.contract_account == contract_account
                &&& e.platform_fee == platform_fee
                &&& e.users@ == Map::<u64, User>::empty()
                &&& e.artists@ == Map::<u64, Artist>::empty()
                &&& e.tracks@.len() == 0
                &&& e.tables@.len() == 0
                &&& e.requests@.len() == 0
                &&& e.events@.len() == 0
            },
    {
        if platform_fee > FEE_CAP_BPS {
            return Err(Error::InvalidArgument);
        }
        Ok(
            MetaJuke {
                admin,
                contract_account,
                platform_fee,
                users: HashMap::new(),
                artists: HashMap::new(),
                user_to_nft: HashMap::new(),
                nft_to_user: HashMap::new(),
                tracks: Vec::new(),
                tables: Vec::new(),
                requests: Vec::new(),
                events: Vec::new(),
            },
        )
    }

    /// Reconfigures the platform fee; only the administrator may, and
    /// only up to the cap.
    pub fn update_platform_fee(&mut self, caller: u64, new_fee: u32) -> (r: Result<(), Error>)
        requires
            old(self).wf(),
        ensures
            final(self).wf(),
            r is Ok <==> caller == old(self).admin && new_fee <= FEE_CAP_BPS,
            caller != old(self).admin ==> r == Result::<(), Error>::Err(Error::Unauthorized),
            caller == old(self).admin && new_fee > FEE_CAP_BPS ==> r == Result::<(), Error>::Err(
                Error::InvalidArgument,
            ),
            r is Err ==> unchanged(*old(self), *final(self)),
            r is Ok ==> {
                &&& final(self).platform_fee == new_fee
                &&& final(self).admin == old(self).admin
                &&& final(self).contract_account == old(self).contract_account
                &&& same_users(*old(self), *final(self))
                &&& same_artists(*old(self), *final(self))
                &&& same_tracks(*old(self), *final(self))
                &&& same_tables(*old(self), *final(self))
                &&& same_requests(*old(self), *final(self))
                &&& same_events(*old(self), *final(self))
            },
    {
        if caller != self.admin {
            return Err(Error::Unauthorized);
        }
        if new_fee > FEE_CAP_BPS {
            return Err(Error::InvalidArgument);
        }
        self.platform_fee = new_fee;
        Ok(())
    }

    /// Reads a user record.
    pub fn get_user(&self, user: u64) -> (r: Option<&User>)
        ensures
            r is Some <==> self.is_registered(user),
            r matches Some(u) ==> *u == self.users@[user],
    {
        self.users.get(&user)
    }

    /// Reads an artist record.
    pub fn get_artist(&self, artist: u64) -> (r: Option<&Artist>)
        ensures
            r is Some <==> self.is_artist(artist),
            r matches Some(a) ==> *a == self.artists@[artist],
    {
        self.artists.get(&artist)
    }

    /// Reads a track.
    pub fn get_track(&self, track_id: u64) -> (r: Option<&Track>)
        ensures
            r is Some <==> self.has_track(track_id),
            r matches Some(t) ==> *t == self.track_of(track_id),
    {
        if track_id >= 1 && track_id <= self.tracks.len() as u64 {
            Some(&self.tracks[(track_id - 1) as usize])
        } else {
            None
        }
    }

    /// Reads a table.
    pub fn get_table(&self, table_id: u64) -> (r: Option<&JukeboxTable>)
        ensures
            r is Some <==> self.has_table(table_id),
            r matches Some(t) ==> *t == self.table_of(table_id),
    {
        if table_id >= 1 && table_id <= self.tables.len() as u64 {
            Some(&self.tables[(table_id - 1) as usize])
        } else {
            None
        }
    }

    /// Reads a request receipt.
    pub fn get_request(&self, request_id: u64) -> (r: Option<&TrackRequest>)
        ensures
            r is Some <==> self.has_request(request_id),
            r matches Some(q) ==> *q == self.request_of(request_id),
    {
        if request_id >= 1 && request_id <= self.requests.len() as u64 {
            Some(&self.requests[(request_id - 1) as usize])
        } else {
            None
        }
    }

    /// A table's queue, in play order; empty for an unknown table.
    pub fn get_queue(&self, table_id: u64) -> (r: Vec<u64>)
        ensures
            self.has_table(table_id) ==> r@ == self.table_of(table_id).queue@,
            !self.has_table(table_id) ==> r@.len() == 0,
    {
        let mut out: Vec<u64> = Vec::new();
        match self.get_table(table_id) {
            Some(t) => {
                let mut i: usize = 0;
                while i < t.queue.len()
                    invariant
                        i <= t.queue@.len(),
                        out@ == t.queue@.take(i as int),
                    decreases t.queue@.len() - i,
                {
                    out.push(t.queue[i]);
                    proof {
                        assert(out@ =~= t.queue@.take(i as int + 1));
                    }
                    i = i + 1;
                }
                proof {
                    assert(t.queue@.take(t.queue@.len() as int) =~= t.queue@);
                }
            },
            None => {},
        }
        out
    }

    /// Whether `user` holds a membership record at this table; false for
    /// an unknown table.
    pub fn is_table_member(&self, user: u64, table_id: u64) -> (r: bool)
        ensures
            r == (self.has_table(table_id) && has_member(self.table_of(table_id).members@, user)),
    {
        match self.get_table(table_id) {
            Some(t) => t.is_member(user),
            None => false,
        }
    }

    /// Whether `user` stands in this table's admin index; false for an
    /// unknown table.
    pub fn is_table_admin(&self, user: u64, table_id: u64) -> (r: bool)
        ensures
            r == (self.has_table(table_id) && self.table_of(table_id).admins@.contains(user)),
    {
        match self.get_table(table_id) {
            Some(t) => t.is_admin_listed(user),
            None => false,
        }
    }

    /// How many members a table has; zero for an unknown table.
    pub fn get_table_member_count(&self, table_id: u64) -> (r: u32)
        ensures
            self.has_table(table_id) ==> r == self.table_of(table_id).member_count,
            !self.has_table(table_id) ==> r == 0,
    {
        match self.get_table(table_id) {
            Some(t) => t.member_count,
            None => 0,
        }
    }

    /// Whether `user` has voted to skip this table's current track; false
    /// for an unknown table.
    pub fn has_voted_to_skip(&self, user: u64, table_id: u64) -> (r: bool)
        ensures
            r == (self.has_table(table_id) && self.table_of(table_id).skip_votes@.contains(user)),
    {
        match self.get_table(table_id) {
            Some(t) => t.has_voted(user),
            None => false,
        }
    }

    /// How many tracks were minted.
    pub fn get_total_tracks(&self) -> (r: u32)
        requires
            self.wf(),
        ensures
            r == self.tracks@.len(),
    {
        self.tracks.len() as u32
    }

    /// Running counters: tracks minted, tables created, requests
    /// accepted.
    pub fn get_platform_stats(&self) -> (r: (u32, u32, u32))
        requires
            self.wf(),
        ensures
            r.0 == self.tracks@.len(),
            r.1 == self.tables@.len(),
            r.2 == self.requests@.len(),
    {
        (self.tracks.len() as u32, self.tables.len() as u32, self.requests.len() as u32)
    }

    /// Everything published so far, in order.
    pub fn get_events(&self) -> (r: &Vec<ContractEvent>)
        ensures
            r@ == self.events@,
    {
        &self.events
    }

    /// Whether `user` may register with this ownership token: the token
    /// balance handed in shows at least one unit held, and the token is
    /// not already bound to a different user.
    pub open spec fn nft_ownership_ok(&self, user: u64, nft: u64, nft_balance: i128) -> bool {
        &&& nft_balance >= 1
        &&& (self.nft_to_user@.contains_key(nft) ==> self.nft_to_user@[nft] == user)
    }

    /// The ownership check behind registration. The balance of the
    /// caller's token account is read outside the engine and handed in.
    pub fn verify_nft_ownership(&self, user: u64, nft: u64, nft_balance: i128) -> (r: bool)
        ensures
            r == self.nft_ownership_ok(user, nft, nft_balance),
    {
        if nft_balance < 1 {
            return false;
        }
        match self.nft_to_user.get(&nft) {
            Some(existing) => *existing == user,
            None => true,
        }
    }

    /// Registers a user profile backed by an ownership token. The
    /// token-balance argument is the caller's holding of that token,
    /// read outside the engine.
    pub fn register_user(
        &mut self,
        user: u64,
        profile_nft: u64,
        avatar_uri: String,
        nft_balance: i128,
    ) -> (r: Result<(), Error>)
        requires
            old(self).wf(),
        ensures
            final(self).wf(),
            r is Ok <==> {
                &&& old(self).nft_ownership_ok(user, profile_nft, nft_balance)
                &&& !old(self).is_registered(user)
                &&& !old(self).nft_to_user@.contains_key(profile_nft)
            },
            !old(self).nft_ownership_ok(user, profile_nft, nft_balance) ==> r == Result::<
                (),
                Error,
            >::Err(Error::Unauthorized),
            old(self).nft_ownership_ok(user, profile_nft, nft_balance) && old(self).is_registered(
                user,
            ) ==> r == Result::<(), Error>::Err(Error::AlreadyExists),
            r is Err ==> unchanged(*old(self), *final(self)),
            r is Ok ==> {
                &&& final(self).users@ == old(self).users@.insert(
                    user,
                    User { profile_nft, avatar_uri, reputation: 100, is_active: true },
                )
                &&& final(self).user_to_nft@ == old(self).user_to_nft@.insert(user, profile_nft)
                &&& final(self).nft_to_user@ == old(self).nft_to_user@.insert(profile_nft, user)
                &&& same_config(*old(self), *final(self))
                &&& same_artists(*old(self), *final(self))
                &&& same_tracks(*old(self), *final(self))
                &&& same_tables(*old(self), *final(self))
                &&& same_requests(*old(self), *final(self))
                &&& same_events(*old(self), *final(self))
            },
    {
        if !self.verify_nft_ownership(user, profile_nft, nft_balance) {
            return Err(Error::Unauthorized);
        }
        if self.users.contains_key(&user) {
            return Err(Error::AlreadyExists);
        }
        if self.nft_to_user.contains_key(&profile_nft) {
            return Err(Error::AlreadyExists);
        }
        let new_user = User { profile_nft, avatar_uri, reputation: 100, is_active: true };
        self.users.insert(user, new_user);
        self.user_to_nft.insert(user, profile_nft);
        self.nft_to_user.insert(profile_nft, user);
        Ok(())
    }

    /// Registers a user as an artist with an empty pending balance.
    pub fn register_artist(&mut self, user: u64, artist_name: String) -> (r: Result<(), Error>)
        requires
            old(self).wf(),
        ensures
            final(self).wf(),
            r is Ok <==> old(self).is_registered(user) && !old(self).is_artist(user),
            !old(self).is_registered(user) ==> r == Result::<(), Error>::Err(
                Error::UserNotRegistered,
            ),
            old(self).is_registered(user) && old(self).is_artist(user) ==> r == Result::<
                (),
                Error,
            >::Err(Error::AlreadyExists),
            r is Err ==> unchanged(*old(self), *final(self)),
            r is Ok ==> {
                &&& final(self).artists@ == old(self).artists@.insert(
                    user,
                    Artist { user_id: user, artist_name, revenue_balance: 0, verified: false },
                )
                &&& same_config(*old(self), *final(self))
                &&& same_users(*old(self), *final(self))
                &&& same_tracks(*old(self), *final(self))
                &&& same_tables(*old(self), *final(self))
                &&& same_requests(*old(self), *final(self))
                &&& same_events(*old(self), *final(self))
            },
    {
        if !self.users.contains_key(&user) {
            return Err(Error::UserNotRegistered);
        }
        if self.artists.contains_key(&user) {
            return Err(Error::AlreadyExists);
        }
        let new_artist = Artist {
            user_id: user,
            artist_name,
            revenue_balance: 0,
            verified: false,
        };
        self.artists.insert(user, new_artist);
        Ok(())
    }

    /// Replaces a user's avatar reference.
    pub fn update_user_profile(&mut self, user: u64, avatar_uri: String) -> (r: Result<(), Error>)
        requires
            old(self).wf(),
        ensures
            final(self).wf(),
            r is Ok <==> old(self).is_registered(user),
            r is Err ==> r == Result::<(), Error>::Err(Error::NotFound) && unchanged(
                *old(self),
                *final(self),
            ),
            r is Ok ==> {
                &&& final(self).users@ == old(self).users@.insert(
                    user,
                    User { avatar_uri, ..old(self).users@[user] },
                )
                &&& final(self).user_to_nft@ == old(self).user_to_nft@
                &&& final(self).nft_to_user@ == old(self).nft_to_user@
                &&& same_config(*old(self), *final(self))
                &&& same_artists(*old(self), *final(self))
                &&& same_tracks(*old(self), *final(self))
                &&& same_tables(*old(self), *final(self))
                &&& same_requests(*old(self), *final(self))
                &&& same_events(*old(self), *final(self))
            },
    {
        let updated = match self.users.get(&user) {
            Some(u) => User {
                profile_nft: u.profile_nft,
                avatar_uri,
                reputation: u.reputation,
                is_active: u.is_active,
            },
            None => {
                return Err(Error::NotFound);
            },
        };
        self.users.insert(user, updated);
        Ok(())
    }

    /// Sums a royalty split's percentages.
    fn split_total(royalty_split: &Vec<(u64, u32)>) -> (r: u128)
        ensures
            r == sum_pct(royalty_split@),
    {
        let mut total: u128 = 0;
        let mut i: usize = 0;
        while i < royalty_split.len()
            invariant
                i <= royalty_split@.len(),
                total == sum_pct(royalty_split@.take(i as int)),
                total <= (i as u128) * (u32::MAX as u128),
            decreases royalty_split@.len() - i,
        {
            let p = royalty_split[i].1;
            proof {
                crate::math::lemma_take_step(royalty_split@, 0, 0u64, i as int);
                assert((i as u128 + 1) * (u32::MAX as u128) == (i as u128) * (
                u32::MAX as u128) + (u32::MAX as u128)) by (nonlinear_arith);
                assert((i as u128) * (u32::MAX as u128) <= (u128::MAX - u32::MAX) as u128)
                    by (nonlinear_arith)
                    requires
                        i <= u64::MAX,
                ;
            }
            total = total + (p as u128);
            i = i + 1;
        }
        proof {
            assert(royalty_split@.take(royalty_split@.len() as int) =~= royalty_split@);
        }
        total
    }

    /// Mints a track for a registered artist. The royalty split must sum
    /// to exactly 100 percent and the base price must lie within the
    /// accepted range; the new track starts unplayed with the given
    /// number of licenses.
    pub fn mint_track(
        &mut self,
        artist: u64,
        title: String,
        base_price: i128,
        licenses: u32,
        metadata_uri: String,
        collaborators: Vec<u64>,
        royalty_split: Vec<(u64, u32)>,
    ) -> (r: Result<u64, Error>)
        requires
            old(self).wf(),
            old(self).tracks@.len() < u32::MAX,
        ensures
            final(self).wf(),
            r is Ok <==> {
                &&& old(self).is_artist(artist)
                &&& sum_pct(royalty_split@) == PCT_DENOM
                &&& 0 <= base_price <= MAX_BASE_PRICE
            },
            !old(self).is_artist(artist) ==> r == Result::<u64, Error>::Err(Error::NotAnArtist),
            old(self).is_artist(artist) && !(sum_pct(royalty_split@) == PCT_DENOM && 0
                <= base_price <= MAX_BASE_PRICE) ==> r == Result::<u64, Error>::Err(
                Error::InvalidArgument,
            ),
            r is Err ==> unchanged(*old(self), *final(self)),
            r matches Ok(id) ==> {
                &&& id == old(self).tracks@.len() + 1
                &&& final(self).tracks@ == old(self).tracks@.push(
                    (Track {
                        track_id: id,
                        track_nft: id,
                        title,
                        artist_id: artist,
                        collaborators,
                        play_count: 0,
                        base_price,
                        licenses_remaining: licenses,
                        metadata_uri,
                        royalty_split,
                    }),
                )
                &&& final(self).events@ == old(self).events@.push(ContractEvent::TrackMinted(id))
                &&& same_config(*old(self), *final(self))
                &&& same_users(*old(self), *final(self))
                &&& same_artists(*old(self), *final(self))
                &&& same_tables(*old(self), *final(self))
                &&& same_requests(*old(self), *final(self))
            },
    {
        if !self.artists.contains_key(&artist) {
            return Err(Error::NotAnArtist);
        }
        let total = Self::split_total(&royalty_split);
        if total != PCT_DENOM as u128 {
            return Err(Error::InvalidArgument);
        }
        if base_price < 0 || base_price > MAX_BASE_PRICE {
            return Err(Error::InvalidArgument);
        }
        let id = self.tracks.len() as u64 + 1;
        let new_track = Track {
            track_id: id,
            track_nft: id,
            title,
            artist_id: artist,
            collaborators,
            play_count: 0,
            base_price,
            licenses_remaining: licenses,
            metadata_uri,
            royalty_split,
        };
        self.tracks.push(new_track);
        self.events.push(ContractEvent::TrackMinted(id));
        Ok(id)
    }

    /// Lets the owning artist change a track's price, remaining
    /// licenses, and metadata reference; nothing else about the track.
    pub fn update_track(
        &mut self,
        artist: u64,
        track_id: u64,
        new_base_price: i128,
        new_licenses: u32,
        new_metadata_uri: String,
    ) -> (r: Result<(), Error>)
        requires
            old(self).wf(),
        ensures
            final(self).wf(),
            r is Ok <==> {
                &&& old(self).has_track(track_id)
                &&& old(self).track_of(track_id).artist_id == artist
                &&& 0 <= new_base_price <= MAX_BASE_PRICE
            },
            !old(self).has_track(track_id) ==> r == Result::<(), Error>::Err(Error::NotFound),
            old(self).has_track(track_id) && old(self).track_of(track_id).artist_id != artist
                ==> r == Result::<(), Error>::Err(Error::Unauthorized),
            old(self).has_track(track_id) && old(self).track_of(track_id).artist_id == artist
                && !(0 <= new_base_price <= MAX_BASE_PRICE) ==> r == Result::<(), Error>::Err(
                Error::InvalidArgument,
            ),
            r is Err ==> unchanged(*old(self), *final(self)),
            r is Ok ==> {
                &&& final(self).tracks@ == old(self).tracks@.update(
                    track_id - 1,
                    (Track {
                        base_price: new_base_price,
                        licenses_remaining: new_licenses,
                        metadata_uri: new_metadata_uri,
                        ..old(self).track_of(track_id)
                    }),
                )
                &&& same_config(*old(self), *final(self))
                &&& same_users(*old(self), *final(self))
                &&& same_artists(*old(self), *final(self))
                &&& same_tables(*old(self), *final(self))
                &&& same_requests(*old(self), *final(self))
                &&& same_events(*old(self), *final(self))
            },
    {
        if track_id < 1 || track_id > self.tracks.len() as u64 {
            return Err(Error::NotFound);
        }
        let i = (track_id - 1) as usize;
        if self.tracks[i].artist_id != artist {
            return Err(Error::Unauthorized);
        }
        if new_base_price < 0 || new_base_price > MAX_BASE_PRICE {
            return Err(Error::InvalidArgument);
        }
        let t = &mut self.tracks[i];
        t.base_price = new_base_price;
        t.licenses_remaining = new_licenses;
        t.metadata_uri = new_metadata_uri;
        Ok(())
    }

    /// Creates an active, idle, empty table owned by a registered user.
    pub fn create_table(
        &mut self,
        owner: u64,
        name: String,
        skip_threshold: u32,
        price_multiplier: u32,
    ) -> (r: Result<u64, Error>)
        requires
            old(self).wf(),
            old(self).tables@.len() < u32::MAX,
        ensures
            final(self).wf(),
            r is Ok <==> old(self).is_registered(owner),
            r is Err ==> r == Result::<u64, Error>::Err(Error::UserNotRegistered) && unchanged(
                *old(self),
                *final(self),
            ),
            r matches Ok(id) ==> {
                &&& id == old(self).tables@.len() + 1
                &&& final(self).tables@ == old(self).tables@.push(
                    (JukeboxTable {
                        table_id: id,
                        name,
                        owner,
                        current_track: None,
                        queue: final(self).table_of(id).queue,
                        skip_votes: final(self).table_of(id).skip_votes,
                        skip_threshold,
                        price_multiplier,
                        member_count: 0,
                        is_active: true,
                        members: final(self).table_of(id).members,
                        admins: final(self).table_of(id).admins,
                    }),
                )
                &&& final(self).table_of(id).queue@.len() == 0
                &&& final(self).table_of(id).skip_votes@.len() == 0
                &&& final(self).table_of(id).members@.len() == 0
                &&& final(self).table_of(id).admins@.len() == 0
                &&& final(self).events@ == old(self).events@.push(ContractEvent::TableCreated(id))
                &&& same_config(*old(self), *final(self))
                &&& same_users(*old(self), *final(self))
                &&& same_artists(*old(self), *final(self))
                &&& same_tracks(*old(self), *final(self))
                &&& same_requests(*old(self), *final(self))
            },
    {
        if !self.users.contains_key(&owner) {
            return Err(Error::UserNotRegistered);
        }
        let id = self.tables.len() as u64 + 1;
        let new_table = JukeboxTable {
            table_id: id,
            name,
            owner,
            current_track: None,
            queue: Vec::new(),
            skip_votes: Vec::new(),
            skip_threshold,
            price_multiplier,
            member_count: 0,
            is_active: true,
            members: Vec::new(),
            admins: Vec::new(),
        };
        self.tables.push(new_table);
        self.events.push(ContractEvent::TableCreated(id));
        Ok(id)
    }

    /// Lets the owner rename a table and retune its skip threshold and
    /// price multiplier.
    pub fn update_table(
        &mut self,
        owner: u64,
        table_id: u64,
        name: String,
        skip_threshold: u32,
        price_multiplier: u32,
    ) -> (r: Result<(), Error>)
        requires
            old(self).wf(),
        ensures
            final(self).wf(),
            r is Ok <==> old(self).has_table(table_id) && old(self).table_of(table_id).owner
                == owner,
            !old(self).has_table(table_id) ==> r == Result::<(), Error>::Err(Error::TableNotFound),
            old(self).has_table(table_id) && old(self).table_of(table_id).owner != owner ==> r
                == Result::<(), Error>::Err(Error::Unauthorized),
            r is Err ==> unchanged(*old(self), *final(self)),
            r is Ok ==> {
                &&& final(self).tables@ == old(self).tables@.update(
                    table_id - 1,
                    (JukeboxTable {
                        name,
                        skip_threshold,
                        price_multiplier,
                        ..old(self).table_of(table_id)
                    }),
                )
                &&& same_config(*old(self), *final(self))
                &&& same_users(*old(self), *final(self))
                &&& same_artists(*old(self), *final(self))
                &&& same_tracks(*old(self), *final(self))
                &&& same_requests(*old(self), *final(self))
                &&& same_events(*old(self), *final(self))
            },
    {
        if table_id < 1 || table_id > self.tables.len() as u64 {
            return Err(Error::TableNotFound);
        }
        let i = (table_id - 1) as usize;
        if self.tables[i].owner != owner {
            return Err(Error::Unauthorized);
        }
        let t = &mut self.tables[i];
        t.name = name;
        t.skip_threshold = skip_threshold;
        t.price_multiplier = price_multiplier;
        Ok(())
    }

    /// Joins a registered user to an active table as a plain member.
    pub fn join_table(&mut self, user: u64, table_id: u64, now: u64) -> (r: Result<(), Error>)
        requires
            old(self).wf(),
            old(self).has_table(table_id) ==> old(self).table_of(table_id).members@.len()
                < u32::MAX,
        ensures
            final(self).wf(),
            r is Ok <==> {
                &&& old(self).is_registered(user)
                &&& old(self).has_table(table_id)
                &&& old(self).table_of(table_id).is_active
                &&& !has_member(old(self).table_of(table_id).members@, user)
            },
            !old(self).is_registered(user) ==> r == Result::<(), Error>::Err(
                Error::UserNotRegistered,
            ),
            old(self).is_registered(user) && !old(self).has_table(table_id) ==> r == Result::<
                (),
                Error,
            >::Err(Error::TableNotFound),
            old(self).is_registered(user) && old(self).has_table(table_id) && !old(self).table_of(
                table_id,
            ).is_active ==> r == Result::<(), Error>::Err(Error::TableClosed),
            old(self).is_registered(user) && old(self).has_table(table_id) && old(self).table_of(
                table_id,
            ).is_active && has_member(old(self).table_of(table_id).members@, user) ==> r
                == Result::<(), Error>::Err(Error::AlreadyMember),
            r is Err ==> unchanged(*old(self), *final(self)),
            r is Ok ==> {
                let pre = old(self).table_of(table_id);
                let post = final(self).table_of(table_id);
                &&& final(self).tables@ == old(self).tables@.update(table_id - 1, post)
                &&& post.members@ == pre.members@.push(
                    (TableMembership { member: user, joined_at: now, is_admin: false }),
                )
                &&& post.member_count == pre.member_count + 1
                &&& post.admins@ == pre.admins@
                &&& post.is_active == pre.is_active
                &&& same_table_config(pre, post)
                &&& same_table_session(pre, post)
                &&& final(self).events@ == old(self).events@.push(
                    ContractEvent::MembershipChanged(table_id, user, true, false),
                )
                &&& same_config(*old(self), *final(self))
                &&& same_users(*old(self), *final(self))
                &&& same_artists(*old(self), *final(self))
                &&& same_tracks(*old(self), *final(self))
                &&& same_requests(*old(self), *final(self))
            },
    {
        if !self.users.contains_key(&user) {
            return Err(Error::UserNotRegistered);
        }
        if table_id < 1 || table_id > self.tables.len() as u64 {
            return Err(Error::TableNotFound);
        }
        let i = (table_id - 1) as usize;
        if !self.tables[i].is_active {
            return Err(Error::TableClosed);
        }
        if self.tables[i].is_member(user) {
            return Err(Error::AlreadyMember);
        }
        let t = &mut self.tables[i];
        t.set_membership(TableMembership { member: user, joined_at: now, is_admin: false });
        self.events.push(ContractEvent::MembershipChanged(table_id, user, true, false));
        Ok(())
    }

    /// Removes a member's record from a table. The admin index is left
    /// as it is: a leaving admin keeps its index entry, as the
    /// membership and admin sets are maintained independently.
    pub fn leave_table(&mut self, user: u64, table_id: u64) -> (r: Result<(), Error>)
        requires
            old(self).wf(),
        ensures
            final(self).wf(),
            r is Ok <==> old(self).has_table(table_id) && has_member(
                old(self).table_of(table_id).members@,
                user,
            ),
            r is Err ==> r == Result::<(), Error>::Err(Error::NotAMember) && unchanged(
                *old(self),
                *final(self),
            ),
            r is Ok ==> {
                let pre = old(self).table_of(table_id);
                let post = final(self).table_of(table_id);
                &&& final(self).tables@ == old(self).tables@.update(table_id - 1, post)
                &&& post.members@ == pre.members@.remove(member_at(pre.members@, user))
                &&& !has_member(post.members@, user)
                &&& post.member_count == pre.member_count - 1
                &&& post.admins@ == pre.admins@
                &&& post.is_active == pre.is_active
                &&& same_table_config(pre, post)
                &&& same_table_session(pre, post)
                &&& final(self).events@ == old(self).events@.push(
                    ContractEvent::MembershipChanged(table_id, user, false, false),
                )
                &&& same_config(*old(self), *final(self))
                &&& same_users(*old(self), *final(self))
                &&& same_artists(*old(self), *final(self))
                &&& same_tracks(*old(self), *final(self))
                &&& same_requests(*old(self), *final(self))
            },
    {
        if table_id < 1 || table_id > self.tables.len() as u64 {
            return Err(Error::NotAMember);
        }
        let i = (table_id - 1) as usize;
        if !self.tables[i].is_member(user) {
            return Err(Error::NotAMember);
        }
        let t = &mut self.tables[i];
        let _removed = t.remove_membership(user);
        self.events.push(ContractEvent::MembershipChanged(table_id, user, false, false));
        Ok(())
    }

    /// Grants table-admin rights: only the table owner may. The target's
    /// membership record is rewritten with the admin flag set and a fresh
    /// join time; for a target that never joined, this synthesizes a
    /// membership record, and the member count follows the records.
    pub fn add_table_admin(
        &mut self,
        owner: u64,
        table_id: u64,
        new_admin: u64,
        now: u64,
    ) -> (r: Result<(), Error>)
        requires
            old(self).wf(),
            old(self).has_table(table_id) ==> old(self).table_of(table_id).members@.len()
                < u32::MAX,
        ensures
            final(self).wf(),
            r is Ok <==> old(self).has_table(table_id) && old(self).table_of(table_id).owner
                == owner,
            !old(self).has_table(table_id) ==> r == Result::<(), Error>::Err(Error::TableNotFound),
            old(self).has_table(table_id) && old(self).table_of(table_id).owner != owner ==> r
                == Result::<(), Error>::Err(Error::Unauthorized),
            r is Err ==> unchanged(*old(self), *final(self)),
            r is Ok ==> {
                let pre = old(self).table_of(table_id);
                let post = final(self).table_of(table_id);
                let rec = (TableMembership { member: new_admin, joined_at: now, is_admin: true });
                &&& final(self).tables@ == old(self).tables@.update(table_id - 1, post)
                &&& member_rec(post.members@, new_admin) == Some(rec)
                &&& (has_member(pre.members@, new_admin) ==> post.members@ == pre.members@.update(
                    member_at(pre.members@, new_admin),
                    rec,
                ) && post.member_count == pre.member_count)
                &&& (!has_member(pre.members@, new_admin) ==> post.members@ == pre.members@.push(
                    rec,
                ) && post.member_count == pre.member_count + 1)
                &&& forall|v: u64|
                    v != new_admin ==> member_rec(post.members@, v) == member_rec(pre.members@, v)
                &&& post.admins@.contains(new_admin)
                &&& forall|v: u64|
                    v != new_admin ==> post.admins@.contains(v) == pre.admins@.contains(v)
                &&& post.is_active == pre.is_active
                &&& same_table_config(pre, post)
                &&& same_table_session(pre, post)
                &&& same_config(*old(self), *final(self))
                &&& same_users(*old(self), *final(self))
                &&& same_artists(*old(self), *final(self))
                &&& same_tracks(*old(self), *final(self))
                &&& same_requests(*old(self), *final(self))
                &&& same_events(*old(self), *final(self))
            },
    {
        if table_id < 1 || table_id > self.tables.len() as u64 {
            return Err(Error::TableNotFound);
        }
        let i = (table_id - 1) as usize;
        if self.tables[i].owner != owner {
            return Err(Error::Unauthorized);
        }
        let t = &mut self.tables[i];
        t.set_membership(TableMembership { member: new_admin, joined_at: now, is_admin: true });
        crate::table::insert_id(&mut t.admins, new_admin);
        Ok(())
    }

    /// Revokes table-admin rights: only the table owner may. The
    /// target's membership record is rewritten with the admin flag
    /// cleared and a fresh join time — also for a target that never
    /// joined, which synthesizes a demoted record; the member count
    /// follows the records.
    pub fn remove_table_admin(
        &mut self,
        owner: u64,
        table_id: u64,
        admin: u64,
        now: u64,
    ) -> (r: Result<(), Error>)
        requires
            old(self).wf(),
            old(self).has_table(table_id) ==> old(self).table_of(table_id).members@.len()
                < u32::MAX,
        ensures
            final(self).wf(),
            r is Ok <==> old(self).has_table(table_id) && old(self).table_of(table_id).owner
                == owner,
            !old(self).has_table(table_id) ==> r == Result::<(), Error>::Err(Error::TableNotFound),
            old(self).has_table(table_id) && old(self).table_of(table_id).owner != owner ==> r
                == Result::<(), Error>::Err(Error::Unauthorized),
            r is Err ==> unchanged(*old(self), *final(self)),
            r is Ok ==> {
                let pre = old(self).table_of(table_id);
                let post = final(self).table_of(table_id);
                let rec = (TableMembership { member: admin, joined_at: now, is_admin: false });
                &&& final(self).tables@ == old(self).tables@.update(table_id - 1, post)
                &&& member_rec(post.members@, admin) == Some(rec)
                &&& (has_member(pre.members@, admin) ==> post.members@ == pre.members@.update(
                    member_at(pre.members@, admin),
                    rec,
                ) && post.member_count == pre.member_count)
                &&& (!has_member(pre.members@, admin) ==> post.members@ == pre.members@.push(rec)
                    && post.member_count == pre.member_count + 1)
                &&& forall|v: u64|
                    v != admin ==> member_rec(post.members@, v) == member_rec(pre.members@, v)
                &&& !post.admins@.contains(admin)
                &&& forall|v: u64|
                    v != admin ==> post.admins@.contains(v) == pre.admins@.contains(v)
                &&& post.is_active == pre.is_active
                &&& same_table_config(pre, post)
                &&& same_table_session(pre, post)
                &&& same_config(*old(self), *final(self))
                &&& same_users(*old(self), *final(self))
                &&& same_artists(*old(self), *final(self))
                &&& same_tracks(*old(self), *final(self))
                &&& same_requests(*old(self), *final(self))
                &&& same_events(*old(self), *final(self))
            },
    {
        if table_id < 1 || table_id > self.tables.len() as u64 {
            return Err(Error::TableNotFound);
        }
        let i = (table_id - 1) as usize;
        if self.tables[i].owner != owner {
            return Err(Error::Unauthorized);
        }
        let t = &mut self.tables[i];
        crate::table::remove_id(&mut t.admins, admin);
        t.set_membership(TableMembership { member: admin, joined_at: now, is_admin: false });
        Ok(())
    }

    /// Opens or closes a table: only the owner may. Closing clears the
    /// queue, the current track, and the ballot; licenses already
    /// consumed by queued requests are not refunded.
    pub fn set_table_status(&mut self, owner: u64, table_id: u64, active: bool) -> (r: Result<
        (),
        Error,
    >)
        requires
            old(self).wf(),
        ensures
            final(self).wf(),
            r is Ok <==> old(self).has_table(table_id) && old(self).table_of(table_id).owner
                == owner,
            !old(self).has_table(table_id) ==> r == Result::<(), Error>::Err(Error::TableNotFound),
            old(self).has_table(table_id) && old(self).table_of(table_id).owner != owner ==> r
                == Result::<(), Error>::Err(Error::Unauthorized),
            r is Err ==> unchanged(*old(self), *final(self)),
            r is Ok ==> {
                let pre = old(self).table_of(table_id);
                let post = final(self).table_of(table_id);
                &&& final(self).tables@ == old(self).tables@.update(table_id - 1, post)
                &&& post.is_active == active
                &&& (active ==> same_table_session(pre, post))
                &&& (!active ==> post.current_track is None && post.queue@.len() == 0
                    && post.skip_votes@.len() == 0)
                &&& same_table_config(pre, post)
                &&& same_table_members(pre, post)
                &&& final(self).events@ == old(self).events@.push(
                    ContractEvent::TableStatusChanged(table_id, active),
                )
                &&& same_config(*old(self), *final(self))
                &&& same_users(*old(self), *final(self))
                &&& same_artists(*old(self), *final(self))
                &&& same_tracks(*old(self), *final(self))
                &&& same_requests(*old(self), *final(self))
            },
    {
        if table_id < 1 || table_id > self.tables.len() as u64 {
            return Err(Error::TableNotFound);
        }
        let i = (table_id - 1) as usize;
        if self.tables[i].owner != owner {
            return Err(Error::Unauthorized);
        }
        let t = &mut self.tables[i];
        t.is_active = active;
        if !active {
            t.queue = Vec::new();
            t.current_track = None;
            t.skip_votes = Vec::new();
        }
        self.events.push(ContractEvent::TableStatusChanged(table_id, active));
        Ok(())
    }

    /// Casts a registered user's vote to skip the table's current track.
    /// The vote is idempotent per caller: a repeat vote with no
    /// intervening track change adds nothing to the tally. Once the
    /// tally reaches the table's threshold, the queue advances, the
    /// ballot is cleared, and the call returns true.
    pub fn vote_to_skip(&mut self, user: u64, table_id: u64) -> (r: Result<bool, Error>)
        requires
            old(self).wf(),
        ensures
            final(self).wf(),
            r is Ok <==> {
                &&& old(self).is_registered(user)
                &&& old(self).has_table(table_id)
                &&& old(self).table_of(table_id).current_track is Some
            },
            !old(self).is_registered(user) ==> r == Result::<bool, Error>::Err(
                Error::UserNotRegistered,
            ),
            old(self).is_registered(user) && !old(self).has_table(table_id) ==> r == Result::<
                bool,
                Error,
            >::Err(Error::TableNotFound),
            old(self).is_registered(user) && old(self).has_table(table_id) && old(self).table_of(
                table_id,
            ).current_track is None ==> r == Result::<bool, Error>::Err(Error::NoCurrentTrack),
            r is Err ==> unchanged(*old(self), *final(self)),
            r matches Ok(skipped) ==> {
                let pre = old(self).table_of(table_id);
                let post = final(self).table_of(table_id);
                let voted = cast_vote(pre.skip_votes@, user);
                &&& skipped == (voted.len() >= pre.skip_threshold)
                &&& final(self).tables@ == old(self).tables@.update(table_id - 1, post)
                &&& (!skipped ==> post.skip_votes@ == voted && post.current_track
                    == pre.current_track && post.queue@ == pre.queue@)
                &&& (skipped ==> post.skip_votes@.len() == 0 && (pre.queue@.len() == 0
                    ==> post.current_track is None && post.queue@ == pre.queue@) && (
                pre.queue@.len() > 0 ==> post.current_track == Some(pre.queue@[0]) && post.queue@
                    == pre.queue@.drop_first()))
                &&& (pre.skip_votes@.contains(user) && pre.skip_votes@.len()
                    < pre.skip_threshold ==> !skipped && post.skip_votes@ == pre.skip_votes@)
                &&& same_table_config(pre, post)
                &&& same_table_members(pre, post)
                &&& post.is_active == pre.is_active
                &&& same_config(*old(self), *final(self))
                &&& same_users(*old(self), *final(self))
                &&& same_artists(*old(self), *final(self))
                &&& same_tracks(*old(self), *final(self))
                &&& same_requests(*old(self), *final(self))
                &&& same_events(*old(self), *final(self))
            },
    {
        if !self.users.contains_key(&user) {
            return Err(Error::UserNotRegistered);
        }
        if table_id < 1 || table_id > self.tables.len() as u64 {
            return Err(Error::TableNotFound);
        }
        let i = (table_id - 1) as usize;
        if self.tables[i].current_track.is_none() {
            return Err(Error::NoCurrentTrack);
        }
        let t = &mut self.tables[i];
        t.record_vote(user);
        let should_skip = t.skip_votes.len() >= t.skip_threshold as usize;
        if should_skip {
            let _ = t.advance();
            Ok(true)
        } else {
            Ok(false)
        }
    }

    /// Pops the head of the queue into the current-track slot, clearing
    /// the ballot either way; an empty queue leaves the table idle.
    /// After the call the table plays nothing exactly when its queue was
    /// empty at the call.
    pub fn advance_queue(&mut self, table_id: u64) -> (r: Result<Option<u64>, Error>)
        requires
            old(self).wf(),
        ensures
            final(self).wf(),
            r is Ok <==> old(self).has_table(table_id),
            r is Err ==> r == Result::<Option<u64>, Error>::Err(Error::TableNotFound) && unchanged(
                *old(self),
                *final(self),
            ),
            r matches Ok(popped) ==> {
                let pre = old(self).table_of(table_id);
                let post = final(self).table_of(table_id);
                &&& final(self).tables@ == old(self).tables@.update(table_id - 1, post)
                &&& post.skip_votes@.len() == 0
                &&& (popped is Some <==> pre.queue@.len() > 0)
                &&& (post.current_track is None <==> pre.queue@.len() == 0)
                &&& (pre.queue@.len() == 0 ==> post.current_track is None && post.queue@
                    == pre.queue@)
                &&& (pre.queue@.len() > 0 ==> popped == Some(pre.queue@[0]) && post.current_track
                    == Some(pre.queue@[0]) && post.queue@ == pre.queue@.drop_first())
                &&& same_table_config(pre, post)
                &&& same_table_members(pre, post)
                &&& post.is_active == pre.is_active
                &&& same_config(*old(self), *final(self))
                &&& same_users(*old(self), *final(self))
                &&& same_artists(*old(self), *final(self))
                &&& same_tracks(*old(self), *final(self))
                &&& same_requests(*old(self), *final(self))
                &&& same_events(*old(self), *final(self))
            },
    {
        if table_id < 1 || table_id > self.tables.len() as u64 {
            return Err(Error::TableNotFound);
        }
        let i = (table_id - 1) as usize;
        let t = &mut self.tables[i];
        let popped = t.advance();
        Ok(popped)
    }

    /// The manual skip: advances the queue on behalf of the table owner
    /// or a member whose record carries the admin flag.
    pub fn advance_queue_public(&mut self, caller: u64, table_id: u64) -> (r: Result<
        Option<u64>,
        Error,
    >)
        requires
            old(self).wf(),
        ensures
            final(self).wf(),
            r is Ok <==> old(self).has_table(table_id) && (old(self).table_of(table_id).owner
                == caller || (member_rec(old(self).table_of(table_id).members@, caller) matches
            Some(m) && m.is_admin)),
            !old(self).has_table(table_id) ==> r == Result::<Option<u64>, Error>::Err(
                Error::TableNotFound,
            ),
            r is Err ==> unchanged(*old(self), *final(self)),
            old(self).has_table(table_id) && r is Err ==> r == Result::<Option<u64>, Error>::Err(
                Error::Unauthorized,
            ),
            r matches Ok(popped) ==> {
                let pre = old(self).table_of(table_id);
                let post = final(self).table_of(table_id);
                &&& final(self).tables@ == old(self).tables@.update(table_id - 1, post)
                &&& post.skip_votes@.len() == 0
                &&& (popped is Some <==> pre.queue@.len() > 0)
                &&& (post.current_track is None <==> pre.queue@.len() == 0)
                &&& (pre.queue@.len() == 0 ==> post.current_track is None && post.queue@
                    == pre.queue@)
                &&& (pre.queue@.len() > 0 ==> popped == Some(pre.queue@[0]) && post.current_track
                    == Some(pre.queue@[0]) && post.queue@ == pre.queue@.drop_first())
                &&& same_table_config(pre, post)
                &&& same_table_members(pre, post)
                &&& post.is_active == pre.is_active
                &&& same_config(*old(self), *final(self))
                &&& same_users(*old(self), *final(self))
                &&& same_artists(*old(self), *final(self))
                &&& same_tracks(*old(self), *final(self))
                &&& same_requests(*old(self), *final(self))
                &&& same_events(*old(self), *final(self))
            },
    {
        if table_id < 1 || table_id > self.tables.len() as u64 {
            return Err(Error::TableNotFound);
        }
        let i = (table_id - 1) as usize;
        if self.tables[i].owner != caller {
            match self.tables[i].find_member(caller) {
                Some(k) => {
                    if !self.tables[i].members[k].is_admin {
                        return Err(Error::Unauthorized);
                    }
                },
                None => {
                    return Err(Error::Unauthorized);
                },
            }
        }
        let t = &mut self.tables[i];
        let popped = t.advance();
        Ok(popped)
    }

    /// The priced cost of requesting this track at this table: the base
    /// price scaled by the table's basis-point multiplier, truncating;
    /// zero when either is unknown.
    pub open spec fn request_price(&self, track_id: u64, table_id: u64) -> int {
        if self.has_track(track_id) && self.has_table(table_id) {
            final_price(
                self.track_of(track_id).base_price as int,
                self.table_of(table_id).price_multiplier as int,
            )
        } else {
            0
        }
    }

    /// Fans one collected payment out: the basis-point platform fee to
    /// the administrator, then each royalty recipient's whole-percent
    /// share of the remaining pool, truncating; a registered recipient
    /// also has its pending balance credited, and the transfer happens
    /// either way. Truncation dust stays on the custodial account. With
    /// the payment already on the custodial account, no transfer here
    /// can fail.
    fn distribute_royalties(&mut self, led: &mut TokenLedger, track_idx: usize, payment: i128)
        requires
            old(self).wf(),
            old(led).wf(),
            track_idx < old(self).tracks@.len(),
            0 <= payment,
            payment <= i128::MAX as int / (BPS_DENOM as int),
            old(led).bal(old(self).contract_account) >= payment,
            forall|a: u64|
                a != old(self).contract_account ==> old(led).bal(a) + payment <= i128::MAX,
            forall|a: u64|
                old(self).artists@.contains_key(a) ==> (#[trigger] old(self).artists@[
                    a
                ]).revenue_balance + payment <= i128::MAX,
        ensures
            final(self).wf(),
            final(led).wf(),
            ({
                let fee = fee_amount(payment as int, old(self).platform_fee as int);
                let pool = royalty_pool(payment as int, old(self).platform_fee as int);
                let split = old(self).tracks@[track_idx as int].royalty_split@;
                &&& forall|a: u64|
                    final(led).bal(a) == old(led).bal(a) + (if a == old(self).admin {
                        fee
                    } else {
                        0
                    }) + shares_to(split, pool, a) - (if a == old(self).contract_account {
                        fee + sum_shares(split, pool)
                    } else {
                        0
                    })
                &&& final(self).artists@.dom() == old(self).artists@.dom()
                &&& forall|a: u64|
                    old(self).artists@.contains_key(a) ==> {
                        let pre = old(self).artists@[a];
                        let post = #[trigger] final(self).artists@[a];
                        &&& post.revenue_balance == pre.revenue_balance + shares_to(
                            split,
                            pool,
                            a,
                        )
                        &&& post.user_id == pre.user_id
                        &&& post.artist_name == pre.artist_name
                        &&& post.verified == pre.verified
                    }
            }),
            same_config(*old(self), *final(self)),
            same_users(*old(self), *final(self)),
            same_tracks(*old(self), *final(self)),
            same_tables(*old(self), *final(self)),
            same_requests(*old(self), *final(self)),
            same_events(*old(self), *final(self)),
    {
        let ghost split = old(self).tracks@[track_idx as int].royalty_split@;
        let fee_bps = self.platform_fee;
        proof {
            assert(payment * (fee_bps as int) <= i128::MAX && payment * (fee_bps as int)
                >= 0) by (nonlinear_arith)
                requires
                    0 <= payment,
                    payment <= i128::MAX as int / (BPS_DENOM as int),
                    0 <= fee_bps <= BPS_DENOM,
            ;
            lemma_scale_le(payment as int, fee_bps as int, BPS_DENOM as int);
        }
        let fee = payment * (fee_bps as i128) / (BPS_DENOM as i128);
        let pool = payment - fee;
        let admin_acct = self.admin;
        let contract_acct = self.contract_account;
        let ghost led0 = *old(led);
        let tr = led.transfer(contract_acct, admin_acct, fee);
        proof {
            assert(tr is Ok);
            assert(sum_pct(split) == PCT_DENOM);
            lemma_prefix_shares(split, pool as int, 0);
            assert(split.take(0) =~= Seq::<(u64, u32)>::empty());
        }
        let ghost led1 = *led;
        let n = self.tracks[track_idx].royalty_split.len();
        let mut k: usize = 0;
        while k < n
            invariant
                k <= n,
                n == split.len(),
                track_idx < self.tracks@.len(),
                split == self.tracks@[track_idx as int].royalty_split@,
                sum_pct(split) == PCT_DENOM,
                0 <= fee <= payment,
                pool == payment - fee,
                payment <= i128::MAX as int / (BPS_DENOM as int),
                fee as int == fee_amount(payment as int, old(self).platform_fee as int),
                pool as int == royalty_pool(payment as int, old(self).platform_fee as int),
                admin_acct == old(self).admin,
                contract_acct == old(self).contract_account,
                old(self).wf(),
                same_config(*old(self), *self),
                same_users(*old(self), *self),
                same_tracks(*old(self), *self),
                same_tables(*old(self), *self),
                same_requests(*old(self), *self),
                same_events(*old(self), *self),
                led.wf(),
                led0 == *old(led),
                led0.wf(),
                led0.bal(contract_acct) >= payment,
                forall|a: u64| a != contract_acct ==> led0.bal(a) + payment <= i128::MAX,
                forall|a: u64|
                    led1.bal(a) == led0.bal(a) + (if a == admin_acct {
                        fee as int
                    } else {
                        0
                    }) - (if a == contract_acct {
                        fee as int
                    } else {
                        0
                    }),
                forall|a: u64|
                    led.bal(a) == led1.bal(a) + shares_to(split.take(k as int), pool as int, a)
                        - (if a == contract_acct {
                        sum_shares(split.take(k as int), pool as int)
                    } else {
                        0
                    }),
                led.bal(contract_acct) >= pool - sum_shares(split.take(k as int), pool as int),
                self.artists@.dom() == old(self).artists@.dom(),
                forall|a: u64|
                    old(self).artists@.contains_key(a) ==> {
                        let pre = old(self).artists@[a];
                        let post = #[trigger] self.artists@[a];
                        &&& post.revenue_balance == pre.revenue_balance + shares_to(
                            split.take(k as int),
                            pool as int,
                            a,
                        )
                        &&& post.user_id == pre.user_id
                        &&& post.artist_name == pre.artist_name
                        &&& post.verified == pre.verified
                    },
                forall|a: u64|
                    old(self).artists@.contains_key(a) ==> (#[trigger] old(self).artists@[
                        a
                    ]).revenue_balance + payment <= i128::MAX,
            decreases n - k,
        {
            let (recipient, pct) = self.tracks[track_idx].royalty_split[k];
            proof {
                assert(split[k as int] == (recipient, pct));
                lemma_prefix_shares(split, pool as int, k as int);
                lemma_prefix_shares(split, pool as int, k as int + 1);
                lemma_take_step(split, pool as int, recipient, k as int);
                assert(sum_pct(split.take(k as int + 1)) == sum_pct(split.take(k as int))
                    + pct);
                assert(pct <= PCT_DENOM);
                assert(pool * (pct as int) <= i128::MAX && 0 <= pool * (pct as int))
                    by (nonlinear_arith)
                    requires
                        0 <= pool,
                        pool <= i128::MAX as int / (BPS_DENOM as int),
                        0 <= pct <= PCT_DENOM,
                ;
                lemma_scale_le(pool as int, pct as int, PCT_DENOM as int);
            }
            let share = pool * (pct as i128) / (PCT_DENOM as i128);
            proof {
                assert(share as int == share_amount(pool as int, pct as int));
                assert(sum_shares(split.take(k as int + 1), pool as int) == sum_shares(
                    split.take(k as int),
                    pool as int,
                ) + share);
                assert(sum_shares(split.take(k as int + 1), pool as int) <= pool);
                assert(share as int <= pool - sum_shares(split.take(k as int), pool as int));
                lemma_shares_to_bounds(split.take(k as int), pool as int, recipient);
            }
            let ghost artists_pre = self.artists@;
            match self.artists.remove(&recipient) {
                Some(rec) => {
                    proof {
                        assert(artists_pre.contains_key(recipient));
                        assert(rec == artists_pre[recipient]);
                        assert(rec.revenue_balance + share <= i128::MAX);
                    }
                    let updated = Artist {
                        user_id: rec.user_id,
                        artist_name: rec.artist_name,
                        revenue_balance: rec.revenue_balance + share,
                        verified: rec.verified,
                    };
                    self.artists.insert(recipient, updated);
                    proof {
                        assert(self.artists@ =~= artists_pre.insert(recipient, updated));
                        assert(self.artists@.dom() =~= artists_pre.dom());
                    }
                },
                None => {},
            }
            proof {
                if recipient != contract_acct {
                    assert(shares_to(split.take(k as int), pool as int, recipient)
                        <= sum_shares(split.take(k as int), pool as int));
                    assert(led.bal(recipient) + share <= i128::MAX);
                }
            }
            let tr2 = led.transfer(contract_acct, recipient, share);
            proof {
                assert(tr2 is Ok);
                assert forall|a: u64|
                    led.bal(a) == led1.bal(a) + shares_to(
                        split.take(k as int + 1),
                        pool as int,
                        a,
                    ) - (if a == contract_acct {
                        sum_shares(split.take(k as int + 1), pool as int)
                    } else {
                        0
                    }) by {
                    lemma_take_step(split, pool as int, a, k as int);
                }
                assert forall|a: u64| old(self).artists@.contains_key(a) implies {
                    let pre = old(self).artists@[a];
                    let post = #[trigger] self.artists@[a];
                    &&& post.revenue_balance == pre.revenue_balance + shares_to(
                        split.take(k as int + 1),
                        pool as int,
                        a,
                    )
                    &&& post.user_id == pre.user_id
                    &&& post.artist_name == pre.artist_name
                    &&& post.verified == pre.verified
                } by {
                    lemma_take_step(split, pool as int, a, k as int);
                }
            }
            k = k + 1;
        }
        proof {
            assert(split.take(n as int) =~= split);
            assert forall|a: u64|
                self.artists@.contains_key(a) implies (#[trigger] self.artists@[
                a
            ]).revenue_balance >= 0 && self.artists@[a].user_id == a by {
                assert(old(self).artists@.contains_key(a));
                lemma_shares_to_bounds(split, pool as int, a);
            }
        }
    }

    /// The one operation that moves value in: prices the track at the
    /// table's multiplier, collects the payment from the requester into
    /// the custodial account — the only step that can fail for lack of
    /// balance, and it fails before any state changes — then, all or
    /// nothing: writes an immutable receipt, appends the track to the
    /// table's queue, consumes one license, counts one play, fans the
    /// payment out to platform and royalty recipients, and publishes the
    /// request. Enqueueing alone never starts playback; the first queued
    /// track plays only once the queue is advanced.
    pub fn request_track(
        &mut self,
        led: &mut TokenLedger,
        requester: u64,
        track_id: u64,
        table_id: u64,
        now: u64,
    ) -> (r: Result<u64, Error>)
        requires
            old(self).wf(),
            old(led).wf(),
            old(self).requests@.len() < u32::MAX,
            forall|a: u64|
                #[trigger] old(led).bal(a) + old(self).request_price(track_id, table_id)
                    <= i128::MAX,
            forall|a: u64|
                old(self).artists@.contains_key(a) ==> (#[trigger] old(self).artists@[
                    a
                ]).revenue_balance + old(self).request_price(track_id, table_id) <= i128::MAX,
        ensures
            final(self).wf(),
            final(led).wf(),
            r is Ok <==> {
                &&& old(self).is_registered(requester)
                &&& old(self).has_table(table_id)
                &&& has_member(old(self).table_of(table_id).members@, requester)
                &&& old(self).has_track(track_id)
                &&& old(self).track_of(track_id).licenses_remaining > 0
                &&& old(led).bal(requester) >= old(self).request_price(track_id, table_id)
            },
            !old(self).is_registered(requester) ==> r == Result::<u64, Error>::Err(
                Error::UserNotRegistered,
            ),
            old(self).is_registered(requester) && !(old(self).has_table(table_id) && has_member(
                old(self).table_of(table_id).members@,
                requester,
            )) ==> r == Result::<u64, Error>::Err(Error::NotAMember),
            old(self).is_registered(requester) && old(self).has_table(table_id) && has_member(
                old(self).table_of(table_id).members@,
                requester,
            ) && !old(self).has_track(track_id) ==> r == Result::<u64, Error>::Err(Error::NotFound),
            old(self).is_registered(requester) && old(self).has_table(table_id) && has_member(
                old(self).table_of(table_id).members@,
                requester,
            ) && old(self).has_track(track_id) && old(self).track_of(track_id).licenses_remaining
                == 0 ==> r == Result::<u64, Error>::Err(Error::NoLicenses),
            old(self).is_registered(requester) && old(self).has_table(table_id) && has_member(
                old(self).table_of(table_id).members@,
                requester,
            ) && old(self).has_track(track_id) && old(self).track_of(track_id).licenses_remaining
                > 0 && old(led).bal(requester) < old(self).request_price(track_id, table_id) ==> r
                == Result::<u64, Error>::Err(Error::PaymentFailed),
            r is Err ==> unchanged(*old(self), *final(self)) && *final(led) == *old(led),
            r matches Ok(rid) ==> {
                let price = old(self).request_price(track_id, table_id);
                let fee = fee_amount(price, old(self).platform_fee as int);
                let pool = royalty_pool(price, old(self).platform_fee as int);
                let split = old(self).track_of(track_id).royalty_split@;
                let pre_track = old(self).track_of(track_id);
                let pre_table = old(self).table_of(table_id);
                let post_table = final(self).table_of(table_id);
                &&& rid == old(self).requests@.len() + 1
                &&& final(self).requests@ == old(self).requests@.push(
                    (TrackRequest {
                        request_id: rid,
                        requester,
                        track_id,
                        table_id,
                        timestamp: now,
                        amount_paid: price as i128,
                    }),
                )
                &&& final(self).tracks@ == old(self).tracks@.update(
                    track_id - 1,
                    (Track {
                        play_count: (pre_track.play_count + 1) as u32,
                        licenses_remaining: (pre_track.licenses_remaining - 1) as u32,
                        ..pre_track
                    }),
                )
                &&& final(self).tables@ == old(self).tables@.update(table_id - 1, post_table)
                &&& post_table.queue@ == pre_table.queue@.push(track_id)
                &&& post_table == (JukeboxTable { queue: post_table.queue, ..pre_table })
                &&& forall|a: u64|
                    final(led).bal(a) == old(led).bal(a) - (if a == requester {
                        price
                    } else {
                        0
                    }) + (if a == old(self).contract_account {
                        price - fee - sum_shares(split, pool)
                    } else {
                        0
                    }) + (if a == old(self).admin {
                        fee
                    } else {
                        0
                    }) + shares_to(split, pool, a)
                &&& final(self).artists@.dom() == old(self).artists@.dom()
                &&& forall|a: u64|
                    old(self).artists@.contains_key(a) ==> {
                        let pre = old(self).artists@[a];
                        let post = #[trigger] final(self).artists@[a];
                        &&& post.revenue_balance == pre.revenue_balance + shares_to(
                            split,
                            pool,
                            a,
                        )
                        &&& post.user_id == pre.user_id
                        &&& post.artist_name == pre.artist_name
                        &&& post.verified == pre.verified
                    }
                &&& final(self).events@ == old(self).events@.push(
                    ContractEvent::TrackRequested(rid),
                )
                &&& same_config(*old(self), *final(self))
                &&& same_users(*old(self), *final(self))
            },
    {
        if !self.users.contains_key(&requester) {
            return Err(Error::UserNotRegistered);
        }
        if table_id < 1 || table_id > self.tables.len() as u64 {
            return Err(Error::NotAMember);
        }
        let tbi = (table_id - 1) as usize;
        if !self.tables[tbi].is_member(requester) {
            return Err(Error::NotAMember);
        }
        if track_id < 1 || track_id > self.tracks.len() as u64 {
            return Err(Error::NotFound);
        }
        let ti = (track_id - 1) as usize;
        if self.tracks[ti].licenses_remaining == 0 {
            return Err(Error::NoLicenses);
        }
        let base = self.tracks[ti].base_price;
        let mult = self.tables[tbi].price_multiplier;
        proof {
            lemma_price_bounds(base as int, mult as int);
        }
        let price = base * (mult as i128) / (BPS_DENOM as i128);
        let contract_acct = self.contract_account;
        let ghost led0 = *led;
        proof {
            assert(price as int == old(self).request_price(track_id, table_id));
            led.lemma_nonneg(contract_acct);
        }
        match led.transfer(requester, contract_acct, price) {
            Ok(_) => {},
            Err(_) => {
                return Err(Error::PaymentFailed);
            },
        }
        let rid = self.requests.len() as u64 + 1;
        let receipt = TrackRequest {
            request_id: rid,
            requester,
            track_id,
            table_id,
            timestamp: now,
            amount_paid: price,
        };
        self.requests.push(receipt);
        let t = &mut self.tables[tbi];
        t.queue.push(track_id);
        let tr = &mut self.tracks[ti];
        tr.licenses_remaining = tr.licenses_remaining - 1;
        tr.play_count = tr.play_count + 1;
        let ghost mid = *self;
        proof {
            assert(mid.tracks@[ti as int].royalty_split@ == old(self).track_of(
                track_id,
            ).royalty_split@);
            assert forall|a: u64| a != contract_acct implies led.bal(a) + price
                <= i128::MAX by {
                assert(led0.bal(a) + price <= i128::MAX);
            }
            assert forall|a: u64|
                mid.artists@.contains_key(a) implies (#[trigger] mid.artists@[
                a
            ]).revenue_balance + price <= i128::MAX by {
                assert(old(self).artists@[a] == mid.artists@[a]);
            }
            assert(mid.wf());
        }
        self.distribute_royalties(led, ti, price);
        self.events.push(ContractEvent::TrackRequested(rid));
        Ok(rid)
    }

    /// Pays an artist its accumulated pending revenue: the record is
    /// zeroed and exactly the pre-withdrawal balance is transferred from
    /// the custodial account. The record is zeroed before the transfer
    /// is made, so a re-entering transfer step could not withdraw twice;
    /// a custodial shortfall fails the whole call with nothing changed.
    pub fn withdraw_revenue(&mut self, led: &mut TokenLedger, artist: u64) -> (r: Result<
        i128,
        Error,
    >)
        requires
            old(self).wf(),
            old(led).wf(),
            old(self).is_artist(artist) ==> old(led).bal(artist) + old(self).artists@[
                artist
            ].revenue_balance <= i128::MAX,
        ensures
            final(self).wf(),
            final(led).wf(),
            r is Ok <==> old(self).is_artist(artist) && old(led).bal(old(self).contract_account)
                >= old(self).artists@[artist].revenue_balance,
            !old(self).is_artist(artist) ==> r == Result::<i128, Error>::Err(Error::NotAnArtist),
            old(self).is_artist(artist) && old(led).bal(old(self).contract_account) < old(
                self,
            ).artists@[artist].revenue_balance ==> r == Result::<i128, Error>::Err(
                Error::PaymentFailed,
            ),
            r is Err ==> unchanged(*old(self), *final(self)) && *final(led) == *old(led),
            r matches Ok(amount) ==> {
                &&& amount == old(self).artists@[artist].revenue_balance
                &&& final(self).artists@ == old(self).artists@.insert(
                    artist,
                    (Artist { revenue_balance: 0, ..old(self).artists@[artist] }),
                )
                &&& final(self).artists@[artist].revenue_balance == 0
                &&& forall|a: u64|
                    final(led).bal(a) == old(led).bal(a) - (if a == old(
                        self,
                    ).contract_account {
                        amount as int
                    } else {
                        0
                    }) + (if a == artist {
                        amount as int
                    } else {
                        0
                    })
                &&& same_config(*old(self), *final(self))
                &&& same_users(*old(self), *final(self))
                &&& same_tracks(*old(self), *final(self))
                &&& same_tables(*old(self), *final(self))
                &&& same_requests(*old(self), *final(self))
                &&& same_events(*old(self), *final(self))
            },
    {
        let amount = match self.artists.get(&artist) {
            Some(a) => a.revenue_balance,
            None => {
                return Err(Error::NotAnArtist);
            },
        };
        let contract_acct = self.contract_account;
        let available = led.balance_of(contract_acct);
        if available < amount {
            return Err(Error::PaymentFailed);
        }
        let ghost artists_pre = self.artists@;
        match self.artists.remove(&artist) {
            Some(rec) => {
                let zeroed = Artist {
                    user_id: rec.user_id,
                    artist_name: rec.artist_name,
                    revenue_balance: 0,
                    verified: rec.verified,
                };
                self.artists.insert(artist, zeroed);
                proof {
                    assert(self.artists@ =~= artists_pre.insert(artist, zeroed));
                }
            },
            None => {
                proof {
                    assert(false);
                }
            },
        }
        let tr = led.transfer(contract_acct, artist, amount);
        proof {
            assert(tr is Ok);
        }
        Ok(amount)
    }
}

} // verus!
