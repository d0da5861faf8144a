//! Table sessions: membership, skip voting, queue advance, and status.

use metajuke::{ContractEvent, Error, MetaJuke, TokenLedger};

const ADMIN: u64 = 1;
const CONTRACT: u64 = 2;
const OWNER: u64 = 10;
const ALICE: u64 = 11;
const BOB: u64 = 12;

/// An engine with three registered users (OWNER, ALICE, BOB) and a
/// funded ledger.
fn session_setup() -> (MetaJuke, TokenLedger) {
    let mut engine = MetaJuke::initialize(ADMIN, CONTRACT, 500).unwrap();
    let mut ledger = TokenLedger::new();
    engine
        .register_user(OWNER, 100, String::from("uri:owner"), 1)
        .unwrap();
    engine
        .register_user(ALICE, 101, String::from("uri:alice"), 1)
        .unwrap();
    engine
        .register_user(BOB, 102, String::from("uri:bob"), 1)
        .unwrap();
    ledger.mint(OWNER, 1_000_000);
    ledger.mint(ALICE, 1_000_000);
    ledger.mint(BOB, 1_000_000);
    (engine, ledger)
}

/// A table with a playing track: OWNER minted a track (as artist), all
/// three joined, ALICE requested it, and the queue was advanced once.
fn playing_table(threshold: u32) -> (MetaJuke, TokenLedger, u64, u64) {
    let (mut engine, mut ledger) = session_setup();
    engine
        .register_artist(OWNER, String::from("The Owner"))
        .unwrap();
    let track = engine
        .mint_track(
            OWNER,
            String::from("Song"),
            1000,
            10,
            String::from("meta"),
            Vec::new(),
            vec![(OWNER, 100)],
        )
        .unwrap();
    let table = engine
        .create_table(OWNER, String::from("Table"), threshold, 10000)
        .unwrap();
    engine.join_table(OWNER, table, 1).unwrap();
    engine.join_table(ALICE, table, 2).unwrap();
    engine.join_table(BOB, table, 3).unwrap();
    engine
        .request_track(&mut ledger, ALICE, track, table, 50)
        .unwrap();
    let popped = engine.advance_queue(table).unwrap();
    assert_eq!(popped, Some(track));
    (engine, ledger, track, table)
}

#[test]
fn join_and_leave_update_membership() {
    let (mut engine, _ledger) = session_setup();
    let table = engine
        .create_table(OWNER, String::from("T"), 2, 10000)
        .unwrap();
    assert_eq!(table, 1);
    assert!(!engine.is_table_member(ALICE, table));
    engine.join_table(ALICE, table, 7).unwrap();
    assert!(engine.is_table_member(ALICE, table));
    assert_eq!(engine.get_table_member_count(table), 1);
    assert_eq!(
        engine.join_table(ALICE, table, 8),
        Err(Error::AlreadyMember)
    );
    engine.leave_table(ALICE, table).unwrap();
    assert!(!engine.is_table_member(ALICE, table));
    assert_eq!(engine.get_table_member_count(table), 0);
    assert_eq!(engine.leave_table(ALICE, table), Err(Error::NotAMember));
}

#[test]
fn join_requires_registration_and_table() {
    let (mut engine, _ledger) = session_setup();
    let table = engine
        .create_table(OWNER, String::from("T"), 2, 10000)
        .unwrap();
    assert_eq!(engine.join_table(99, table, 1), Err(Error::UserNotRegistered));
    assert_eq!(engine.join_table(ALICE, 77, 1), Err(Error::TableNotFound));
}

#[test]
fn closed_table_rejects_join_until_reactivated() {
    let (mut engine, _ledger) = session_setup();
    let table = engine
        .create_table(OWNER, String::from("T"), 2, 10000)
        .unwrap();
    engine.set_table_status(OWNER, table, false).unwrap();
    assert_eq!(engine.join_table(ALICE, table, 1), Err(Error::TableClosed));
    engine.set_table_status(OWNER, table, true).unwrap();
    engine.join_table(ALICE, table, 2).unwrap();
    assert!(engine.is_table_member(ALICE, table));
}

#[test]
fn status_is_owner_only_and_clears_session() {
    let (mut engine, mut ledger) = session_setup();
    engine
        .register_artist(OWNER, String::from("The Owner"))
        .unwrap();
    let track = engine
        .mint_track(
            OWNER,
            String::from("Song"),
            1000,
            10,
            String::from("meta"),
            Vec::new(),
            vec![(OWNER, 100)],
        )
        .unwrap();
    let table = engine
        .create_table(OWNER, String::from("T"), 2, 10000)
        .unwrap();
    engine.join_table(ALICE, table, 1).unwrap();
    engine
        .request_track(&mut ledger, ALICE, track, table, 2)
        .unwrap();
    assert_eq!(engine.get_queue(table), vec![track]);
    assert_eq!(
        engine.set_table_status(ALICE, table, false),
        Err(Error::Unauthorized)
    );
    engine.set_table_status(OWNER, table, false).unwrap();
    let t = engine.get_table(table).unwrap();
    assert!(!t.is_active);
    assert_eq!(t.current_track, None);
    assert!(engine.get_queue(table).is_empty());
}

#[test]
fn enqueue_does_not_start_playback() {
    let (mut engine, mut ledger) = session_setup();
    engine
        .register_artist(OWNER, String::from("The Owner"))
        .unwrap();
    let track = engine
        .mint_track(
            OWNER,
            String::from("Song"),
            1000,
            10,
            String::from("meta"),
            Vec::new(),
            vec![(OWNER, 100)],
        )
        .unwrap();
    let table = engine
        .create_table(OWNER, String::from("T"), 2, 10000)
        .unwrap();
    engine.join_table(ALICE, table, 1).unwrap();
    engine
        .request_track(&mut ledger, ALICE, track, table, 2)
        .unwrap();
    // The first queued track plays only once the queue is advanced.
    assert_eq!(engine.get_table(table).unwrap().current_track, None);
    let popped = engine.advance_queue(table).unwrap();
    assert_eq!(popped, Some(track));
    assert_eq!(engine.get_table(table).unwrap().current_track, Some(track));
    assert!(engine.get_queue(table).is_empty());
}

#[test]
fn advance_on_empty_queue_goes_idle_and_clears_votes() {
    let (mut engine, _ledger, _track, table) = playing_table(5);
    engine.vote_to_skip(ALICE, table).unwrap();
    assert!(engine.has_voted_to_skip(ALICE, table));
    // Queue is empty now; advancing goes idle and still clears the ballot.
    let popped = engine.advance_queue(table).unwrap();
    assert_eq!(popped, None);
    assert_eq!(engine.get_table(table).unwrap().current_track, None);
    assert!(!engine.has_voted_to_skip(ALICE, table));
    assert!(engine.get_table(table).unwrap().skip_votes.is_empty());
}

#[test]
fn two_distinct_voters_reach_threshold_on_third_call() {
    let (mut engine, mut ledger, track, table) = playing_table(2);
    // Queue a second play so the skip has something to advance to.
    engine
        .request_track(&mut ledger, BOB, track, table, 60)
        .unwrap();
    assert_eq!(engine.vote_to_skip(ALICE, table), Ok(false));
    // A repeat vote by the same member never reaches the threshold.
    assert_eq!(engine.vote_to_skip(ALICE, table), Ok(false));
    assert_eq!(engine.get_table(table).unwrap().skip_votes.len(), 1);
    // A second distinct member tips the tally: the queue advances.
    assert_eq!(engine.vote_to_skip(BOB, table), Ok(true));
    let t = engine.get_table(table).unwrap();
    assert_eq!(t.current_track, Some(track));
    assert!(t.skip_votes.is_empty());
    assert!(t.queue.is_empty());
}

#[test]
fn single_voter_voting_twice_never_skips() {
    let (mut engine, _ledger, _track, table) = playing_table(2);
    assert_eq!(engine.vote_to_skip(ALICE, table), Ok(false));
    assert_eq!(engine.vote_to_skip(ALICE, table), Ok(false));
    assert_eq!(engine.get_table(table).unwrap().skip_votes.len(), 1);
    assert!(engine.has_voted_to_skip(ALICE, table));
    assert!(!engine.has_voted_to_skip(BOB, table));
}

#[test]
fn vote_requires_current_track() {
    let (mut engine, _ledger) = session_setup();
    let table = engine
        .create_table(OWNER, String::from("T"), 2, 10000)
        .unwrap();
    assert_eq!(engine.vote_to_skip(ALICE, table), Err(Error::NoCurrentTrack));
    assert_eq!(engine.vote_to_skip(99, table), Err(Error::UserNotRegistered));
    assert_eq!(engine.vote_to_skip(ALICE, 77), Err(Error::TableNotFound));
}

#[test]
fn manual_advance_is_gated_to_owner_and_admins() {
    let (mut engine, mut ledger, track, table) = playing_table(2);
    engine
        .request_track(&mut ledger, BOB, track, table, 61)
        .unwrap();
    // A plain member may not skip by hand.
    assert_eq!(
        engine.advance_queue_public(ALICE, table),
        Err(Error::Unauthorized)
    );
    // A stranger may not either.
    assert_eq!(
        engine.advance_queue_public(99, table),
        Err(Error::Unauthorized)
    );
    assert_eq!(
        engine.advance_queue_public(OWNER, 77),
        Err(Error::TableNotFound)
    );
    // The owner may.
    assert_eq!(engine.advance_queue_public(OWNER, table), Ok(Some(track)));
    // A member promoted to admin may too (queue is empty: goes idle).
    engine.add_table_admin(OWNER, table, ALICE, 70).unwrap();
    assert_eq!(engine.advance_queue_public(ALICE, table), Ok(None));
    assert_eq!(engine.get_table(table).unwrap().current_track, None);
}

#[test]
fn admin_grant_and_revoke_rewrite_membership() {
    let (mut engine, _ledger) = session_setup();
    let table = engine
        .create_table(OWNER, String::from("T"), 2, 10000)
        .unwrap();
    engine.join_table(ALICE, table, 1).unwrap();
    assert_eq!(
        engine.add_table_admin(ALICE, table, BOB, 2),
        Err(Error::Unauthorized)
    );
    // Promoting a member flips its record and indexes it.
    engine.add_table_admin(OWNER, table, ALICE, 3).unwrap();
    assert!(engine.is_table_admin(ALICE, table));
    assert_eq!(engine.get_table_member_count(table), 1);
    // Promoting a non-member synthesizes a membership record.
    engine.add_table_admin(OWNER, table, BOB, 4).unwrap();
    assert!(engine.is_table_admin(BOB, table));
    assert!(engine.is_table_member(BOB, table));
    assert_eq!(engine.get_table_member_count(table), 2);
    // Demotion clears the index but keeps the (demoted) record.
    engine.remove_table_admin(OWNER, table, ALICE, 5).unwrap();
    assert!(!engine.is_table_admin(ALICE, table));
    assert!(engine.is_table_member(ALICE, table));
    assert_eq!(engine.get_table_member_count(table), 2);
}

#[test]
fn leaving_admin_keeps_admin_index_entry() {
    let (mut engine, _ledger) = session_setup();
    let table = engine
        .create_table(OWNER, String::from("T"), 2, 10000)
        .unwrap();
    engine.join_table(ALICE, table, 1).unwrap();
    engine.add_table_admin(OWNER, table, ALICE, 2).unwrap();
    engine.leave_table(ALICE, table).unwrap();
    // The membership record is gone, the admin index entry is not: the
    // two sets are maintained independently.
    assert!(!engine.is_table_member(ALICE, table));
    assert!(engine.is_table_admin(ALICE, table));
}

#[test]
fn session_events_are_published_in_order() {
    let (mut engine, _ledger) = session_setup();
    let table = engine
        .create_table(OWNER, String::from("T"), 2, 10000)
        .unwrap();
    engine.join_table(ALICE, table, 1).unwrap();
    engine.leave_table(ALICE, table).unwrap();
    engine.set_table_status(OWNER, table, false).unwrap();
    let events = engine.get_events();
    assert_eq!(
        &events[events.len() - 4..],
        &[
            ContractEvent::TableCreated(table),
            ContractEvent::MembershipChanged(table, ALICE, true, false),
            ContractEvent::MembershipChanged(table, ALICE, false, false),
            ContractEvent::TableStatusChanged(table, false),
        ]
    );
}

#[test]
fn update_table_is_owner_only() {
    let (mut engine, _ledger) = session_setup();
    let table = engine
        .create_table(OWNER, String::from("Old"), 2, 10000)
        .unwrap();
    assert_eq!(
        engine.update_table(ALICE, table, String::from("New"), 3, 12000),
        Err(Error::Unauthorized)
    );
    assert_eq!(
        engine.update_table(OWNER, 77, String::from("New"), 3, 12000),
        Err(Error::TableNotFound)
    );
    engine
        .update_table(OWNER, table, String::from("New"), 3, 12000)
        .unwrap();
    let t = engine.get_table(table).unwrap();
    assert_eq!(t.name, "New");
    assert_eq!(t.skip_threshold, 3);
    assert_eq!(t.price_multiplier, 12000);
}
