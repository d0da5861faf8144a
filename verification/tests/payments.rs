//! Pricing, payment collection, royalty distribution, and withdrawal.

use metajuke::{ContractEvent, Error, MetaJuke, TokenLedger};

const ADMIN: u64 = 1;
const CONTRACT: u64 = 2;
const ARTIST: u64 = 20;
const COWRITER: u64 = 21;
const FAN: u64 = 30;

/// An engine with a 500 bps platform fee, a registered artist and fan,
/// and a funded fan account.
fn payment_setup(fan_funds: i128) -> (MetaJuke, TokenLedger) {
    let mut engine = MetaJuke::initialize(ADMIN, CONTRACT, 500).unwrap();
    let mut ledger = TokenLedger::new();
    engine
        .register_user(ARTIST, 200, String::from("uri:artist"), 1)
        .unwrap();
    engine
        .register_user(FAN, 201, String::from("uri:fan"), 1)
        .unwrap();
    engine
        .register_artist(ARTIST, String::from("Artist"))
        .unwrap();
    ledger.mint(FAN, fan_funds);
    (engine, ledger)
}

#[test]
fn pricing_and_single_recipient_distribution() {
    // base_price=1000, multiplier=15000 (1.5x), fee=500 bps, one 100%
    // recipient: final_price=1500, fee=75, pool=1425, recipient gets 1425.
    let (mut engine, mut ledger) = payment_setup(10_000);
    let track = engine
        .mint_track(
            ARTIST,
            String::from("Song"),
            1000,
            5,
            String::from("meta"),
            Vec::new(),
            vec![(ARTIST, 100)],
        )
        .unwrap();
    let table = engine
        .create_table(ARTIST, String::from("T"), 2, 15000)
        .unwrap();
    engine.join_table(FAN, table, 1).unwrap();
    let request = engine
        .request_track(&mut ledger, FAN, track, table, 99)
        .unwrap();

    let receipt = engine.get_request(request).unwrap();
    assert_eq!(receipt.amount_paid, 1500);
    assert_eq!(receipt.requester, FAN);
    assert_eq!(receipt.track_id, track);
    assert_eq!(receipt.table_id, table);
    assert_eq!(receipt.timestamp, 99);

    assert_eq!(ledger.balance_of(FAN), 10_000 - 1500);
    assert_eq!(ledger.balance_of(ADMIN), 75);
    assert_eq!(ledger.balance_of(ARTIST), 1425);
    // fee + royalty_pool == payment: nothing left on the custodial
    // account for a single 100% recipient.
    assert_eq!(ledger.balance_of(CONTRACT), 0);
    assert_eq!(
        engine.get_artist(ARTIST).unwrap().revenue_balance,
        1425
    );

    let t = engine.get_track(track).unwrap();
    assert_eq!(t.play_count, 1);
    assert_eq!(t.licenses_remaining, 4);
    assert_eq!(engine.get_queue(table), vec![track]);
    let events = engine.get_events();
    assert_eq!(
        events[events.len() - 1],
        ContractEvent::TrackRequested(request)
    );
}

#[test]
fn truncation_dust_stays_on_custodial_account() {
    // pool=1425 split 33/33/34: shares 470+470+484=1424, dust 1.
    let (mut engine, mut ledger) = payment_setup(10_000);
    engine
        .register_user(COWRITER, 202, String::from("uri:cow"), 1)
        .unwrap();
    engine
        .register_artist(COWRITER, String::from("Cowriter"))
        .unwrap();
    let outsider: u64 = 40;
    let track = engine
        .mint_track(
            ARTIST,
            String::from("Song"),
            1000,
            5,
            String::from("meta"),
            Vec::new(),
            vec![(ARTIST, 33), (COWRITER, 33), (outsider, 34)],
        )
        .unwrap();
    let table = engine
        .create_table(ARTIST, String::from("T"), 2, 15000)
        .unwrap();
    engine.join_table(FAN, table, 1).unwrap();
    engine
        .request_track(&mut ledger, FAN, track, table, 99)
        .unwrap();

    assert_eq!(ledger.balance_of(ADMIN), 75);
    assert_eq!(ledger.balance_of(ARTIST), 470);
    assert_eq!(ledger.balance_of(COWRITER), 470);
    // An unregistered recipient still receives the transfer but has no
    // withdrawable balance tracked.
    assert_eq!(ledger.balance_of(outsider), 484);
    assert!(engine.get_artist(outsider).is_none());
    assert_eq!(ledger.balance_of(CONTRACT), 1);
    assert_eq!(engine.get_artist(ARTIST).unwrap().revenue_balance, 470);
    assert_eq!(engine.get_artist(COWRITER).unwrap().revenue_balance, 470);
}

#[test]
fn exhausted_track_rejects_request_and_changes_nothing() {
    let (mut engine, mut ledger) = payment_setup(10_000);
    let track = engine
        .mint_track(
            ARTIST,
            String::from("Song"),
            1000,
            0,
            String::from("meta"),
            Vec::new(),
            vec![(ARTIST, 100)],
        )
        .unwrap();
    let table = engine
        .create_table(ARTIST, String::from("T"), 2, 15000)
        .unwrap();
    engine.join_table(FAN, table, 1).unwrap();
    assert_eq!(
        engine.request_track(&mut ledger, FAN, track, table, 99),
        Err(Error::NoLicenses)
    );
    // Queue, balances, and counters are all unchanged.
    assert!(engine.get_queue(table).is_empty());
    assert_eq!(ledger.balance_of(FAN), 10_000);
    assert_eq!(ledger.balance_of(ADMIN), 0);
    assert_eq!(ledger.balance_of(CONTRACT), 0);
    assert_eq!(engine.get_track(track).unwrap().play_count, 0);
    assert_eq!(engine.get_platform_stats(), (1, 1, 0));
    assert_eq!(engine.get_artist(ARTIST).unwrap().revenue_balance, 0);
}

#[test]
fn insufficient_balance_fails_before_any_mutation() {
    let (mut engine, mut ledger) = payment_setup(100);
    let track = engine
        .mint_track(
            ARTIST,
            String::from("Song"),
            1000,
            5,
            String::from("meta"),
            Vec::new(),
            vec![(ARTIST, 100)],
        )
        .unwrap();
    let table = engine
        .create_table(ARTIST, String::from("T"), 2, 15000)
        .unwrap();
    engine.join_table(FAN, table, 1).unwrap();
    assert_eq!(
        engine.request_track(&mut ledger, FAN, track, table, 99),
        Err(Error::PaymentFailed)
    );
    assert_eq!(ledger.balance_of(FAN), 100);
    assert!(engine.get_queue(table).is_empty());
    assert_eq!(engine.get_track(track).unwrap().licenses_remaining, 5);
    assert_eq!(engine.get_platform_stats(), (1, 1, 0));
}

#[test]
fn request_gating_checks_in_order() {
    let (mut engine, mut ledger) = payment_setup(10_000);
    let track = engine
        .mint_track(
            ARTIST,
            String::from("Song"),
            1000,
            5,
            String::from("meta"),
            Vec::new(),
            vec![(ARTIST, 100)],
        )
        .unwrap();
    let table = engine
        .create_table(ARTIST, String::from("T"), 2, 15000)
        .unwrap();
    assert_eq!(
        engine.request_track(&mut ledger, 99, track, table, 1),
        Err(Error::UserNotRegistered)
    );
    assert_eq!(
        engine.request_track(&mut ledger, FAN, track, table, 1),
        Err(Error::NotAMember)
    );
    engine.join_table(FAN, table, 1).unwrap();
    assert_eq!(
        engine.request_track(&mut ledger, FAN, 77, table, 1),
        Err(Error::NotFound)
    );
}

#[test]
fn withdraw_zeroes_balance_and_transfers_exactly_it() {
    let (mut engine, mut ledger) = payment_setup(10_000);
    let track = engine
        .mint_track(
            ARTIST,
            String::from("Song"),
            1000,
            5,
            String::from("meta"),
            Vec::new(),
            vec![(ARTIST, 100)],
        )
        .unwrap();
    let table = engine
        .create_table(ARTIST, String::from("T"), 2, 15000)
        .unwrap();
    engine.join_table(FAN, table, 1).unwrap();
    engine
        .request_track(&mut ledger, FAN, track, table, 99)
        .unwrap();
    // The share was already paid out at distribution, so the custodial
    // account does not cover the tracked balance by itself.
    assert_eq!(
        engine.withdraw_revenue(&mut ledger, ARTIST),
        Err(Error::PaymentFailed)
    );
    assert_eq!(engine.get_artist(ARTIST).unwrap().revenue_balance, 1425);
    // Once the custodial account is funded, the withdrawal pays exactly
    // the pre-withdrawal balance and leaves the record at zero.
    ledger.mint(CONTRACT, 2_000);
    let artist_before = ledger.balance_of(ARTIST);
    assert_eq!(engine.withdraw_revenue(&mut ledger, ARTIST), Ok(1425));
    assert_eq!(engine.get_artist(ARTIST).unwrap().revenue_balance, 0);
    assert_eq!(ledger.balance_of(ARTIST), artist_before + 1425);
    assert_eq!(ledger.balance_of(CONTRACT), 2_000 - 1425);
    // A second withdrawal moves nothing.
    assert_eq!(engine.withdraw_revenue(&mut ledger, ARTIST), Ok(0));
    assert_eq!(ledger.balance_of(ARTIST), artist_before + 1425);
    assert_eq!(
        engine.withdraw_revenue(&mut ledger, FAN),
        Err(Error::NotAnArtist)
    );
}

#[test]
fn duplicate_recipient_collects_both_shares() {
    let (mut engine, mut ledger) = payment_setup(10_000);
    let track = engine
        .mint_track(
            ARTIST,
            String::from("Song"),
            1000,
            5,
            String::from("meta"),
            Vec::new(),
            vec![(ARTIST, 50), (ARTIST, 50)],
        )
        .unwrap();
    let table = engine
        .create_table(ARTIST, String::from("T"), 2, 15000)
        .unwrap();
    engine.join_table(FAN, table, 1).unwrap();
    engine
        .request_track(&mut ledger, FAN, track, table, 99)
        .unwrap();
    // pool=1425, twice 50%: 712 + 712, dust 1.
    assert_eq!(ledger.balance_of(ARTIST), 1424);
    assert_eq!(engine.get_artist(ARTIST).unwrap().revenue_balance, 1424);
    assert_eq!(ledger.balance_of(CONTRACT), 1);
}

#[test]
fn empty_split_cannot_sum_to_one_hundred() {
    let (mut engine, _ledger) = payment_setup(0);
    assert_eq!(
        engine.mint_track(
            ARTIST,
            String::from("Song"),
            1000,
            5,
            String::from("meta"),
            Vec::new(),
            Vec::new(),
        ),
        Err(Error::InvalidArgument)
    );
}

#[test]
fn ledger_transfer_is_atomic() {
    let mut ledger = TokenLedger::new();
    ledger.mint(FAN, 100);
    assert_eq!(
        ledger.transfer(FAN, ARTIST, 101),
        Err(Error::PaymentFailed)
    );
    assert_eq!(ledger.balance_of(FAN), 100);
    assert_eq!(ledger.balance_of(ARTIST), 0);
    ledger.transfer(FAN, ARTIST, 40).unwrap();
    assert_eq!(ledger.balance_of(FAN), 60);
    assert_eq!(ledger.balance_of(ARTIST), 40);
}

#[test]
fn fee_update_is_capped_and_admin_only() {
    let (mut engine, _ledger) = payment_setup(0);
    assert_eq!(
        engine.update_platform_fee(FAN, 100),
        Err(Error::Unauthorized)
    );
    assert_eq!(
        engine.update_platform_fee(ADMIN, 2001),
        Err(Error::InvalidArgument)
    );
    engine.update_platform_fee(ADMIN, 2000).unwrap();
    assert_eq!(MetaJuke::initialize(ADMIN, CONTRACT, 2001).err(), Some(Error::InvalidArgument));
}

#[test]
fn zero_fee_sends_whole_payment_to_the_pool() {
    let mut engine = MetaJuke::initialize(ADMIN, CONTRACT, 0).unwrap();
    let mut ledger = TokenLedger::new();
    engine
        .register_user(ARTIST, 200, String::from("uri:artist"), 1)
        .unwrap();
    engine
        .register_user(FAN, 201, String::from("uri:fan"), 1)
        .unwrap();
    engine
        .register_artist(ARTIST, String::from("Artist"))
        .unwrap();
    ledger.mint(FAN, 10_000);
    let track = engine
        .mint_track(
            ARTIST,
            String::from("Song"),
            1000,
            5,
            String::from("meta"),
            Vec::new(),
            vec![(ARTIST, 100)],
        )
        .unwrap();
    let table = engine
        .create_table(ARTIST, String::from("T"), 2, 10000)
        .unwrap();
    engine.join_table(FAN, table, 1).unwrap();
    engine
        .request_track(&mut ledger, FAN, track, table, 1)
        .unwrap();
    assert_eq!(ledger.balance_of(ADMIN), 0);
    assert_eq!(ledger.balance_of(ARTIST), 1000);
}
