//! Registration, minting, catalog updates, and read-only queries.

use metajuke::{ContractEvent, Error, MetaJuke};

const ADMIN: u64 = 1;
const CONTRACT: u64 = 2;
const USER: u64 = 50;
const OTHER: u64 = 51;

fn registry_setup() -> MetaJuke {
    MetaJuke::initialize(ADMIN, CONTRACT, 500).unwrap()
}

#[test]
fn user_registration_checks_token_ownership() {
    let mut engine = registry_setup();
    // Holding no unit of the token: rejected.
    assert_eq!(
        engine.register_user(USER, 300, String::from("uri"), 0),
        Err(Error::Unauthorized)
    );
    engine
        .register_user(USER, 300, String::from("uri"), 1)
        .unwrap();
    let u = engine.get_user(USER).unwrap();
    assert_eq!(u.profile_nft, 300);
    assert_eq!(u.avatar_uri, "uri");
    assert_eq!(u.reputation, 100);
    assert!(u.is_active);
    // Registering twice: rejected.
    assert_eq!(
        engine.register_user(USER, 301, String::from("uri"), 1),
        Err(Error::AlreadyExists)
    );
    // A token already bound to another user: rejected.
    assert_eq!(
        engine.register_user(OTHER, 300, String::from("uri"), 1),
        Err(Error::Unauthorized)
    );
    assert!(engine.verify_nft_ownership(USER, 300, 1));
    assert!(!engine.verify_nft_ownership(OTHER, 300, 1));
    assert!(engine.verify_nft_ownership(OTHER, 301, 1));
}

#[test]
fn artist_registration_requires_user() {
    let mut engine = registry_setup();
    assert_eq!(
        engine.register_artist(USER, String::from("A")),
        Err(Error::UserNotRegistered)
    );
    engine
        .register_user(USER, 300, String::from("uri"), 1)
        .unwrap();
    engine.register_artist(USER, String::from("A")).unwrap();
    let a = engine.get_artist(USER).unwrap();
    assert_eq!(a.user_id, USER);
    assert_eq!(a.artist_name, "A");
    assert_eq!(a.revenue_balance, 0);
    assert!(!a.verified);
    assert_eq!(
        engine.register_artist(USER, String::from("A")),
        Err(Error::AlreadyExists)
    );
}

#[test]
fn profile_update_replaces_avatar_only() {
    let mut engine = registry_setup();
    assert_eq!(
        engine.update_user_profile(USER, String::from("new")),
        Err(Error::NotFound)
    );
    engine
        .register_user(USER, 300, String::from("old"), 1)
        .unwrap();
    engine
        .update_user_profile(USER, String::from("new"))
        .unwrap();
    let u = engine.get_user(USER).unwrap();
    assert_eq!(u.avatar_uri, "new");
    assert_eq!(u.profile_nft, 300);
}

#[test]
fn mint_requires_split_summing_to_one_hundred() {
    let mut engine = registry_setup();
    engine
        .register_user(USER, 300, String::from("uri"), 1)
        .unwrap();
    assert_eq!(
        engine.mint_track(
            USER,
            String::from("S"),
            1000,
            5,
            String::from("m"),
            Vec::new(),
            vec![(USER, 100)],
        ),
        Err(Error::NotAnArtist)
    );
    engine.register_artist(USER, String::from("A")).unwrap();
    // 60 + 30 != 100: rejected.
    assert_eq!(
        engine.mint_track(
            USER,
            String::from("S"),
            1000,
            5,
            String::from("m"),
            Vec::new(),
            vec![(USER, 60), (OTHER, 30)],
        ),
        Err(Error::InvalidArgument)
    );
    // 60 + 50 != 100: rejected.
    assert_eq!(
        engine.mint_track(
            USER,
            String::from("S"),
            1000,
            5,
            String::from("m"),
            Vec::new(),
            vec![(USER, 60), (OTHER, 50)],
        ),
        Err(Error::InvalidArgument)
    );
    // A negative base price: rejected.
    assert_eq!(
        engine.mint_track(
            USER,
            String::from("S"),
            -1,
            5,
            String::from("m"),
            Vec::new(),
            vec![(USER, 100)],
        ),
        Err(Error::InvalidArgument)
    );
    let track = engine
        .mint_track(
            USER,
            String::from("S"),
            1000,
            5,
            String::from("m"),
            vec![OTHER],
            vec![(USER, 60), (OTHER, 40)],
        )
        .unwrap();
    assert_eq!(track, 1);
    let t = engine.get_track(track).unwrap();
    assert_eq!(t.title, "S");
    assert_eq!(t.artist_id, USER);
    assert_eq!(t.collaborators, vec![OTHER]);
    assert_eq!(t.play_count, 0);
    assert_eq!(t.base_price, 1000);
    assert_eq!(t.licenses_remaining, 5);
    assert_eq!(t.royalty_split, vec![(USER, 60), (OTHER, 40)]);
    assert_eq!(engine.get_total_tracks(), 1);
    assert_eq!(
        engine.get_events()[engine.get_events().len() - 1],
        ContractEvent::TrackMinted(track)
    );
}

#[test]
fn track_update_is_artist_only_and_partial() {
    let mut engine = registry_setup();
    engine
        .register_user(USER, 300, String::from("uri"), 1)
        .unwrap();
    engine.register_artist(USER, String::from("A")).unwrap();
    let track = engine
        .mint_track(
            USER,
            String::from("S"),
            1000,
            5,
            String::from("m"),
            Vec::new(),
            vec![(USER, 100)],
        )
        .unwrap();
    assert_eq!(
        engine.update_track(USER, 77, 1200, 9, String::from("m2")),
        Err(Error::NotFound)
    );
    assert_eq!(
        engine.update_track(OTHER, track, 1200, 9, String::from("m2")),
        Err(Error::Unauthorized)
    );
    assert_eq!(
        engine.update_track(USER, track, -5, 9, String::from("m2")),
        Err(Error::InvalidArgument)
    );
    engine
        .update_track(USER, track, 1200, 9, String::from("m2"))
        .unwrap();
    let t = engine.get_track(track).unwrap();
    assert_eq!(t.base_price, 1200);
    assert_eq!(t.licenses_remaining, 9);
    assert_eq!(t.metadata_uri, "m2");
    assert_eq!(t.title, "S");
}

#[test]
fn create_table_requires_registration() {
    let mut engine = registry_setup();
    assert_eq!(
        engine.create_table(USER, String::from("T"), 2, 10000),
        Err(Error::UserNotRegistered)
    );
    engine
        .register_user(USER, 300, String::from("uri"), 1)
        .unwrap();
    let table = engine
        .create_table(USER, String::from("T"), 2, 10000)
        .unwrap();
    assert_eq!(table, 1);
    let t = engine.get_table(table).unwrap();
    assert_eq!(t.owner, USER);
    assert_eq!(t.name, "T");
    assert!(t.is_active);
    assert_eq!(t.current_track, None);
    assert_eq!(t.member_count, 0);
}

#[test]
fn queries_default_for_unknown_identifiers() {
    let engine = registry_setup();
    assert!(engine.get_user(USER).is_none());
    assert!(engine.get_artist(USER).is_none());
    assert!(engine.get_track(1).is_none());
    assert!(engine.get_table(1).is_none());
    assert!(engine.get_request(1).is_none());
    assert!(engine.get_queue(1).is_empty());
    assert!(!engine.is_table_member(USER, 1));
    assert!(!engine.is_table_admin(USER, 1));
    assert_eq!(engine.get_table_member_count(1), 0);
    assert!(!engine.has_voted_to_skip(USER, 1));
    assert_eq!(engine.get_total_tracks(), 0);
    assert_eq!(engine.get_platform_stats(), (0, 0, 0));
}

#[test]
fn platform_stats_count_entities() {
    let mut engine = registry_setup();
    engine
        .register_user(USER, 300, String::from("uri"), 1)
        .unwrap();
    engine.register_artist(USER, String::from("A")).unwrap();
    engine
        .mint_track(
            USER,
            String::from("S"),
            1000,
            5,
            String::from("m"),
            Vec::new(),
            vec![(USER, 100)],
        )
        .unwrap();
    engine
        .create_table(USER, String::from("T"), 2, 10000)
        .unwrap();
    engine
        .create_table(USER, String::from("T2"), 2, 10000)
        .unwrap();
    assert_eq!(engine.get_platform_stats(), (1, 2, 0));
}
