//! Requests that come by the inbox contract, and the session that reads them.

use freenet_bitcoin::freenet::ErrorKind;
use freenet_bitcoin::inbox::{
    Action, Ended, Ending, InboxEntry, InboxLimits, InboxRequest, InboxState, Lag, LagCause, Pass,
    Processor, Tips, WriteFault, MAX_WATCHES_PER_GHOSTKEY, MEDIAN_TIME_MARGIN_MS,
    WATCH_LIFETIME_MS,
};
use freenet_bitcoin::session::{
    connection_lost, floor_held, lag_grew, next_backoff, opening_floor, Driver, HostMessage,
    LagWatch, QuietCache, Reply, Step, SyncWatch, MAX_BACKOFF,
};
use freenet_bitcoin::store::{Interest, Store, WatchedScript};
use freenet_bitcoin::{BitcoinNetwork, BlockAnchor, BlockHash};

const FLOOR_LAG_BLOCKS: u32 = 6;
const WINDOW_BLOCKS: u32 = 144;
const REMOVAL_BUDGET: usize = 4096;
const REMOVAL_SHARE_PER_GHOSTKEY: usize = REMOVAL_BUDGET / 64;
const LIMITS: InboxLimits = InboxLimits {
    floor_lag_blocks: FLOOR_LAG_BLOCKS,
    removal_budget: REMOVAL_BUDGET,
    window_blocks: WINDOW_BLOCKS,
};

const MAINNET_TIP: u32 = 900_000;
const SIGNET_TIP: u32 = 200_000;
const FLOOR: u32 = MAINNET_TIP - FLOOR_LAG_BLOCKS;
const SIGNET: BitcoinNetwork = BitcoinNetwork::Signet;
const HOUR: i64 = 3_600_000;
const T0: i64 = 1_700_000_000_000;

type Ghostkey = [u8; 32];

fn ghostkeys() -> [Ghostkey; 3] {
    [[1; 32], [2; 32], [3; 32]]
}

#[derive(Clone)]
struct Ask {
    action: Action,
    network: BitcoinNetwork,
    scripts: Vec<Vec<u8>>,
    scan_from_height: Option<u32>,
    made_at_ms: u64,
}

#[derive(Clone)]
struct Entry {
    key: [u8; 32],
    height: u32,
    ghostkey: Ghostkey,
    ask: Option<Ask>,
}

struct Inbox {
    floor: u32,
    entries: Vec<Entry>,
}

fn tips() -> Tips {
    Tips {
        by_network: vec![(BitcoinNetwork::Bitcoin, MAINNET_TIP), (SIGNET, SIGNET_TIP)],
        syncing: vec![],
        median_time_ms: vec![(BitcoinNetwork::Bitcoin, i64::MAX), (SIGNET, i64::MAX)],
    }
}

fn set<T>(list: &mut Vec<(BitcoinNetwork, T)>, net: BitcoinNetwork, value: T) {
    list.retain(|e| e.0 != net);
    list.push((net, value));
}

fn request(action: Action, script: &[u8], made_at_ms: u64) -> Ask {
    Ask {
        action,
        network: SIGNET,
        scripts: vec![script.to_vec()],
        scan_from_height: None,
        made_at_ms,
    }
}

/// An entry of its own: no two have the same key, whatever they ask for.
fn entry(gk: &Ghostkey, height: u32, ask: &Ask) -> Entry {
    Entry {
        key: rand::random(),
        height,
        ghostkey: *gk,
        ask: Some(ask.clone()),
    }
}

fn inbox(floor: u32, entries: Vec<Entry>) -> Inbox {
    Inbox { floor, entries }
}

fn read(state: &Inbox) -> InboxState {
    InboxState {
        floor: Some(state.floor),
        entries: state
            .entries
            .iter()
            .map(|e| InboxEntry {
                key: e.key,
                mainnet_height: e.height,
                ghostkey: e.ghostkey,
                request: e.ask.as_ref().map(|a| InboxRequest {
                    action: a.action,
                    network: a.network,
                    scripts: a.scripts.clone(),
                    scan_from_height: a.scan_from_height,
                    made_at_ms: a.made_at_ms,
                }),
            })
            .collect(),
    }
}

fn try_run_held(
    store: &mut Store,
    state: &Inbox,
    tips: &Tips,
    cap: usize,
    now_ms: i64,
    held: bool,
) -> Pass {
    Processor {
        observed: &vec![BitcoinNetwork::Bitcoin, SIGNET],
        max_watches_per_ghostkey: cap,
        deep_confirmations: &vec![(BitcoinNetwork::Bitcoin, 6), (SIGNET, 6)],
        limits: LIMITS,
    }
    .pass(store, read(state), tips, now_ms, held)
}

/// Entries a pass removes, over its batches.
fn removed(pass: &Pass) -> usize {
    pass.delta.removals.iter().map(|b| b.1.len()).sum()
}

fn run_with(store: &mut Store, state: &Inbox, tips: &Tips, cap: usize) -> Pass {
    try_run_held(store, state, tips, cap, 0, false)
}

fn run_at(store: &mut Store, state: &Inbox, tips: &Tips, now_ms: i64) -> Pass {
    try_run_held(store, state, tips, MAX_WATCHES_PER_GHOSTKEY, now_ms, false)
}

fn run(store: &mut Store, state: &Inbox, tips: &Tips) -> Pass {
    run_with(store, state, tips, MAX_WATCHES_PER_GHOSTKEY)
}

fn watched(store: &Store) -> Vec<Vec<u8>> {
    store.watched(SIGNET).into_iter().map(|w| w.script_pubkey).collect()
}

fn watch_at(store: &mut Store, gk: &Ghostkey, made_at_ms: u64, now_ms: i64) {
    let w = entry(gk, FLOOR + 1, &request(Action::Watch, b"spk", made_at_ms));
    run_at(store, &inbox(FLOOR, vec![w]), &tips(), now_ms);
}

/// The observer has scanned signet up to its tip.
fn caught_up(store: &mut Store) {
    store.set_checkpoint(SIGNET, &BlockAnchor { height: SIGNET_TIP, hash: BlockHash([0; 32]) });
}

/// A pass over an empty inbox, with the observer caught up.
fn tick(store: &mut Store, tips: &Tips, now_ms: i64) {
    caught_up(store);
    run_at(store, &inbox(FLOOR, vec![]), tips, now_ms);
}

fn payment(store: &mut Store, height: Option<u32>) {
    store.record_output(
        SIGNET,
        b"spk",
        &[7u8; 32],
        0,
        10_000,
        height.map(|h| (h, BlockHash([1; 32]))),
    );
}

/// So many seconds into a session.
fn at(secs: u64) -> u64 {
    5_000_000 + secs * 1_000
}

#[test]
fn a_watch_request_is_acted_on_and_removed() {
    let mut store = Store::open_in_memory();
    let w = entry(&ghostkeys()[0], FLOOR + 1, &request(Action::Watch, b"spk", 1));
    let pass = run(&mut store, &inbox(FLOOR, vec![w.clone()]), &tips());
    assert_eq!(pass.acted, 1);
    assert_eq!(watched(&store), vec![b"spk".to_vec()]);
    assert_eq!(pass.delta.removals, vec![(FLOOR + 1, vec![w.key])]);
}

#[test]
fn one_batch_per_height_names_everything_read_there_and_replaces_the_last() {
    let mut store = Store::open_in_memory();
    let (a, b) = (&ghostkeys()[0], &ghostkeys()[1]);
    let wa = entry(a, FLOOR + 1, &request(Action::Watch, b"a", 1));
    let wb = entry(b, FLOOR + 1, &request(Action::Watch, b"b", 1));
    let first = run(&mut store, &inbox(FLOOR, vec![wa.clone()]), &tips());
    assert_eq!(first.delta.removals, vec![(FLOOR + 1, vec![wa.key])]);

    let second = run(&mut store, &inbox(FLOOR, vec![wb.clone()]), &tips());
    assert_eq!(second.delta.removals.len(), 1);
    assert_eq!(removed(&second), 2);
    assert_eq!(second.delta.removals[0].0, FLOOR + 1);
    assert!(second.delta.removals[0].1.contains(&wa.key));
    assert!(second.delta.removals[0].1.contains(&wb.key));
}

#[test]
fn a_request_the_bridge_cannot_serve_is_removed_without_effect() {
    let mut store = Store::open_in_memory();
    let (a, b) = (&ghostkeys()[0], &ghostkeys()[1]);
    let mut regtest = request(Action::Watch, b"spk", 1);
    regtest.network = BitcoinNetwork::Regtest;
    // One that does not open here.
    let mut copied = entry(b, FLOOR + 1, &request(Action::Watch, b"copied", 1));
    copied.ask = None;
    let state = inbox(FLOOR, vec![entry(a, FLOOR + 1, &regtest), copied]);
    let pass = run(&mut store, &state, &tips());
    assert!(watched(&store).is_empty());
    assert!(store.watched(BitcoinNetwork::Regtest).is_empty());
    assert_eq!(removed(&pass), 2, "both are removed");
}

#[test]
fn entries_are_served_even_when_the_state_fails_verification_as_a_whole() {
    let mut store = Store::open_in_memory();
    let g = &ghostkeys()[0];
    let es: Vec<Entry> = [b"a", b"b", b"c"]
        .iter()
        .enumerate()
        .map(|(i, s)| entry(g, FLOOR + 1, &request(Action::Watch, *s, i as u64 + 1)))
        .collect();
    let pass = run(&mut store, &inbox(FLOOR, es), &tips());
    assert_eq!(pass.acted, 3);
    assert_eq!(watched(&store).len(), 3);
}

#[test]
fn past_the_removal_budget_reading_waits_for_the_floor() {
    let mut store = Store::open_in_memory();
    for i in 0..(REMOVAL_BUDGET - 1) as u64 {
        let mut k = [0u8; 32];
        k[..8].copy_from_slice(&i.to_be_bytes());
        store.mark_handled(&k, FLOOR + 1, &k);
    }
    let (a, b) = (&ghostkeys()[0], &ghostkeys()[1]);
    let two = vec![
        entry(a, FLOOR + 2, &request(Action::Watch, b"a", 1)),
        entry(b, FLOOR + 2, &request(Action::Watch, b"b", 1)),
    ];
    let pass = run(&mut store, &inbox(FLOOR, two.clone()), &tips());
    assert_eq!((pass.acted, pass.deferred), (1, 1));
    assert_eq!(watched(&store).len(), 1);
    assert_eq!(removed(&pass), 1, "only what was read is removed");

    let pass = run(&mut store, &inbox(FLOOR + 2, two), &tips());
    assert_eq!((pass.acted, pass.deferred), (1, 0));
    assert_eq!(watched(&store).len(), 2);
}

#[test]
fn one_ghostkey_cannot_spend_the_removal_budget_for_everyone() {
    let mut store = Store::open_in_memory();
    let (a, b) = (&ghostkeys()[0], &ghostkeys()[1]);
    for i in 0..REMOVAL_SHARE_PER_GHOSTKEY as u64 {
        let mut k = [0u8; 32];
        k[..8].copy_from_slice(&i.to_be_bytes());
        store.mark_handled(&k, FLOOR + 1, a);
    }
    let from_a = entry(a, FLOOR + 2, &request(Action::Watch, b"a", 1));
    let from_b = entry(b, FLOOR + 2, &request(Action::Watch, b"b", 1));
    let pass = run(&mut store, &inbox(FLOOR, vec![from_a, from_b]), &tips());
    assert_eq!((pass.acted, pass.deferred), (1, 1));
    assert_eq!(watched(&store), vec![b"b".to_vec()]);
}

#[test]
fn the_floor_is_held_for_a_while_after_connecting_and_then_follows_the_tip() {
    let mut store = Store::open_in_memory();
    let state = inbox(FLOOR - 10, vec![]);
    let held = try_run_held(
        &mut store,
        &state,
        &tips(),
        3,
        1_000,
        true,
    );
    assert!(held.delta.floor.is_none());
    let moved = try_run_held(&mut store, &state, &tips(), 3, 2_000, false);
    assert_eq!(moved.delta.floor, Some(FLOOR));
}

#[test]
fn a_watch_ends_a_day_after_it_was_last_asked_for() {
    let mut store = Store::open_in_memory();
    watch_at(&mut store, &ghostkeys()[0], 1, T0);
    tick(&mut store, &tips(), T0 + 23 * HOUR);
    assert_eq!(watched(&store), vec![b"spk".to_vec()]);
    tick(&mut store, &tips(), T0 + 25 * HOUR);
    assert!(watched(&store).is_empty());
}

#[test]
fn a_watch_sent_again_starts_the_day_again() {
    let mut store = Store::open_in_memory();
    let a = &ghostkeys()[0];
    watch_at(&mut store, a, 1, T0);
    watch_at(&mut store, a, 2, T0 + 20 * HOUR);
    tick(&mut store, &tips(), T0 + 25 * HOUR);
    assert_eq!(watched(&store), vec![b"spk".to_vec()]);
    tick(&mut store, &tips(), T0 + 45 * HOUR);
    assert!(watched(&store).is_empty());
}

#[test]
fn a_watch_that_ran_out_comes_back_only_for_a_newer_request() {
    let mut store = Store::open_in_memory();
    let a = &ghostkeys()[0];
    watch_at(&mut store, a, 10, T0);
    tick(&mut store, &tips(), T0 + 25 * HOUR);
    watch_at(&mut store, a, 5, T0 + 26 * HOUR);
    assert!(
        watched(&store).is_empty(),
        "older than the one that ran out"
    );
    watch_at(&mut store, a, 20, T0 + 26 * HOUR);
    assert_eq!(watched(&store), vec![b"spk".to_vec()]);
}

#[test]
fn a_watch_whose_payment_is_still_being_buried_outlives_its_day() {
    let mut store = Store::open_in_memory();
    watch_at(&mut store, &ghostkeys()[0], 1, T0);
    payment(&mut store, Some(SIGNET_TIP - 4));
    tick(&mut store, &tips(), T0 + 25 * HOUR);
    assert_eq!(watched(&store), vec![b"spk".to_vec()]);

    let mut store = Store::open_in_memory();
    watch_at(&mut store, &ghostkeys()[0], 1, T0);
    payment(&mut store, Some(SIGNET_TIP - 5));
    tick(&mut store, &tips(), T0 + 25 * HOUR);
    assert!(watched(&store).is_empty());

    let mut store = Store::open_in_memory();
    watch_at(&mut store, &ghostkeys()[0], 1, T0);
    payment(&mut store, None);
    tick(&mut store, &tips(), T0 + 25 * HOUR);
    assert_eq!(watched(&store), vec![b"spk".to_vec()]);
}

#[test]
fn nothing_ends_on_a_network_whose_tip_cannot_be_read() {
    let mut store = Store::open_in_memory();
    watch_at(&mut store, &ghostkeys()[0], 1, T0);
    let mut no_signet = tips();
    no_signet.by_network.retain(|e| e.0 != SIGNET);
    tick(&mut store, &no_signet, T0 + 25 * HOUR);
    assert_eq!(watched(&store), vec![b"spk".to_vec()]);
}

#[test]
fn a_watch_from_before_the_inbox_never_runs_out() {
    let mut store = Store::open_in_memory();
    store
        .add_watch(
            &WatchedScript {
                network: SIGNET,
                script_pubkey: b"spk".to_vec(),
                scan_from_height: 0,
                is_public_demo: false,
            },
            0,
        );
    watch_at(&mut store, &ghostkeys()[0], 1, T0);
    tick(&mut store, &tips(), T0 + 25 * HOUR);
    assert_eq!(watched(&store), vec![b"spk".to_vec()]);
}

#[test]
fn an_unwatch_withdraws_only_its_senders_interest() {
    let mut store = Store::open_in_memory();
    let (a, b) = (&ghostkeys()[0], &ghostkeys()[1]);
    run(
        &mut store,
        &inbox(
            FLOOR,
            vec![
                entry(a, FLOOR + 1, &request(Action::Watch, b"spk", 1)),
                entry(b, FLOOR + 1, &request(Action::Watch, b"spk", 1)),
            ],
        ),
        &tips(),
    );
    run(
        &mut store,
        &inbox(
            FLOOR,
            vec![entry(a, FLOOR + 2, &request(Action::Unwatch, b"spk", 2))],
        ),
        &tips(),
    );
    assert_eq!(watched(&store), vec![b"spk".to_vec()], "b still wants it");
    run(
        &mut store,
        &inbox(
            FLOOR,
            vec![entry(b, FLOOR + 2, &request(Action::Unwatch, b"spk", 2))],
        ),
        &tips(),
    );
    assert!(watched(&store).is_empty());
}

#[test]
fn a_later_unwatch_wins_whatever_order_it_is_read_in() {
    let mut store = Store::open_in_memory();
    let a = &ghostkeys()[0];
    let w = entry(a, FLOOR + 1, &request(Action::Watch, b"spk", 10));
    let u = entry(a, FLOOR + 1, &request(Action::Unwatch, b"spk", 20));
    run(&mut store, &inbox(FLOOR, vec![u.clone()]), &tips());
    run(&mut store, &inbox(FLOOR, vec![w.clone()]), &tips());
    assert!(
        watched(&store).is_empty(),
        "read second, the Watch is older"
    );

    let mut store = Store::open_in_memory();
    run(&mut store, &inbox(FLOOR, vec![w, u]), &tips());
    assert!(watched(&store).is_empty(), "read together, likewise");
}

#[test]
fn a_watch_whose_removal_was_lost_is_removed_again_not_acted_on_again() {
    let mut store = Store::open_in_memory();
    let w = entry(
        &ghostkeys()[0],
        FLOOR + 1,
        &request(Action::Watch, b"spk", 1),
    );
    run(&mut store, &inbox(FLOOR, vec![w.clone()]), &tips());
    let pass = run(&mut store, &inbox(FLOOR, vec![w]), &tips());
    assert_eq!(pass.acted, 0);
    assert_eq!(removed(&pass), 1, "the lost removal is sent again");
}

#[test]
fn a_watch_is_served_even_when_its_networks_tip_is_unreadable() {
    let mut store = Store::open_in_memory();
    let state = inbox(
        FLOOR,
        vec![entry(
            &ghostkeys()[0],
            FLOOR + 1,
            &request(Action::Watch, b"spk", 1),
        )],
    );
    let mut no_signet = tips();
    no_signet.by_network.retain(|e| e.0 != SIGNET);
    let pass = run(&mut store, &state, &no_signet);
    assert_eq!(pass.acted, 1);
    assert_eq!(watched(&store), vec![b"spk".to_vec()]);
    assert_eq!(removed(&pass), 1);
    assert_eq!(
        store.watched(SIGNET)[0].scan_from_height,
        u32::MAX,
        "no tip or checkpoint was known, so no height is recorded"
    );
}

#[test]
fn a_watch_with_its_networks_tip_unreadable_records_the_checkpoint() {
    let mut store = Store::open_in_memory();
    store
        .set_checkpoint(
            SIGNET,
            &BlockAnchor {
                height: SIGNET_TIP - 3,
                hash: BlockHash([0; 32]),
            },
        );
    let mut no_signet = tips();
    no_signet.by_network.retain(|e| e.0 != SIGNET);
    run(
        &mut store,
        &inbox(
            FLOOR,
            vec![entry(
                &ghostkeys()[0],
                FLOOR + 1,
                &request(Action::Watch, b"spk", 1),
            )],
        ),
        &no_signet,
    );
    assert_eq!(
        store.watched(SIGNET)[0].scan_from_height,
        SIGNET_TIP - 3
    );
}

#[test]
fn an_entry_above_the_window_is_not_acted_on() {
    let mut store = Store::open_in_memory();
    let far = entry(
        &ghostkeys()[0],
        FLOOR + WINDOW_BLOCKS + 5,
        &request(Action::Watch, b"spk", 1),
    );
    let pass = run(&mut store, &inbox(FLOOR, vec![far]), &tips());
    assert_eq!(pass.acted, 0);
    assert!(watched(&store).is_empty());
}

#[test]
fn the_floor_follows_the_mainnet_tip_and_never_falls() {
    let mut store = Store::open_in_memory();
    let pass = run(&mut store, &inbox(FLOOR - 50, vec![]), &tips());
    assert_eq!(pass.delta.floor, Some(FLOOR));

    let mut stale = tips();
    set(&mut stale.by_network, BitcoinNetwork::Bitcoin, MAINNET_TIP - 20);
    let pass = run(&mut store, &inbox(FLOOR, vec![]), &stale);
    assert!(
        pass.delta.is_empty(),
        "a stale tip must not lower the floor, and a settled inbox is sent nothing"
    );
}

#[test]
fn a_stale_copy_below_a_floor_this_bridge_signed_is_not_acted_on() {
    let mut store = Store::open_in_memory();
    store.set_signed_floor(FLOOR + 5);
    let old = entry(
        &ghostkeys()[0],
        FLOOR + 1,
        &request(Action::Watch, b"spk", 1),
    );
    let pass = run(&mut store, &inbox(FLOOR, vec![old]), &tips());
    assert_eq!(pass.acted, 0);
    assert!(watched(&store).is_empty());
    assert_eq!(
        pass.delta.floor,
        Some(FLOOR + 5),
        "the higher floor is sent to the copy"
    );
}

#[test]
fn a_watchs_rescan_hint_moves_no_cursor() {
    let mut store = Store::open_in_memory();
    store
        .set_checkpoint(
            SIGNET,
            &BlockAnchor {
                height: SIGNET_TIP - 3,
                hash: BlockHash([0; 32]),
            },
        );
    let mut from_genesis = request(Action::Watch, b"spk", 1);
    from_genesis.scan_from_height = Some(0);
    run(
        &mut store,
        &inbox(
            FLOOR,
            vec![entry(&ghostkeys()[0], FLOOR + 1, &from_genesis)],
        ),
        &tips(),
    );
    assert_eq!(
        store.checkpoint(SIGNET).unwrap().height,
        SIGNET_TIP - 3
    );
    assert_eq!(
        store.watched(SIGNET)[0].scan_from_height,
        SIGNET_TIP,
        "watched from where the tip was"
    );
}

#[test]
fn an_unwatch_from_someone_who_never_asked_ends_nothing() {
    let mut store = Store::open_in_memory();
    run(
        &mut store,
        &inbox(
            FLOOR,
            vec![entry(
                &ghostkeys()[0],
                FLOOR + 1,
                &request(Action::Watch, b"spk", 1),
            )],
        ),
        &tips(),
    );
    let stranger = entry(
        &ghostkeys()[2],
        FLOOR + 1,
        &request(Action::Unwatch, b"spk", 5),
    );
    run(&mut store, &inbox(FLOOR, vec![stranger]), &tips());
    assert_eq!(watched(&store), vec![b"spk".to_vec()]);
}

#[test]
fn a_watch_from_before_the_inbox_outlives_its_inbox_watchers() {
    let mut store = Store::open_in_memory();
    store
        .add_watch(
            &WatchedScript {
                network: SIGNET,
                script_pubkey: b"spk".to_vec(),
                scan_from_height: 0,
                is_public_demo: false,
            },
            0,
        );
    let a = &ghostkeys()[0];
    run(
        &mut store,
        &inbox(
            FLOOR,
            vec![entry(a, FLOOR + 1, &request(Action::Watch, b"spk", 1))],
        ),
        &tips(),
    );
    run(
        &mut store,
        &inbox(
            FLOOR,
            vec![entry(a, FLOOR + 2, &request(Action::Unwatch, b"spk", 2))],
        ),
        &tips(),
    );
    assert_eq!(watched(&store), vec![b"spk".to_vec()]);
}

#[test]
fn a_ghostkey_cannot_grow_the_watch_list_past_its_limit() {
    let mut store = Store::open_in_memory();
    let mut req = request(Action::Watch, b"s1", 1);
    req.scripts = (0..5u8).map(|i| vec![i; 20]).collect();
    run_with(
        &mut store,
        &inbox(FLOOR, vec![entry(&ghostkeys()[0], FLOOR + 1, &req)]),
        &tips(),
        3,
    );
    assert_eq!(watched(&store).len(), 3);
}

#[test]
fn a_withdrawal_is_remembered_for_a_day_and_then_forgotten() {
    let t0 = 1_700_000_000_000i64;
    let mut store = Store::open_in_memory();
    let a = &ghostkeys()[0];
    let unwatch = entry(a, FLOOR + 1, &request(Action::Unwatch, b"spk", 20));
    run_at(&mut store, &inbox(FLOOR, vec![unwatch]), &tips(), t0);

    let older_watch = entry(a, FLOOR + 1, &request(Action::Watch, b"spk", 10));
    run_at(
        &mut store,
        &inbox(FLOOR, vec![older_watch]),
        &tips(),
        t0 + HOUR,
    );
    assert!(
        watched(&store).is_empty(),
        "within the day, the later withdrawal outranks it"
    );

    let resent = entry(a, FLOOR + 1, &request(Action::Watch, b"spk", 10));
    run_at(
        &mut store,
        &inbox(FLOOR, vec![resent]),
        &tips(),
        t0 + 25 * HOUR,
    );
    assert_eq!(
        watched(&store),
        vec![b"spk".to_vec()],
        "a day later the withdrawal is forgotten"
    );
}

#[test]
fn a_floor_read_back_from_the_inbox_is_remembered() {
    let mut store = Store::open_in_memory();
    let mut no_mainnet = tips();
    no_mainnet.by_network.retain(|e| e.0 != BitcoinNetwork::Bitcoin);
    run(&mut store, &inbox(FLOOR + 5, vec![]), &no_mainnet);
    assert_eq!(store.signed_floor(), Some(FLOOR + 5));
}

#[test]
fn a_state_is_passed_over_only_after_a_pass_that_sent_nothing() {
    let mut q = QuietCache::new();
    let fp = QuietCache::fingerprint(b"state", &tips(), false);
    assert!(!q.is_quiet(&fp));
    q.after_pass(fp.clone(), true);
    assert!(
        !q.is_quiet(&fp),
        "it sent something, which the node may have refused"
    );
    q.after_pass(fp.clone(), false);
    assert!(q.is_quiet(&fp));
    let mut moved = tips();
    set(&mut moved.by_network, BitcoinNetwork::Bitcoin, MAINNET_TIP + 1);
    assert!(!q.is_quiet(&QuietCache::fingerprint(b"state", &moved, false)));
    let mut signet_moved = tips();
    set(&mut signet_moved.by_network, SIGNET, SIGNET_TIP + 1);
    assert!(
        !q.is_quiet(&QuietCache::fingerprint(b"state", &signet_moved, false)),
        "whether a watch may end depends on its own network's tip"
    );
    assert!(
        !q.is_quiet(&QuietCache::fingerprint(b"state", &tips(), true)),
        "the pass that ends the hold must not be passed over"
    );
}

#[test]
fn a_state_is_quiet_once_nothing_is_left_to_send() {
    let mut store = Store::open_in_memory();
    caught_up(&mut store);
    let mut quiet = QuietCache::new();
    let asked = inbox(FLOOR, vec![entry(&ghostkeys()[0], FLOOR + 1, &request(Action::Watch, b"spk", 1))]);
    let fp = QuietCache::fingerprint(b"asked", &tips(), false);
    let pass = run_at(&mut store, &asked, &tips(), T0);
    assert_eq!((pass.acted, removed(&pass)), (1, 1));
    assert!(pass.is_unsettled(), "its removal may be refused");
    quiet.after_pass(fp, pass.is_unsettled());
    assert!(!quiet.is_quiet(&fp));
    let fp = QuietCache::fingerprint(b"settled", &tips(), false);
    let pass = run_at(&mut store, &inbox(FLOOR, vec![]), &tips(), T0);
    assert!(!pass.is_unsettled());
    quiet.after_pass(fp, pass.is_unsettled());
    assert!(quiet.is_quiet(&fp));
    assert_eq!(watched(&store), vec![b"spk".to_vec()]);
}

/// A pass whose watches are ended one by one, where writing down the end of some fails. Says
/// how many were tried.
fn run_on_disk(
    store: &mut Store,
    state: &Inbox,
    now_ms: i64,
    fault: fn(&[u8]) -> Option<WriteFault>,
) -> (Pass, usize) {
    let observed = vec![BitcoinNetwork::Bitcoin, SIGNET];
    let deep = vec![(BitcoinNetwork::Bitcoin, 6), (SIGNET, 6)];
    let processor = Processor {
        observed: &observed,
        max_watches_per_ghostkey: MAX_WATCHES_PER_GHOSTKEY,
        deep_confirmations: &deep,
        limits: LIMITS,
    };
    let mut pass = processor.read(store, read(state), &tips(), now_ms, false);
    let mut ending = Ending::new();
    let mut tries = 0;
    while ending.next(&processor, store, &tips(), now_ms, &pass.waiting) {
        tries += 1;
        let what = match fault(&ending.due[ending.at].0) {
            Some(f) => Err(f),
            None => Ok(ending.end(store, now_ms)),
        };
        ending.written(what);
    }
    pass.note_ending(ending);
    (pass, tries)
}

#[test]
fn a_failure_ending_watches_still_sends_the_removals_and_floor() {
    let mut store = Store::open_in_memory();
    store.set_interest(
        &Interest {
            network: SIGNET,
            script: b"spk",
            ghostkey: &[9u8; 32],
            watching: true,
            request_ms: 1,
        },
        MAX_WATCHES_PER_GHOSTKEY,
        T0,
    );
    store.add_watch(
        &WatchedScript {
            network: SIGNET,
            script_pubkey: b"spk".to_vec(),
            scan_from_height: 0,
            is_public_demo: false,
        },
        T0,
    );
    caught_up(&mut store);
    let fresh = entry(&ghostkeys()[1], FLOOR - 4, &request(Action::Watch, b"other", 1));
    let (pass, _) = run_on_disk(&mut store, &inbox(FLOOR - 5, vec![fresh]), T0 + 25 * HOUR, |_| {
        Some(WriteFault::Other)
    });
    assert_eq!(removed(&pass), 1);
    assert_eq!(pass.delta.floor, Some(FLOOR));
    assert!(pass.gated, "the pass runs again");
    assert!(
        watched(&store).contains(&b"spk".to_vec()),
        "the failed expiry changed nothing"
    );
}

#[test]
fn one_watch_that_cannot_end_keeps_no_other_from_ending() {
    let mut store = Store::open_in_memory();
    let (a, b) = (&ghostkeys()[0], &ghostkeys()[1]);
    let stuck = entry(a, FLOOR + 1, &request(Action::Watch, b"boom", 1));
    run_at(&mut store, &inbox(FLOOR, vec![stuck]), &tips(), T0);
    watch_at(&mut store, b, 1, T0);
    caught_up(&mut store);
    let (pass, tries) = run_on_disk(&mut store, &inbox(FLOOR, vec![]), T0 + 25 * HOUR, |script| {
        (script == b"boom").then_some(WriteFault::Other)
    });
    assert_eq!(tries, 2);
    assert_eq!(watched(&store), vec![b"boom".to_vec()]);
    assert!(
        pass.gated,
        "the watch that failed is tried again, so the pass is not quiet"
    );
}

#[test]
fn a_busy_database_stops_expiry_on_every_network() {
    let mut store = Store::open_in_memory();
    let (a, b) = (&ghostkeys()[0], &ghostkeys()[1]);
    let mut mainnet = request(Action::Watch, b"spk", 1);
    mainnet.network = BitcoinNetwork::Bitcoin;
    run_at(&mut store, &inbox(FLOOR, vec![entry(a, FLOOR + 1, &mainnet)]), &tips(), T0);
    watch_at(&mut store, a, 1, T0);
    watch_at(&mut store, b, 1, T0);
    caught_up(&mut store);
    store.set_checkpoint(
        BitcoinNetwork::Bitcoin,
        &BlockAnchor { height: MAINNET_TIP, hash: BlockHash([0; 32]) },
    );
    let (pass, tries) = run_on_disk(&mut store, &inbox(FLOOR, vec![]), T0 + 25 * HOUR, |_| {
        Some(WriteFault::Busy)
    });
    assert!(pass.gated, "the watches are tried again next pass");
    assert_eq!(tries, 1, "one busy failure, then no more tries");
    assert_eq!(watched(&store).len(), 1, "nothing ended");
    assert_eq!(store.watched(BitcoinNetwork::Bitcoin).len(), 1, "nothing ended");
    // Once the records can be written, all three end.
    let (pass, tries) = run_on_disk(&mut store, &inbox(FLOOR, vec![]), T0 + 25 * HOUR, |_| None);
    assert_eq!((pass.gated, tries), (false, 3));
    assert!(watched(&store).is_empty());
}

#[test]
fn a_watch_is_kept_where_the_scan_has_moved_since_it_was_found_due() {
    let mut store = Store::open_in_memory();
    watch_at(&mut store, &ghostkeys()[0], 1, T0);
    caught_up(&mut store);
    let observed = vec![SIGNET];
    let deep = vec![(SIGNET, 6)];
    let processor = Processor {
        observed: &observed,
        max_watches_per_ghostkey: MAX_WATCHES_PER_GHOSTKEY,
        deep_confirmations: &deep,
        limits: LIMITS,
    };
    let mut ending = Ending::new();
    assert!(ending.next(&processor, &store, &tips(), T0 + 25 * HOUR, &vec![]));
    store.set_checkpoint(
        SIGNET,
        &BlockAnchor { height: SIGNET_TIP - 1, hash: BlockHash([0; 32]) },
    );
    let what = ending.end(&mut store, T0 + 25 * HOUR);
    assert_eq!(what, Ended::Unscanned);
    ending.written(Ok(what));
    assert!(ending.retry);
    assert_eq!(watched(&store).len(), 1);
}

#[test]
fn an_inbox_opened_again_keeps_the_floor_it_had() {
    assert_eq!(opening_floor(Some(FLOOR - 50), MAINNET_TIP, &LIMITS), FLOOR - 50);
    assert_eq!(opening_floor(None, MAINNET_TIP, &LIMITS), FLOOR);
}

#[test]
fn a_watch_does_not_end_before_the_observer_has_scanned_its_day() {
    let mut store = Store::open_in_memory();
    watch_at(&mut store, &ghostkeys()[0], 1, T0);
    store
        .set_checkpoint(
            SIGNET,
            &BlockAnchor {
                height: SIGNET_TIP - 3,
                hash: BlockHash([0; 32]),
            },
        );
    let pass = run_at(&mut store, &inbox(FLOOR, vec![]), &tips(), T0 + 25 * HOUR);
    assert_eq!(watched(&store), vec![b"spk".to_vec()]);
    assert!(
        pass.gated,
        "kept for the observer, so not passed over as quiet"
    );
    tick(&mut store, &tips(), T0 + 26 * HOUR);
    assert!(watched(&store).is_empty());
}

#[test]
fn a_script_another_requester_still_wants_stays_scanned() {
    let mut store = Store::open_in_memory();
    let (a, b) = (&ghostkeys()[0], &ghostkeys()[1]);
    watch_at(&mut store, a, 1, T0);
    watch_at(&mut store, b, 1, T0 + 20 * HOUR);
    tick(&mut store, &tips(), T0 + 25 * HOUR);
    assert_eq!(watched(&store), vec![b"spk".to_vec()], "b still wants it");
    tick(&mut store, &tips(), T0 + 45 * HOUR);
    assert!(watched(&store).is_empty());
}

#[test]
fn a_watch_is_kept_while_the_floor_is_held_or_its_renewal_waits() {
    let mut store = Store::open_in_memory();
    let (owner, other) = (&ghostkeys()[0], &ghostkeys()[2]);
    watch_at(&mut store, owner, 1, T0);
    run_at(
        &mut store,
        &inbox(
            FLOOR,
            vec![entry(other, FLOOR + 1, &request(Action::Watch, b"spk2", 1))],
        ),
        &tips(),
        T0,
    );
    caught_up(&mut store);
    let later = T0 + 25 * HOUR;
    let held = try_run_held(
        &mut store,
        &inbox(FLOOR, vec![]),
        &tips(),
        MAX_WATCHES_PER_GHOSTKEY,
        later,
        true,
    );
    assert!(held.gated, "a held pass is not passed over as quiet");
    assert_eq!(watched(&store).len(), 2, "held");

    for i in 0..REMOVAL_BUDGET as u64 {
        let mut k = [0xffu8; 32];
        k[..8].copy_from_slice(&i.to_be_bytes());
        store.mark_handled(&k, FLOOR + 1, &k);
    }
    let renewal = entry(owner, FLOOR + 1, &request(Action::Watch, b"spk", 2));
    let pass = run_at(&mut store, &inbox(FLOOR, vec![renewal]), &tips(), later);
    assert_eq!(pass.deferred, 1);
    assert_eq!(
        watched(&store),
        vec![b"spk".to_vec()],
        "the owner's watch waits for its renewal; the other one ends"
    );

    tick(&mut store, &tips(), later);
    assert!(watched(&store).is_empty());
}

#[test]
fn a_watch_does_not_end_while_its_node_is_still_syncing() {
    let mut store = Store::open_in_memory();
    watch_at(&mut store, &ghostkeys()[0], 1, T0);
    caught_up(&mut store);
    let mut syncing = tips();
    syncing.syncing.push(SIGNET);
    let pass = run_at(&mut store, &inbox(FLOOR, vec![]), &syncing, T0 + 25 * HOUR);
    assert_eq!(watched(&store), vec![b"spk".to_vec()]);
    assert!(pass.gated, "kept for the node, so not passed over as quiet");
    tick(&mut store, &tips(), T0 + 25 * HOUR);
    assert!(watched(&store).is_empty());
}

#[test]
fn a_checkpoint_above_the_tip_is_not_caught_up() {
    let mut store = Store::open_in_memory();
    watch_at(&mut store, &ghostkeys()[0], 1, T0);
    store
        .set_checkpoint(
            SIGNET,
            &BlockAnchor {
                height: SIGNET_TIP + 5,
                hash: BlockHash([0; 32]),
            },
        );
    let pass = run_at(&mut store, &inbox(FLOOR, vec![]), &tips(), T0 + 25 * HOUR);
    assert_eq!(watched(&store), vec![b"spk".to_vec()]);
    assert!(pass.gated);
    tick(&mut store, &tips(), T0 + 26 * HOUR);
    assert!(watched(&store).is_empty());
}

#[test]
fn the_observer_lag_is_reported_when_it_grows_and_not_while_it_shrinks() {
    assert!(lag_grew(None, Some(10)), "newly lagging");
    assert!(lag_grew(Some(Some(10)), Some(11)));
    assert!(!lag_grew(Some(Some(10)), Some(10)), "unchanged");
    assert!(!lag_grew(Some(Some(10)), Some(9)), "catching up");
    assert!(lag_grew(Some(Some(10)), None), "checkpoint lost");
    assert!(
        !lag_grew(Some(None), Some(500)),
        "a first checkpoint is progress"
    );
}

#[test]
fn a_watch_does_not_end_before_the_chain_has_passed_its_day() {
    let mut store = Store::open_in_memory();
    watch_at(&mut store, &ghostkeys()[0], 1, T0);
    caught_up(&mut store);
    let mut stale = tips();
    set(&mut stale.median_time_ms, SIGNET, T0 + 20 * HOUR);
    run_at(&mut store, &inbox(FLOOR, vec![]), &stale, T0 + 30 * HOUR);
    assert_eq!(
        watched(&store),
        vec![b"spk".to_vec()],
        "the chain is behind the day"
    );
    let day = T0 + WATCH_LIFETIME_MS;
    set(&mut stale.median_time_ms, SIGNET, day + MEDIAN_TIME_MARGIN_MS - 1);
    run_at(&mut store, &inbox(FLOOR, vec![]), &stale, T0 + 30 * HOUR);
    assert_eq!(
        watched(&store),
        vec![b"spk".to_vec()],
        "past the day, not the margin"
    );
    set(&mut stale.median_time_ms, SIGNET, day + MEDIAN_TIME_MARGIN_MS + 1);
    run_at(&mut store, &inbox(FLOOR, vec![]), &stale, T0 + 30 * HOUR);
    assert!(watched(&store).is_empty());
}

#[test]
fn a_node_still_syncing_after_ten_minutes_is_reported_once() {
    let mut w = SyncWatch::new();
    let syncing = vec![SIGNET];
    assert!(w.update(&syncing, at(0)).is_empty());
    assert!(w.update(&syncing, at(599)).is_empty());
    assert_eq!(w.update(&syncing, at(600)), vec![SIGNET]);
    assert!(w.update(&syncing, at(1200)).is_empty(), "once per spell");
    assert!(w.update(&vec![], at(1201)).is_empty());
    assert!(
        w.update(&syncing, at(1202)).is_empty(),
        "a new spell starts again"
    );
}

#[test]
fn the_first_tick_reads_and_subscribes() {
    let mut d = Driver::new();
    assert_eq!(d.on_tick(at(0)), vec![Step::Read, Step::Subscribe]);
}

#[test]
fn changes_during_a_read_cost_one_more_read_not_one_each() {
    let mut d = Driver::new();
    d.on_tick(at(0));
    assert!(d.on_reply(Reply::Changed, at(1)).is_empty());
    assert!(d.on_reply(Reply::Changed, at(2)).is_empty());
    assert_eq!(
        d.on_reply(Reply::State(vec![1]), at(3)),
        vec![Step::Process(vec![1]), Step::Read]
    );
    assert_eq!(
        d.on_reply(Reply::State(vec![2]), at(4)),
        vec![Step::Process(vec![2])]
    );
}

#[test]
fn a_read_that_never_answers_is_sent_again() {
    let mut d = Driver::new();
    d.on_tick(at(0));
    d.on_reply(Reply::Subscribed(true), at(0));
    assert!(d.on_tick(at(30)).is_empty(), "still waiting");
    assert_eq!(d.on_tick(at(61)), vec![Step::Read]);
}

#[test]
fn subscribing_is_repeated_until_the_node_confirms_it() {
    let mut d = Driver::new();
    d.on_tick(at(0));
    d.on_reply(Reply::State(vec![]), at(1));
    assert!(d.on_tick(at(30)).contains(&Step::Subscribe));
    d.on_reply(Reply::Subscribed(true), at(31));
    assert!(!d.on_tick(at(60)).contains(&Step::Subscribe));
}

#[test]
fn an_absent_inbox_is_opened_at_most_once_a_minute() {
    let mut d = Driver::new();
    d.on_tick(at(0));
    assert_eq!(d.on_reply(Reply::Absent, at(1)), vec![Step::Open]);
    let again = Reply::Failed {
        lost: false,
        not_found: true,
    };
    assert!(d.on_reply(again, at(20)).is_empty());
    assert_eq!(d.on_reply(Reply::Absent, at(62)), vec![Step::Open]);
    assert_eq!(d.on_reply(Reply::Opened, at(63)), vec![Step::Read]);
}

#[test]
fn a_lost_connection_ends_the_session() {
    let mut d = Driver::new();
    let lost = Reply::Failed {
        lost: true,
        not_found: false,
    };
    assert_eq!(d.on_reply(lost, at(0)), vec![Step::Reconnect]);
}

#[test]
fn a_closed_channel_counts_as_a_lost_connection_and_a_refusal_does_not() {
    assert!(connection_lost(ErrorKind::ChannelClosed));
    assert!(connection_lost(ErrorKind::Disconnect));
    assert!(!connection_lost(ErrorKind::Other));
    assert_eq!(
        Reply::from_host(HostMessage::Error { kind: ErrorKind::Other, text: "update refused".into() }),
        Reply::Failed { lost: false, not_found: false }
    );
    assert_eq!(
        Reply::from_host(HostMessage::Error { kind: ErrorKind::Shutdown, text: "x".into() }),
        Reply::Failed { lost: true, not_found: false }
    );
    assert_eq!(
        Reply::from_host(HostMessage::Error { kind: ErrorKind::Other, text: "contract Not Found".into() }),
        Reply::Failed { lost: false, not_found: true }
    );
}

#[test]
fn reconnection_backs_off_to_a_minute_and_resets_after_a_working_session() {
    let mut b: u64 = 1_000;
    for _ in 0..10 {
        b = next_backoff(b, 1_000);
    }
    assert_eq!(b, MAX_BACKOFF);
    assert_eq!(next_backoff(b, 600_000), 1_000);
}

#[test]
fn a_floor_is_held_until_its_time() {
    assert!(floor_held(Some(10), 9));
    assert!(!floor_held(Some(10), 10));
    assert!(!floor_held(None, 0));
}

#[test]
fn a_lag_is_warned_of_when_it_is_long_and_grows() {
    let mut w = LagWatch::new();
    let behind = |n| vec![Lag { network: SIGNET, cause: LagCause::Observer(Some(n)) }];
    assert!(w.note(&behind(6)).is_empty(), "a few blocks are nothing");
    assert_eq!(w.note(&behind(7)).len(), 1);
    assert!(w.note(&behind(7)).is_empty());
    assert!(w.note(&vec![Lag { network: SIGNET, cause: LagCause::Node }]).is_empty());
    assert_eq!(w.note(&behind(7)).len(), 1, "forgotten in between");
}

#[test]
fn an_unwatch_of_the_same_moment_wins_in_either_order() {
    for flip in [false, true] {
        let mut store = Store::open_in_memory();
        let a = &ghostkeys()[0];
        let mut both = vec![
            entry(a, FLOOR + 1, &request(Action::Watch, b"spk", 5)),
            entry(a, FLOOR + 1, &request(Action::Unwatch, b"spk", 5)),
        ];
        if flip {
            both.reverse();
        }
        run(&mut store, &inbox(FLOOR, both), &tips());
        assert!(watched(&store).is_empty());
    }
}

#[test]
fn a_copy_read_again_sends_the_same_removals_and_is_not_acted_on() {
    let mut store = Store::open_in_memory();
    let [a, b, _] = ghostkeys();
    let all = vec![
        entry(&b, FLOOR + 3, &request(Action::Watch, b"two", 1)),
        entry(&a, FLOOR + 1, &request(Action::Watch, b"one", 1)),
        entry(&b, FLOOR + 1, &request(Action::Watch, b"one", 2)),
        entry(&a, FLOOR + WINDOW_BLOCKS + 1, &request(Action::Watch, b"far", 1)),
    ];
    let first = run(&mut store, &inbox(FLOOR, all.clone()), &tips());
    assert_eq!((first.acted, first.deferred, first.delta.floor), (3, 0, None));
    let mut later = tips();
    set(&mut later.by_network, SIGNET, SIGNET_TIP + 5);
    let second = run_at(&mut store, &inbox(FLOOR, all), &later, HOUR);
    assert_eq!((second.acted, second.deferred), (0, 0));
    assert_eq!(second.delta.removals, first.delta.removals);
    let heights: Vec<u32> = first.delta.removals.iter().map(|r| r.0).collect();
    assert_eq!(heights, vec![FLOOR + 1, FLOOR + 3]);
}
