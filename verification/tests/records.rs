//! The bridge's records.

use freenet_bitcoin::store::{Interest, InterestChange, Store, WatchedScript};
use freenet_bitcoin::{BitcoinNetwork, BlockAnchor, BlockHash};

fn store() -> Store {
    Store::open_in_memory()
}

fn watch(script: &[u8], from: u32, demo: bool) -> WatchedScript {
    WatchedScript {
        network: BitcoinNetwork::Signet,
        script_pubkey: script.to_vec(),
        scan_from_height: from,
        is_public_demo: demo,
    }
}

#[test]
fn watches_round_trip_and_report_whether_they_were_already_present() {
    let mut s = store();
    assert!(!s.add_watch(&watch(b"abc", 100, false), 0));
    assert!(s.add_watch(&watch(b"abc", 100, false), 0));
    assert_eq!(s.watched(BitcoinNetwork::Signet).len(), 1);
}

#[test]
fn a_second_requester_cannot_raise_the_scan_floor() {
    let mut s = store();
    s.add_watch(&watch(b"abc", 100, false), 0);
    s.add_watch(&watch(b"abc", 900_000, false), 0);
    assert_eq!(
        s.watched(BitcoinNetwork::Signet)[0].scan_from_height,
        100
    );
}

#[test]
fn a_rewind_only_ever_moves_the_checkpoint_back() {
    let mut s = store();
    let at = |h| BlockAnchor {
        height: h,
        hash: BlockHash([0; 32]),
    };
    s.set_checkpoint(BitcoinNetwork::Signet, &at(500));
    s.rewind_checkpoint_to(BitcoinNetwork::Signet, 800);
    assert_eq!(
        s.checkpoint(BitcoinNetwork::Signet)
            .unwrap()
            .height,
        500
    );
    s.rewind_checkpoint_to(BitcoinNetwork::Signet, 300);
    assert_eq!(
        s.checkpoint(BitcoinNetwork::Signet)
            .unwrap()
            .height,
        300
    );
    s.rewind_checkpoint_to(BitcoinNetwork::Bitcoin, 300);
    assert!(s.checkpoint(BitcoinNetwork::Bitcoin).is_none());
}

#[test]
fn a_user_cannot_unwatch_the_operators_public_demo_script() {
    let mut s = store();
    s.add_watch(&watch(b"demo", 0, true), 0);
    s.remove_watch(BitcoinNetwork::Signet, b"demo");
    assert_eq!(s.watched(BitcoinNetwork::Signet).len(), 1);
}

#[test]
fn watches_are_per_network() {
    let mut s = store();
    s.add_watch(&watch(b"abc", 0, false), 0);
    let mut main = watch(b"abc", 0, false);
    main.network = BitcoinNetwork::Bitcoin;
    s.add_watch(&main, 0);
    assert_eq!(s.watched(BitcoinNetwork::Signet).len(), 1);
    assert_eq!(s.watched(BitcoinNetwork::Bitcoin).len(), 1);
}

fn interest<'a>(
    script: &'a [u8],
    gk: &'a [u8; 32],
    watching: bool,
    request_ms: u64,
) -> Interest<'a> {
    Interest {
        network: BitcoinNetwork::Signet,
        script,
        ghostkey: gk,
        watching,
        request_ms,
    }
}

#[test]
fn a_requesters_latest_request_wins_whatever_order_they_arrive_in() {
    let mut s = store();
    let gk = [1u8; 32];
    assert_eq!(
        s.set_interest(&interest(b"abc", &gk, false, 20), 10, 0),
        InterestChange::Unchanged
    );
    assert_eq!(
        s.set_interest(&interest(b"abc", &gk, true, 10), 10, 0),
        InterestChange::Stale,
        "the earlier Watch arrived after the later Unwatch, and changes nothing"
    );
    assert_eq!(
        s.set_interest(&interest(b"abc", &gk, true, 30), 10, 0),
        InterestChange::Watching
    );
    assert_eq!(
        s.set_interest(&interest(b"abc", &gk, true, 30), 10, 0),
        InterestChange::Stale,
        "the same request read twice"
    );
}

#[test]
fn a_withdrawal_says_whether_anyone_still_wants_the_script() {
    let mut s = store();
    let (a, b) = ([1u8; 32], [2u8; 32]);
    s.set_interest(&interest(b"abc", &a, true, 1), 10, 0);
    s.set_interest(&interest(b"abc", &b, true, 1), 10, 0);
    assert_eq!(
        s.set_interest(&interest(b"abc", &a, false, 2), 10, 0),
        InterestChange::Withdrawn { last: false }
    );
    assert_eq!(
        s.set_interest(&interest(b"abc", &b, false, 2), 10, 0),
        InterestChange::Withdrawn { last: true }
    );
}

#[test]
fn a_requester_cannot_watch_more_than_its_limit() {
    let mut s = store();
    let gk = [1u8; 32];
    s.set_interest(&interest(b"s1", &gk, true, 1), 2, 0);
    s.set_interest(&interest(b"s2", &gk, true, 1), 2, 0);
    assert_eq!(
        s.set_interest(&interest(b"s3", &gk, true, 1), 2, 0),
        InterestChange::OverCap
    );
    s.set_interest(&interest(b"s1", &gk, false, 2), 2, 0);
    assert_eq!(
        s.set_interest(&interest(b"s3", &gk, true, 3), 2, 0),
        InterestChange::Watching,
        "a withdrawal frees room"
    );
}

#[test]
fn a_script_watched_before_the_inbox_gets_an_owner_that_never_leaves() {
    let mut s = store();
    s.add_watch(&watch(b"old", 0, false), 0);
    let gk = [1u8; 32];
    s.set_interest(&interest(b"old", &gk, true, 1), 10, 0);
    assert_eq!(
        s.set_interest(&interest(b"old", &gk, false, 2), 10, 0),
        InterestChange::Withdrawn { last: false }
    );
}

#[test]
fn old_withdrawals_are_forgotten() {
    let mut s = store();
    let gk = [1u8; 32];
    s.set_interest(&interest(b"abc", &gk, false, 20), 10, 1_000);
    s.prune_withdrawals_before(2_000);
    assert_eq!(
        s.set_interest(&interest(b"abc", &gk, true, 10), 10, 3_000),
        InterestChange::Watching,
        "once forgotten, the withdrawal no longer outranks an older request"
    );
}

#[test]
fn the_signed_floor_only_rises() {
    let mut s = store();
    assert_eq!(s.signed_floor(), None);
    s.set_signed_floor(100);
    s.set_signed_floor(90);
    assert_eq!(s.signed_floor(), Some(100));
}

#[test]
fn a_withdrawal_beats_a_watch_made_in_the_same_millisecond() {
    let gk = [1u8; 32];
    let mut s = store();
    s.set_interest(&interest(b"abc", &gk, true, 5), 10, 0);
    assert_eq!(
        s.set_interest(&interest(b"abc", &gk, false, 5), 10, 0),
        InterestChange::Withdrawn { last: true },
        "the Unwatch read second still applies"
    );
    let mut s = store();
    s.set_interest(&interest(b"abc", &gk, false, 5), 10, 0);
    assert_eq!(
        s.set_interest(&interest(b"abc", &gk, true, 5), 10, 0),
        InterestChange::Stale,
        "the Watch read second does not"
    );
}

#[test]
fn withdrawals_of_scripts_never_watched_are_bounded_per_requester() {
    let mut s = store();
    let gk = [1u8; 32];
    for script in [b"s1", b"s2", b"s3"] {
        s.set_interest(&interest(script, &gk, false, 5), 2, 0);
    }
    assert_eq!(
        s.set_interest(&interest(b"s2", &gk, true, 1), 2, 0),
        InterestChange::Stale,
        "the second withdrawal was recorded"
    );
    assert_eq!(
        s.set_interest(&interest(b"s3", &gk, true, 1), 2, 0),
        InterestChange::Watching,
        "the third was over the bound and was not"
    );
}

#[test]
fn the_all_zero_key_is_an_ordinary_requester_not_the_operator() {
    let mut s = store();
    s.add_watch(&watch(b"old", 0, false), 0);
    let zero = [0u8; 32];
    s.set_interest(&interest(b"old", &zero, true, 1), 10, 0);
    assert_eq!(
        s.set_interest(&interest(b"old", &zero, false, 2), 10, 0),
        InterestChange::Withdrawn { last: false },
        "the operator still wants it"
    );
}

#[test]
fn only_payments_a_reorg_moved_and_nobody_found_again_are_in_doubt() {
    let mut s = store();
    let net = BitcoinNetwork::Signet;
    let at = Some((100, BlockHash([1; 32])));
    s.record_output(net, b"moved", &[1; 32], 0, 5, None);
    s.record_output(net, b"moved", &[1; 32], 1, 5, None);
    s.record_output(net, b"settled", &[2; 32], 0, 5, at);
    s.record_output(BitcoinNetwork::Bitcoin, b"elsewhere", &[3; 32], 0, 5, None);
    assert_eq!(
        s.scripts_with_unconfirmed_outputs(net),
        vec![b"moved".to_vec()]
    );
    s.record_output(net, b"moved", &[1; 32], 0, 5, at);
    s.record_output(net, b"moved", &[1; 32], 1, 5, at);
    assert!(s.scripts_with_unconfirmed_outputs(net).is_empty());
}

#[test]
fn handled_entries_are_forgotten_once_the_floor_passes_them() {
    let mut s = store();
    s.mark_handled(&[1; 32], 100, &[]);
    s.mark_handled(&[2; 32], 110, &[]);
    s.prune_handled_below(105);
    assert!(!s.is_handled(&[1; 32]));
    assert!(s.is_handled(&[2; 32]));
}

#[test]
fn a_reorg_unconfirms_exactly_the_orphaned_outputs() {
    let mut s = store();
    let net = BitcoinNetwork::Signet;
    s.record_output(
        net,
        b"spk",
        &[1; 32],
        0,
        1000,
        Some((100, BlockHash([9; 32]))),
    );
    s.record_output(
        net,
        b"spk",
        &[2; 32],
        0,
        2000,
        Some((105, BlockHash([8; 32]))),
    );

    let orphaned = s.outputs_above(net, 102);
    assert_eq!(orphaned.len(), 1);
    assert_eq!(orphaned[0].1, [2u8; 32]);

    s.unconfirm_above(net, 102);
    assert!(s.outputs_above(net, 102).is_empty());
    assert_eq!(s.outputs_above(net, 99).len(), 1);
}

#[test]
fn deep_claims_are_offered_as_the_chain_buries_them_and_stop_at_the_ceiling() {
    let mut s = store();
    let net = BitcoinNetwork::Signet;
    s.record_output(
        net,
        b"spk",
        &[1; 32],
        0,
        1000,
        Some((100, BlockHash([9; 32]))),
    );

    assert!(s
        .outputs_needing_deep_claim(net, 100, 6)
        .is_empty());

    let due = s.outputs_needing_deep_claim(net, 101, 6);
    assert_eq!(due.len(), 1);
    assert_eq!(due[0].5, 0, "nothing asserted beyond first sight yet");

    s.mark_deep_published(net, &[1; 32], 0, 2);
    assert_eq!(s.outputs_needing_deep_claim(net, 103, 6)[0].5, 2);

    s.mark_deep_published(net, &[1; 32], 0, 6);
    assert!(
        s.outputs_needing_deep_claim(net, 10_000, 6)
            .is_empty(),
        "the ceiling must terminate the ladder"
    );

    s.mark_deep_published(net, &[1; 32], 0, 2);
    assert!(s
        .outputs_needing_deep_claim(net, 10_000, 6)
        .is_empty());
}

#[test]
fn a_reorg_resets_the_asserted_depth() {
    let mut s = store();
    let net = BitcoinNetwork::Signet;
    s.record_output(
        net,
        b"spk",
        &[1; 32],
        0,
        1000,
        Some((100, BlockHash([9; 32]))),
    );
    s.mark_deep_published(net, &[1; 32], 0, 4);
    s.unconfirm_above(net, 99);
    s.record_output(
        net,
        b"spk",
        &[1; 32],
        0,
        1000,
        Some((100, BlockHash([7; 32]))),
    );
    assert_eq!(s.outputs_needing_deep_claim(net, 110, 6)[0].5, 0);
}

#[test]
fn checkpoints_round_trip() {
    let mut s = store();
    let a = BlockAnchor {
        height: 12345,
        hash: BlockHash([7; 32]),
    };
    s.set_checkpoint(BitcoinNetwork::Signet, &a);
    assert_eq!(s.checkpoint(BitcoinNetwork::Signet), Some(a));
}

#[test]
fn published_claims_are_reported_new_exactly_once() {
    let mut s = store();
    let net = BitcoinNetwork::Signet;
    assert!(s.mark_published(net, b"spk", &[3; 32]));
    assert!(!s.mark_published(net, b"spk", &[3; 32]));
}

#[test]
fn block_pruning_keeps_the_recent_window() {
    let mut s = store();
    let net = BitcoinNetwork::Signet;
    for h in 0..200u32 {
        s.record_block(net, h, &BlockHash([h as u8; 32]));
    }
    s.prune_blocks(net, 199, 50);
    assert!(s.block_at(net, 100).is_none());
    assert!(s.block_at(net, 180).is_some());
}

#[test]
fn a_code_hash_change_clears_the_publish_record() {
    let mut s = Store::open_in_memory();
    let net = BitcoinNetwork::Signet;
    let hash_a = [1u8; 32];
    let hash_b = [2u8; 32];

    assert!(
        !s.set_publish_generation(&hash_a),
        "first run is not a change"
    );
    assert!(
        s.mark_published(net, b"spk", &[9; 32]),
        "claim is new"
    );
    assert!(
        !s.mark_published(net, b"spk", &[9; 32]),
        "and now known"
    );

    assert!(!s.set_publish_generation(&hash_a));
    assert!(
        !s.mark_published(net, b"spk", &[9; 32]),
        "still known"
    );

    assert!(
        s.set_publish_generation(&hash_b),
        "must report the change"
    );
    assert!(
        s.mark_published(net, b"spk", &[9; 32]),
        "after a re-key the claim must look new again, or the successor \
         contract is never populated"
    );
}

#[test]
fn a_restart_with_no_wasm_change_does_not_republish() {
    let mut s = Store::open_in_memory();
    let h = [7u8; 32];
    s.set_publish_generation(&h);
    s.mark_published(BitcoinNetwork::Signet, b"spk", &[1; 32]);
    for _ in 0..3 {
        assert!(!s.set_publish_generation(&h));
    }
    assert!(!s
        .mark_published(BitcoinNetwork::Signet, b"spk", &[1; 32]));
}

#[test]
fn a_marker_is_written_only_when_asked_and_is_scoped_to_a_generation() {
    let mut s = Store::open_in_memory();
    let inst = b"instance-1";
    let gen_a = [1u8; 32];
    let gen_b = [2u8; 32];

    assert!(!s.migration_done(inst, &gen_a));
    s.set_migration_done(inst, &gen_a, "recovered");
    assert!(s.migration_done(inst, &gen_a));

    assert!(
        !s.migration_done(inst, &gen_b),
        "a marker must not carry across a re-key"
    );
}

#[test]
fn markers_are_per_instance() {
    let mut s = Store::open_in_memory();
    let gen = [7u8; 32];
    s.set_migration_done(b"a", &gen, "seed_local");
    assert!(!s.migration_done(b"b", &gen));
}

#[test]
fn a_watch_that_ran_out_says_whether_anyone_still_wants_the_script() {
    let (a, b) = ([1u8; 32], [2u8; 32]);
    let mut s = store();
    s.set_interest(&interest(b"abc", &a, true, 5), 10, 0);
    s.set_interest(&interest(b"abc", &b, true, 5), 10, 0);
    assert!(s.expire_interest(BitcoinNetwork::Signet, b"abc", &a, 9), "the other one still does");
    assert!(!s.expire_interest(BitcoinNetwork::Signet, b"abc", &b, 9), "nobody does any more");
    assert_eq!(
        s.set_interest(&interest(b"abc", &a, true, 5), 10, 10),
        InterestChange::Stale,
        "a delayed copy does not bring it back"
    );
    assert_eq!(
        s.set_interest(&interest(b"abc", &a, true, 6), 10, 10),
        InterestChange::Watching,
        "a newer one does"
    );
}

#[test]
fn the_newest_of_many_requests_stands_whatever_order_they_are_read_in() {
    let gk = [1u8; 32];
    let asks = [(true, 10u64), (false, 30), (true, 30), (true, 20)];
    for order in [[0, 1, 2, 3], [3, 2, 1, 0], [2, 1, 0, 3], [1, 3, 0, 2], [2, 0, 3, 1]] {
        let mut s = store();
        for i in order {
            let (watching, at) = asks[i];
            s.set_interest(&interest(b"abc", &gk, watching, at), 10, 0);
        }
        assert_eq!(s.watchers(BitcoinNetwork::Signet, b"abc"), 0, "{order:?}");
        assert_eq!(
            s.set_interest(&interest(b"abc", &gk, true, 30), 10, 0),
            InterestChange::Stale
        );
        assert_eq!(
            s.set_interest(&interest(b"abc", &gk, true, 31), 10, 0),
            InterestChange::Watching
        );
    }
}
