use cluster_gossip::server_params::{
    capped_threads, default_num_tpu_transaction_forward_receive_threads,
    default_num_tpu_transaction_receive_threads, default_num_tpu_vote_transaction_receive_threads,
    QuicServerParams,
};
use cluster_gossip::identity::Pubkey;
use cluster_gossip::slot_report::{
    entry_spans, entry_transaction_ranges, program_id_line, slot_status, slots_to_output,
    sorted_program_ids, writeln_entry, CliEntries, CliEntry, EntrySpan, ProgramCount, SlotBankHash,
    SlotBounds, SlotEntry, SlotInfo, TotalAccountsStats,
};
use cluster_gossip::text::{push_decimal, push_decimal_list};

#[test]
fn decimal_numerals() {
    let mut out = String::new();
    push_decimal(&mut out, 0);
    out.push(' ');
    push_decimal(&mut out, 7);
    out.push(' ');
    push_decimal(&mut out, 10);
    out.push(' ');
    push_decimal(&mut out, 1234567890);
    out.push(' ');
    push_decimal(&mut out, u64::MAX);
    assert_eq!(out, "0 7 10 1234567890 18446744073709551615");
    let mut list = String::new();
    push_decimal_list(&mut list, &vec![]);
    assert_eq!(list, "");
    push_decimal_list(&mut list, &vec![5]);
    assert_eq!(list, "5");
    push_decimal_list(&mut list, &vec![1, 20, 300]);
    assert_eq!(list, "51, 20, 300");
}

#[test]
fn slot_bounds_of_an_empty_ledger() {
    let bounds = SlotBounds::default();
    assert_eq!(bounds.display(), "Ledger is empty\n");
}

#[test]
fn slot_bounds_with_roots() {
    let all = vec![2, 3, 5, 9];
    let bounds = SlotBounds {
        all_slots: Some(&all),
        slots: SlotInfo { total: 4, first: Some(2), last: Some(9), num_after_last_root: None },
        roots: SlotInfo { total: 2, first: Some(2), last: Some(5), num_after_last_root: Some(1) },
    };
    assert_eq!(
        bounds.display(),
        format!(
            "Ledger has data for {:?} slots {:?} to {:?}\nNon-empty slots: {:?}\n  with {:?} rooted \
             slots from {:?} to {:?}\n  and {:?} slots past the last root\n",
            4, 2, 9, all, 2, 2, 5, 1
        )
    );
    assert_eq!(
        bounds.display(),
        "Ledger has data for 4 slots 2 to 9\nNon-empty slots: [2, 3, 5, 9]\n  with 2 rooted slots \
         from 2 to 5\n  and 1 slots past the last root\n"
    );
}

#[test]
fn slot_bounds_of_a_single_slot() {
    let bounds = SlotBounds {
        all_slots: None,
        slots: SlotInfo { total: 1, first: Some(42), last: Some(42), num_after_last_root: None },
        roots: SlotInfo::default(),
    };
    assert_eq!(bounds.display(), "Ledger has data for slot 42\n  with no rooted slots\n");
}

#[test]
fn slot_bounds_without_the_list_of_slots() {
    let bounds = SlotBounds {
        all_slots: None,
        slots: SlotInfo { total: 3, first: Some(1), last: Some(8), num_after_last_root: None },
        roots: SlotInfo { total: 1, first: None, last: None, num_after_last_root: None },
    };
    assert_eq!(
        bounds.display(),
        "Ledger has data for 3 slots 1 to 8\n  with 1 rooted slots from 0 to 0\n  and 0 slots past \
         the last root\n"
    );
}

#[test]
fn bank_hash_line() {
    let line = SlotBankHash { slot: 12, hash: "abc".to_string() };
    assert_eq!(line.display(), "Bank hash for slot 12: abc\n");
}

#[test]
fn entry_lines() {
    let entry = CliEntry::new(10, "h1".to_string(), 3, 4);
    let mut out = String::from("x");
    writeln_entry(&mut out, 2, &entry, ">>");
    assert_eq!(
        out,
        "x>>Entry 2 - num_hashes: 10, hash: h1, transactions: 3, starting_transaction_index: 4\n"
    );
    let entries = CliEntries {
        entries: vec![CliEntry::new(1, "a".to_string(), 0, 0), CliEntry::new(2, "b".to_string(), 5, 0)],
        slot: 77,
    };
    assert_eq!(
        entries.display(),
        "Slot 77\n  Entry 0 - num_hashes: 1, hash: a, transactions: 0, starting_transaction_index: \
         0\n  Entry 1 - num_hashes: 2, hash: b, transactions: 5, starting_transaction_index: 0\n"
    );
}

#[test]
fn accounts_are_accumulated() {
    let mut stats = TotalAccountsStats::default();
    stats.accumulate_account(10, false);
    stats.accumulate_account(5, true);
    stats.accumulate_account(0, true);
    assert_eq!(stats.num_accounts, 3);
    assert_eq!(stats.data_len, 15);
    assert_eq!(stats.num_executable_accounts, 2);
    assert_eq!(stats.executable_data_len, 5);
}

#[test]
fn entries_are_matched_with_transactions() {
    let spans = vec![
        EntrySpan { num_transactions: 2, starting_transaction_index: 0 },
        EntrySpan { num_transactions: 0, starting_transaction_index: 2 },
        EntrySpan { num_transactions: 3, starting_transaction_index: 2 },
    ];
    assert_eq!(entry_transaction_ranges(5, &spans), Ok(vec![(0, 2), (2, 2), (2, 5)]));
    assert_eq!(entry_transaction_ranges(4, &spans), Err(2));
    let huge = vec![EntrySpan { num_transactions: u64::MAX, starting_transaction_index: 1 }];
    assert_eq!(entry_transaction_ranges(usize::MAX, &huge), Ok(vec![(1, usize::MAX)]));
    assert_eq!(entry_transaction_ranges(10, &huge), Err(0));
    let past = vec![EntrySpan { num_transactions: 0, starting_transaction_index: 6 }];
    assert_eq!(entry_transaction_ranges(5, &past), Err(0));
}

#[test]
fn server_defaults() {
    let params = QuicServerParams::default();
    assert_eq!(params.max_connections_per_peer, 1);
    assert_eq!(params.max_staked_connections, 2000);
    assert_eq!(params.max_unstaked_connections, 500);
    assert_eq!(params.max_streams_per_ms, 500);
    assert_eq!(params.max_connections_per_ipaddr_per_min, 8);
    assert_eq!(params.wait_for_chunk_timeout, 2000);
    assert_eq!(params.coalesce, 5);
    assert_eq!(params.coalesce_channel_size, 250_000);
    assert_eq!(params.num_threads, 1);
    let for_tests = QuicServerParams::default_for_tests();
    assert_eq!(
        for_tests,
        QuicServerParams { coalesce_channel_size: 100_000, num_threads: 8, ..params }
    );
}

#[test]
fn thread_counts_are_capped() {
    assert_eq!(capped_threads(4, 16), 4);
    assert_eq!(capped_threads(64, 16), 16);
    assert_eq!(capped_threads(16, 16), 16);
    let forward = default_num_tpu_transaction_forward_receive_threads();
    assert!(1 <= forward && forward <= 16);
    let receive = default_num_tpu_transaction_receive_threads();
    assert!(1 <= receive && receive <= 8);
    assert_eq!(receive, default_num_tpu_vote_transaction_receive_threads());
    assert_eq!(forward.min(8), receive);
}

#[test]
fn entries_start_where_the_last_ended() {
    let spans = entry_spans(&vec![2, 0, 3]);
    assert_eq!(spans.len(), 3);
    assert_eq!((spans[0].num_transactions, spans[0].starting_transaction_index), (2, 0));
    assert_eq!((spans[1].num_transactions, spans[1].starting_transaction_index), (0, 2));
    assert_eq!((spans[2].num_transactions, spans[2].starting_transaction_index), (3, 2));
    assert_eq!(entry_transaction_ranges(5, &spans), Ok(vec![(0, 2), (2, 2), (2, 5)]));
    assert!(entry_spans(&vec![]).is_empty());
}

#[test]
fn slot_headings() {
    assert_eq!(slot_status(true, false), " (root)");
    assert_eq!(slot_status(true, true), " (root)");
    assert_eq!(slot_status(false, true), " (dead)");
    assert_eq!(slot_status(false, false), "");
}

#[test]
fn the_walk_over_the_ledger() {
    let slots: Vec<SlotEntry> = [(1, true), (2, false), (3, true), (5, false), (8, true), (9, true)]
        .iter()
        .map(|&(slot, is_root)| SlotEntry { slot, is_root })
        .collect();
    assert_eq!(slots_to_output(&slots, 100, None, false), vec![1, 2, 3, 5, 8, 9]);
    assert_eq!(slots_to_output(&slots, 5, None, false), vec![1, 2, 3, 5]);
    assert_eq!(slots_to_output(&slots, 100, Some(2), false), vec![1, 2]);
    assert_eq!(slots_to_output(&slots, 100, None, true), vec![1, 3, 8, 9]);
    assert_eq!(slots_to_output(&slots, 8, Some(3), true), vec![1, 3, 8]);
    assert_eq!(slots_to_output(&slots, 4, Some(3), true), vec![1, 3]);
    // The limit is looked at after a slot was put out, so one slot always is.
    assert_eq!(slots_to_output(&slots, 100, Some(0), false), vec![1]);
    assert_eq!(slots_to_output(&slots, 0, None, false), Vec::<u64>::new());
    // A slot that is passed over does not end the walk.
    let unordered = vec![
        SlotEntry { slot: 9, is_root: false },
        SlotEntry { slot: 2, is_root: true },
    ];
    assert_eq!(slots_to_output(&unordered, 5, None, true), vec![2]);
    assert_eq!(slots_to_output(&unordered, 5, None, false), Vec::<u64>::new());
}

#[test]
fn programs_by_count() {
    let ids: Vec<ProgramCount> = [(1u8, 5u64), (2, 9), (3, 5), (4, 1), (5, 9)]
        .iter()
        .map(|&(k, count)| ProgramCount { program_id: Pubkey::new_from_array([k; 32]), count })
        .collect();
    let sorted = sorted_program_ids(&ids);
    let order: Vec<(u8, u64)> = sorted.iter().map(|p| (p.program_id.bytes[0], p.count)).collect();
    assert_eq!(order, vec![(2, 9), (5, 9), (1, 5), (3, 5), (4, 1)]);
    assert!(sorted_program_ids(&vec![]).is_empty());
    assert_eq!(program_id_line("abc", 12), format!("{:<44}: {}", "abc", 12));
    assert_eq!(
        program_id_line("11111111111111111111111111111111", 0),
        "11111111111111111111111111111111            : 0"
    );
    let long = "x".repeat(50);
    assert_eq!(program_id_line(&long, 7), format!("{:<44}: {}", long, 7));
}
