use evm_address_extractor::endpoints::get_rpc_list;
use evm_address_extractor::number::NumberError;
use evm_address_extractor::options::{read_environment, read_options, OptionsError, Settings};
use evm_address_extractor::plan::{
    micro_batches, reports_progress, resume, total_blocks, Extraction, Origin, Part,
    BLOCKS_PER_PART, BLOCKS_PER_RPC_BATCH, CONCURRENCY,
};
use evm_address_extractor::range::{BlockRange, Begins, RangeFinder, RangeStep};
use evm_address_extractor::search::{find_first_block_at_or_after, BlockSearch, SearchStep};

fn strings(list: &[&str]) -> Vec<String> {
    list.iter().map(|s| s.to_string()).collect()
}

fn unset() -> Settings {
    read_environment(None, None, None)
}

#[test]
fn each_chain_has_its_endpoints() {
    assert_eq!(get_rpc_list("bnb", None).unwrap().len(), 5);
    assert_eq!(get_rpc_list("ethereum", None).unwrap().len(), 4);
    for chain in ["polygon", "arbitrum", "base", "optimism", "avalanche_c"] {
        assert_eq!(get_rpc_list(chain, None).unwrap().len(), 3);
    }
    assert_eq!(
        get_rpc_list("base", None).unwrap(),
        strings(&["https://mainnet.base.org", "https://base.llamarpc.com", "https://1rpc.io/base"])
    );
    assert_eq!(get_rpc_list("solana", Some("http://x")), Err("Unsupported chain: solana".to_string()));
}

#[test]
fn an_endpoint_of_ones_own_comes_first() {
    let list = get_rpc_list("base", Some("  http://mine\n")).unwrap();
    assert_eq!(list.len(), 4);
    assert_eq!(list[0], "http://mine");
    assert_eq!(get_rpc_list("base", Some(" \t")).unwrap().len(), 3);
    assert_eq!(
        get_rpc_list("base", Some("https://1rpc.io/base")).unwrap(),
        strings(&["https://1rpc.io/base", "https://mainnet.base.org", "https://base.llamarpc.com"])
    );
}

#[test]
fn the_environment_gives_defaults() {
    let settings = read_environment(None, Some("x"), Some("9"));
    assert_eq!(settings.chain, "bnb");
    assert_eq!(settings.start_ts, None);
    assert_eq!(settings.end_ts, Some(9));
    assert_eq!(read_environment(Some("base"), None, None).chain, "base");
}

#[test]
fn arguments_override_the_environment() {
    let settings = read_environment(Some("base"), Some("1"), Some("2"));
    let args = strings(&["prog", "--chain", "polygon", "x", "--end-ts", "30", "--start-ts", "+20"]);
    let options = read_options(settings, &args).unwrap();
    assert_eq!(options.chain, "polygon");
    assert_eq!((options.start_ts, options.end_ts), (20, 30));
}

#[test]
fn an_option_takes_the_argument_behind_it() {
    let settings = read_environment(None, Some("1"), Some("2"));
    let args = strings(&["--chain", "--chain", "--start-ts", "7", "--chain"]);
    let options = read_options(settings, &args).unwrap();
    assert_eq!(options.chain, "--start-ts");
    assert_eq!((options.start_ts, options.end_ts), (1, 2));
}

#[test]
fn the_last_option_counts() {
    let settings = read_environment(None, Some("1"), Some("9"));
    let args = strings(&["p", "--chain", "base", "--start-ts", "2", "--chain", "bnb", "--start-ts", "3"]);
    let options = read_options(settings, &args).unwrap();
    assert_eq!(options.chain, "bnb");
    assert_eq!((options.start_ts, options.end_ts), (3, 9));
}

#[test]
fn options_that_do_not_do_are_refused() {
    assert_eq!(read_options(unset(), &strings(&["p"])), Err(OptionsError::MissingStart));
    assert_eq!(
        read_options(unset(), &strings(&["p", "--start-ts", "1"])),
        Err(OptionsError::MissingEnd)
    );
    assert_eq!(
        read_options(unset(), &strings(&["p", "--start-ts", "3", "--end-ts", "2"])),
        Err(OptionsError::StartAfterEnd)
    );
    assert_eq!(
        read_options(unset(), &strings(&["p", "--start-ts", "x", "--end-ts", "2"])),
        Err(OptionsError::InvalidTimestamp(NumberError::InvalidDigit))
    );
    assert_eq!(OptionsError::MissingStart.message(), "Missing start timestamp");
    assert_eq!(OptionsError::MissingEnd.message(), "Missing end timestamp");
    assert_eq!(
        OptionsError::StartAfterEnd.message(),
        "Start timestamp cannot be greater than end timestamp"
    );
    assert_eq!(
        OptionsError::InvalidTimestamp(NumberError::TooLarge).message(),
        "number too large to fit in target type"
    );
}

fn first_at_or_after(times: &[u64], target: u64, low: u64, high: u64) -> (u64, usize) {
    let mut asked = 0;
    let (mut search, mut step) =
        find_first_block_at_or_after(BlockSearch { target, low, high }, None).unwrap();
    loop {
        match step {
            SearchStep::Found(block) => return (block, asked),
            SearchStep::Ask(block) => {
                asked += 1;
                let time = Ok(times[block as usize]);
                let pair = find_first_block_at_or_after(search, Some(time)).unwrap();
                search = pair.0;
                step = pair.1;
            }
        }
    }
}

#[test]
fn the_first_block_at_or_after_a_time_is_found() {
    let times = [10, 20, 20, 30, 50, 50, 60];
    for target in 0..70 {
        let expected = times.iter().position(|t| *t >= target).unwrap_or(6).min(6) as u64;
        let (found, asked) = first_at_or_after(&times, target, 0, 6);
        assert_eq!(found, expected);
        assert!(asked <= 3);
    }
    assert_eq!(first_at_or_after(&times, 5, 4, 4).0, 4);
    assert_eq!(first_at_or_after(&times, 5, 5, 4).0, 5);
}

fn find_range(times: &[u64], start_ts: u64, end_ts: u64) -> (Result<BlockRange, String>, Vec<Begins>) {
    let mut begun = Vec::new();
    let (mut finder, mut step) = RangeFinder::begin(start_ts, end_ts);
    loop {
        let answer = match step {
            RangeStep::AskLatestBlock => times.len() as u64 - 1,
            RangeStep::AskTime { block, begins } => {
                begun.extend(begins);
                times[block as usize]
            }
            RangeStep::Found(range) => return (Ok(range), begun),
            RangeStep::Fail(text) => return (Err(text), begun),
        };
        let pair = finder.answer(Ok(answer));
        finder = pair.0;
        step = pair.1;
    }
}

#[test]
fn the_range_holds_the_blocks_between_the_times() {
    let times = [10, 20, 20, 30, 50, 50, 60];
    for start_ts in 0..=60 {
        for end_ts in start_ts..70 {
            let range = find_range(&times, start_ts, end_ts).0.unwrap();
            for (block, time) in times.iter().enumerate() {
                let inside = start_ts <= *time && *time <= end_ts;
                let found = range.start <= block as u64 && block as u64 <= range.end;
                if end_ts >= 10 {
                    assert_eq!(found, inside, "{} {} {}", start_ts, end_ts, block);
                }
            }
        }
    }
}

#[test]
fn a_range_before_the_first_block_keeps_that_block() {
    let range = find_range(&[10, 20], 1, 2).0.unwrap();
    assert_eq!(range, BlockRange { start: 0, start_time: 10, end: 0, end_time: 10 });
    assert!(!range.is_empty());
}

#[test]
fn a_range_between_two_blocks_is_empty() {
    let (range, begun) = find_range(&[10, 20, 30], 11, 12);
    let range = range.unwrap();
    assert_eq!((range.start, range.end), (1, 0));
    assert!(range.is_empty());
    assert_eq!(begun, vec![Begins::Start, Begins::End]);
    assert_eq!(find_range(&[10, 20], 10, 99).1, vec![Begins::Start]);
}

#[test]
fn a_range_in_the_future_is_refused() {
    assert_eq!(
        find_range(&[10, 20], 21, 30).0,
        Err("Requested start date is in the future. Latest chain timestamp: 20".to_string())
    );
}

#[test]
fn the_time_of_the_end_of_a_search_does_not_matter() {
    let times = [10, 20, 30, 0];
    assert_eq!(first_at_or_after(&times, 20, 0, 3).0, 1);
    assert_eq!(first_at_or_after(&times, 40, 0, 3).0, 3);
}

#[test]
fn a_question_without_an_answer_ends_the_finding() {
    let search = BlockSearch { target: 5, low: 0, high: 9 };
    assert_eq!(
        find_first_block_at_or_after(search, Some(Err("down".to_string()))),
        Err("down".to_string())
    );
    for answers in 0..4 {
        let (mut finder, mut step) = RangeFinder::begin(3, 6);
        for _ in 0..answers {
            let answer = match step {
                RangeStep::AskTime { block, .. } => block,
                _ => 8,
            };
            let pair = finder.answer(Ok(answer));
            finder = pair.0;
            step = pair.1;
        }
        match finder.answer(Err("down".to_string())) {
            (_, RangeStep::Fail(text)) => assert_eq!(text, "down"),
            _ => panic!("the finding should have ended"),
        }
    }
}

#[test]
fn the_last_block_of_all_is_taken_again() {
    let at = Extraction { current: u64::MAX - 1, end: u64::MAX, part: 1 };
    assert_eq!(at.checkpoint(), u64::MAX);
    assert_eq!(at.part_done(), Some(Extraction { current: u64::MAX, end: u64::MAX, part: 2 }));
}

#[test]
fn the_last_part_number_still_has_a_checkpoint() {
    let at = Extraction { current: 0, end: 5_000_000, part: u32::MAX };
    assert_eq!(at.checkpoint(), 1_000_000);
}

#[test]
fn blocks_are_counted() {
    assert_eq!(total_blocks(5, 5), 1);
    assert_eq!(total_blocks(5, 14), 10);
    assert_eq!(total_blocks(6, 5), 0);
}

#[test]
fn a_checkpoint_counts_within_its_range() {
    assert_eq!(resume(None, 10, 20), Origin::Start(10));
    assert_eq!(resume(Some(9), 10, 20), Origin::Start(10));
    assert_eq!(resume(Some(10), 10, 20), Origin::Checkpoint(10));
    assert_eq!(resume(Some(21), 10, 20), Origin::Checkpoint(21));
    assert_eq!(resume(Some(22), 10, 20), Origin::Start(10));
    assert_eq!(resume(Some(21), 10, 20).block(), 21);
    assert_eq!(resume(Some(22), 10, 20).block(), 10);
}

#[test]
fn batches_hold_every_block_once() {
    for (first, last) in [(0u64, 0u64), (1, 24), (1, 25), (1, 26), (7, 106), (u64::MAX - 30, u64::MAX)] {
        let batches = micro_batches(first, last);
        let all: Vec<u64> = batches.iter().flatten().copied().collect();
        assert_eq!(all, (first..=last).collect::<Vec<u64>>());
        for (i, batch) in batches.iter().enumerate() {
            assert!(!batch.is_empty() && batch.len() as u64 <= BLOCKS_PER_RPC_BATCH);
            assert!(i + 1 == batches.len() || batch.len() as u64 == BLOCKS_PER_RPC_BATCH);
        }
    }
    assert!(micro_batches(2, 1).is_empty());
    assert_eq!(CONCURRENCY, 12);
}

#[test]
fn parts_follow_each_other_to_the_end() {
    let mut at = Extraction { current: 5, end: 2_000_004, part: 3 };
    let mut parts = Vec::new();
    let mut saved = Vec::new();
    loop {
        parts.push(at.next_part().unwrap());
        saved.push(at.checkpoint());
        match at.part_done() {
            Some(rest) => at = rest,
            None => break,
        }
    }
    assert_eq!(
        parts,
        vec![
            Part { number: 3, first: 5, last: 1_000_004 },
            Part { number: 4, first: 1_000_005, last: 2_000_004 },
        ]
    );
    assert_eq!(saved, vec![1_000_005, 2_000_005]);
    assert_eq!(parts[0].last - parts[0].first + 1, BLOCKS_PER_PART);
    assert_eq!(resume(Some(saved[0]), 5, 2_000_004), Origin::Checkpoint(1_000_005));
    assert_eq!(Extraction { current: 6, end: 5, part: 1 }.next_part(), None);
    assert_eq!(
        Extraction { current: u64::MAX - 1, end: u64::MAX, part: 1 }.next_part(),
        Some(Part { number: 1, first: u64::MAX - 1, last: u64::MAX })
    );
}

#[test]
fn progress_is_reported_now_and_then() {
    assert!(reports_progress(1000, 4000));
    assert!(reports_progress(7, 7));
    assert!(!reports_progress(999, 4000));
}
