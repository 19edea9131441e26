use memory_bench::args::{parse_args, parse_count, parse_iterations, parse_mode, Command, Mode, RunConfig};
use memory_bench::dispatch::{run_sync, Action, Dispatcher};
use memory_bench::report::{bytes_to_kb, memory_difference, mode_name, Report};
use memory_bench::workload::{allocate_sync, fill_random, max_byte, RandomSource, BUFFER_SIZE};

fn argv(items: &[&str]) -> Vec<String> {
    items.iter().map(|s| s.to_string()).collect()
}

#[test]
fn no_mode_prints_usage() {
    assert_eq!(parse_args(&argv(&["prog"])), Command::Usage);
    assert_eq!(parse_args(&argv(&[])), Command::Usage);
}

#[test]
fn sync_without_count_runs_ten() {
    assert_eq!(
        parse_args(&argv(&["prog", "sync"])),
        Command::Run(RunConfig { mode: Mode::Sync, iterations: 10 })
    );
}

#[test]
fn sync_with_count_runs_that_many() {
    assert_eq!(
        parse_args(&argv(&["prog", "sync", "5"])),
        Command::Run(RunConfig { mode: Mode::Sync, iterations: 5 })
    );
}

#[test]
fn unparsable_count_falls_back_to_ten() {
    assert_eq!(
        parse_args(&argv(&["prog", "sync", "notanumber"])),
        Command::Run(RunConfig { mode: Mode::Sync, iterations: 10 })
    );
}

#[test]
fn unknown_mode_is_rejected() {
    assert_eq!(parse_args(&argv(&["prog", "bogus", "3"])), Command::InvalidMode);
    assert_eq!(parse_args(&argv(&["prog", "SYNC"])), Command::InvalidMode);
    assert_eq!(parse_args(&argv(&["prog", ""])), Command::InvalidMode);
}

#[test]
fn async_mode_is_parsed() {
    assert_eq!(
        parse_args(&argv(&["prog", "async", "7", "extra"])),
        Command::Run(RunConfig { mode: Mode::Async, iterations: 7 })
    );
}

#[test]
fn zero_count_falls_back_to_ten() {
    assert_eq!(parse_iterations("0"), 10);
    assert_eq!(parse_iterations("000"), 10);
}

#[test]
fn count_grammar_follows_unsigned_parse() {
    for s in ["", "+", "-", "-3", "1x", " 1", "1 ", "++1", "1.0"] {
        assert_eq!(parse_count(s), None, "{s:?}");
        assert_eq!(s.parse::<usize>().ok(), None, "{s:?}");
    }
    for s in ["0", "7", "+7", "0012", "1000000"] {
        assert_eq!(parse_count(s), s.parse::<usize>().ok(), "{s:?}");
    }
    assert_eq!(parse_count("+12"), Some(12));
    assert_eq!(parse_iterations("+7"), 7);
}

#[test]
fn count_at_and_past_the_limit() {
    let max = usize::MAX.to_string();
    assert_eq!(parse_count(&max), Some(usize::MAX));
    let past = format!("{}0", max);
    assert_eq!(parse_count(&past), None);
    assert_eq!(parse_iterations(&past), 10);
    assert_eq!(parse_count("99999999999999999999999999"), None);
}

#[test]
fn mode_tokens() {
    assert_eq!(parse_mode("sync"), Some(Mode::Sync));
    assert_eq!(parse_mode("async"), Some(Mode::Async));
    assert_eq!(parse_mode("asyn"), None);
    assert_eq!(mode_name(Mode::Sync), "sync");
    assert_eq!(mode_name(Mode::Async), "async");
}

#[test]
fn same_arguments_same_report_fields() {
    let a = parse_args(&argv(&["prog", "async", "4"]));
    let b = parse_args(&argv(&["prog", "async", "4"]));
    assert_eq!(a, b);
    if let (Command::Run(ca), Command::Run(cb)) = (a, b) {
        let ra = Report::from_samples(ca, 10_000_000, 12_000_000);
        let rb = Report::from_samples(cb, 9_000_000, 3_000_000);
        assert_eq!(ra.iterations, rb.iterations);
        assert_eq!(mode_name(ra.mode), mode_name(rb.mode));
        assert_eq!(mode_name(ra.mode), "async");
    } else {
        panic!("expected a run");
    }
}

#[test]
fn max_byte_values() {
    assert_eq!(max_byte(&vec![0u8]), 0);
    assert_eq!(max_byte(&vec![3u8, 9, 2, 9, 1]), 9);
    assert_eq!(max_byte(&vec![255u8, 0, 17]), 255);
    assert_eq!(max_byte(&vec![4u8, 4, 4]), 4);
}

#[test]
fn fill_random_keeps_length_and_changes_bytes() {
    let mut src = RandomSource::new();
    let mut data = vec![0u8; 4096];
    fill_random(&mut src, &mut data);
    assert_eq!(data.len(), 4096);
    assert!(data.iter().any(|&b| b != 0));
    let mut empty: Vec<u8> = Vec::new();
    fill_random(&mut src, &mut empty);
    assert!(empty.is_empty());
}

#[test]
fn workload_max_reaches_top_byte() {
    assert_eq!(BUFFER_SIZE, 1_000_000);
    // The chance that a million uniform bytes miss 255 is about e^-3900.
    let mut src = RandomSource::new();
    assert_eq!(allocate_sync(&mut src), 255);
    assert_eq!(allocate_sync(&mut src), 255);
    assert_eq!(allocate_sync(&mut RandomSource::new()), 255);
}

#[test]
fn sync_run_invokes_workload_n_times() {
    let mut src = RandomSource::new();
    assert_eq!(run_sync(&mut src, 1), vec![255u8]);
    assert_eq!(run_sync(&mut src, 3), vec![255u8, 255, 255]);
    assert!(run_sync(&mut src, 0).is_empty());
}

#[test]
fn async_dispatch_submits_all_then_joins_all() {
    let n: usize = 5;
    let mut d = Dispatcher::new(RunConfig { mode: Mode::Async, iterations: n });
    let mut trace = Vec::new();
    loop {
        let a = d.next_action();
        trace.push(a);
        match a {
            Action::Spawn => d.record_spawn(),
            Action::Join => d.record_join(),
            Action::RunBlocking => d.record_run(),
            Action::SampleFinal => break,
        }
    }
    let mut expected = vec![Action::Spawn; n];
    expected.extend(vec![Action::Join; n]);
    expected.push(Action::SampleFinal);
    assert_eq!(trace, expected);
    assert_eq!(d.started, n);
    assert_eq!(d.completed, n);
}

#[test]
fn next_byte_draws_varied_bytes() {
    let mut src = RandomSource::new();
    let bytes: Vec<u8> = (0..256).map(|_| src.next_byte()).collect();
    assert!(bytes.iter().any(|&b| b != bytes[0]));
}

#[test]
fn sync_dispatch_runs_one_at_a_time() {
    let mut d = Dispatcher::new(RunConfig { mode: Mode::Sync, iterations: 3 });
    let mut runs = 0;
    while d.next_action() == Action::RunBlocking {
        assert_eq!(d.started, d.completed);
        d.record_run();
        runs += 1;
    }
    assert_eq!(runs, 3);
    assert_eq!(d.next_action(), Action::SampleFinal);
}

#[test]
fn memory_difference_keeps_sign() {
    assert_eq!(memory_difference(100, 40), -60);
    assert_eq!(memory_difference(40, 100), 60);
    assert_eq!(memory_difference(7, 7), 0);
    let top = u64::MAX / 1024;
    assert_eq!(memory_difference(0, top), top as i64);
    assert_eq!(memory_difference(top, 0), -(top as i64));
}

#[test]
fn kilobytes_round_down() {
    assert_eq!(bytes_to_kb(0), 0);
    assert_eq!(bytes_to_kb(1023), 0);
    assert_eq!(bytes_to_kb(2048), 2);
    assert_eq!(bytes_to_kb(u64::MAX), u64::MAX / 1024);
}

#[test]
fn report_from_samples() {
    let cfg = RunConfig { mode: Mode::Sync, iterations: 10 };
    let r = Report::from_samples(cfg, 5_242_880, 4_194_304);
    assert_eq!(r.iterations, 10);
    assert_eq!(r.mode, Mode::Sync);
    assert_eq!(r.initial_kb, 5120);
    assert_eq!(r.final_kb, 4096);
    assert_eq!(r.difference_kb, -1024);
}
