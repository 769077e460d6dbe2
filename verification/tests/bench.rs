use tessivum::bench::{
    check_file, count_open, load_paired_workload, nanoseconds, operations_per_second,
    paired_workload_json, parse_number, parse_options, pss_kib, queue_capacity, summarize, words,
    NumberFault, Options, PairedWorkload, Request,
};
use tessivum::document::parse_json;
use tessivum::json::JsonValue;
use tessivum::lifecycle::{Scope, ScopeTree};

fn json(text: &str) -> JsonValue {
    parse_json(text).expect("test value is JSON")
}

fn arguments(texts: &[&str]) -> Vec<Option<String>> {
    texts.iter().map(|text| Some(text.to_string())).collect()
}

fn options(texts: &[&str]) -> Options {
    match parse_options(&arguments(texts)) {
        Ok(Request::Run(options)) => options,
        other => panic!("{other:?}"),
    }
}

fn refusal(texts: &[&str]) -> String {
    parse_options(&arguments(texts)).expect_err("the command line is refused")
}

const WORKLOAD: &str = r#"{
    "schema": "tessivum.core-benchmark-workload/v1",
    "scopes": 1000,
    "serviceLookups": 256,
    "eventEmits": 256,
    "loaderEntries": 16,
    "rootChildren": 32
}"#;

#[test]
fn numbers_read_as_the_standard_library_reads_them() {
    for text in [
        "", "+", "-", "0", "007", "+5", "++5", "-1", "1_000", " 1", "1 ", "12a", "1.5",
        "18446744073709551615", "18446744073709551616", "99999999999999999999999", "\u{661}",
    ] {
        match text.parse::<u64>() {
            Ok(number) => assert_eq!(parse_number(text), Ok(number), "{text}"),
            Err(error) => {
                let fault = parse_number(text).expect_err(text);
                let message = match fault {
                    NumberFault::Empty => "cannot parse integer from empty string",
                    NumberFault::InvalidDigit => "invalid digit found in string",
                    NumberFault::TooLarge => "number too large to fit in target type",
                };
                assert_eq!(error.to_string(), message, "{text}");
            }
        }
    }
}

#[test]
fn command_lines_set_their_options() {
    let defaults = options(&["--wasm", "guest.wasm"]);
    assert_eq!(defaults.batch, 256);
    assert_eq!(defaults.node_host, "bun");
    assert_eq!(defaults.wasm.as_deref(), Some("guest.wasm"));
    assert!(!defaults.paired_only);

    let set = options(&[
        "--samples",
        "3",
        "--batch",
        "1024",
        "--node-host",
        "node",
        "--wasm",
        "a",
        "--wasm",
        "b",
    ]);
    assert_eq!(set.samples, 3);
    assert_eq!(set.batch, 1024);
    assert_eq!(set.node_host, "node");
    assert_eq!(set.wasm.as_deref(), Some("b"));

    let paired = options(&["--workload", "w.json", "--paired-only"]);
    assert!(paired.paired_only);
    assert_eq!(paired.workload.as_deref(), Some("w.json"));
    assert!(matches!(
        parse_options(&arguments(&["--help", "--nonsense"])),
        Ok(Request::Help)
    ));
    assert!(matches!(
        parse_options(&arguments(&["-h"])),
        Ok(Request::Help)
    ));
}

#[test]
fn command_lines_are_refused_with_a_reason() {
    assert_eq!(
        refusal(&[]),
        "--wasm must name the built Rust guest module"
    );
    assert_eq!(
        refusal(&["--paired-only"]),
        "--paired-only requires --workload <path>"
    );
    assert_eq!(
        refusal(&["--workload", "w"]),
        "--workload requires --paired-only"
    );
    assert_eq!(refusal(&["--wasm"]), "--wasm requires a value");
    assert_eq!(
        refusal(&["--batch", "many"]),
        "--batch must be an integer"
    );
    assert_eq!(refusal(&["--batch", "0"]), "--batch must be in 1..=1024");
    assert_eq!(
        refusal(&["--batch", "1025"]),
        "--batch must be in 1..=1024"
    );
    assert_eq!(
        refusal(&["--what\n"]),
        "unknown argument \"--what\\n\"; pass --help for usage"
    );
    assert_eq!(
        parse_options(&vec![None]).expect_err("not UTF-8"),
        "benchmark arguments must be valid UTF-8"
    );
    assert_eq!(
        parse_options(&vec![Some("--wasm".to_owned()), None]).expect_err("not UTF-8"),
        "--wasm value must be valid UTF-8"
    );
}

#[test]
fn missing_files_are_named() {
    let guest = options(&["--wasm", "guest.wasm"]);
    assert_eq!(check_file(&guest, true), Ok(()));
    assert_eq!(
        check_file(&guest, false),
        Err("WASM guest does not exist: guest.wasm".to_owned())
    );
    let paired = options(&["--workload", "w.json", "--paired-only"]);
    assert_eq!(
        check_file(&paired, false),
        Err("workload does not exist: w.json".to_owned())
    );
}

#[test]
fn workloads_are_frozen() {
    let workload = load_paired_workload("w.json", WORKLOAD).expect("the workload is the frozen one");
    assert_eq!(
        workload,
        PairedWorkload {
            scopes: 1000,
            service_lookups: 256,
            event_emits: 256,
            loader_entries: 16,
            root_children: 32,
        }
    );
    assert_eq!(paired_workload_json(workload), json(WORKLOAD));
    for (from, to, message) in [
        ("1000", "999", "scopes"),
        ("\"rootChildren\": 32", "\"rootChildren\": \"32\"", "rootChildren"),
        ("workload/v1", "workload/v2", "schema"),
        ("\"scopes\"", "\"scope\"", "unexpected field \"scope\""),
    ] {
        let refused = load_paired_workload("w.json", &WORKLOAD.replace(from, to))
            .expect_err("the workload is another one");
        assert!(refused.contains(message), "{refused}");
    }
    assert_eq!(
        load_paired_workload("w.json", "[]"),
        Err("paired workload must be a JSON object".to_owned())
    );
    let broken = load_paired_workload("w.json", "{").expect_err("no JSON");
    assert!(broken.starts_with("invalid workload JSON w.json: EOF"), "{broken}");
}

#[test]
fn rates_are_rounded_down() {
    assert_eq!(operations_per_second(256, 1_000_000_000), Ok(256));
    assert_eq!(operations_per_second(1, 3), Ok(333_333_333));
    assert_eq!(operations_per_second(1, 2_000_000_000), Ok(0));
    assert_eq!(
        operations_per_second(1, 0),
        Err("timer resolution produced a zero-duration sample; increase --batch".to_owned())
    );
    assert_eq!(
        operations_per_second(usize::MAX, 1),
        Err("throughput exceeds u64 operations/s".to_owned())
    );
    assert_eq!(nanoseconds(12), Ok(12));
    assert_eq!(nanoseconds(u128::from(u64::MAX)), Ok(u64::MAX));
    assert_eq!(
        nanoseconds(u128::from(u64::MAX) + 1),
        Err("sample duration exceeds u64 nanoseconds".to_owned())
    );
    assert_eq!(queue_capacity(1), 64);
    assert_eq!(queue_capacity(56), 64);
    assert_eq!(queue_capacity(57), 65);
    assert_eq!(queue_capacity(usize::MAX), usize::MAX);
}

#[test]
fn summaries_rank_their_samples() {
    let report = summarize("emit", "ns", 4, &vec![5, 1, 4, 2, 3], Some("a note"))
        .expect("there are samples");
    assert_eq!(report.get("median").expect("median"), &json("3"));
    assert_eq!(report.get("p95").expect("p95"), &json("5"));
    assert_eq!(report.get("min").expect("min"), &json("1"));
    assert_eq!(report.get("max").expect("max"), &json("5"));
    assert_eq!(report.get("samples").expect("samples"), &json("[5, 1, 4, 2, 3]"));
    assert_eq!(report.get("note").expect("note"), &json("\"a note\""));

    let many: Vec<u64> = (1..=100).rev().collect();
    let report = summarize("emit", "ns", 1, &many, None).expect("there are samples");
    assert_eq!(report.get("median").expect("median"), &json("51"));
    assert_eq!(report.get("p95").expect("p95"), &json("95"));
    assert!(report.get("note").is_none());
    assert_eq!(
        summarize("emit", "ns", 1, &vec![], None).expect_err("no samples"),
        "emit collected no samples"
    );
}

#[test]
fn memory_summaries_give_their_proportional_size() {
    assert_eq!(
        pss_kib("Rss:  10 kB\nPss:              1234 kB\nPss_Dirty: 5 kB\n"),
        Ok(1234)
    );
    for (source, message) in [
        ("Rss: 1 kB\n", "/proc/self/smaps_rollup has no Pss field"),
        ("Pss:   \n", "/proc/self/smaps_rollup Pss field has no value"),
        (
            "Pss: x kB\n",
            "invalid /proc/self/smaps_rollup Pss value: invalid digit found in string",
        ),
        (
            "Pss: 12 MB\n",
            "invalid /proc/self/smaps_rollup Pss unit",
        ),
        ("Pss: 12\n", "invalid /proc/self/smaps_rollup Pss unit"),
    ] {
        assert_eq!(pss_kib(source), Err(message.to_owned()), "{source}");
    }
    for text in ["", "  ", "a", " a\tb \u{a0}c\r\n", "a  b"] {
        let expected: Vec<&str> = text.split_whitespace().collect();
        assert_eq!(words(text), expected, "{text:?}");
    }
}

#[test]
fn open_scopes_are_counted() {
    let mut tree = ScopeTree::new();
    let root = Scope::root(&mut tree);
    let scopes: Vec<Scope> = (0..3)
        .map(|_| root.child(&mut tree).expect("the root takes children"))
        .collect();
    assert_eq!(count_open(&tree, &scopes), 3);
    let mut order = vec![];
    scopes[1]
        .dispose_below(&mut tree, &vec![], &vec![], &mut order)
        .expect("disposal succeeds");
    assert_eq!(count_open(&tree, &scopes), 2);
    root.dispose_below(&mut tree, &vec![], &vec![], &mut order)
        .expect("disposal succeeds");
    assert_eq!(count_open(&tree, &scopes), 0);
}
