use std::collections::HashSet;

use sanctifier::finding_codes::{
    all_finding_codes, ARITHMETIC_OVERFLOW, AUTH_GAP, CUSTOM_RULE_MATCH, LEDGER_SIZE_RISK,
    PANIC_USAGE, STORAGE_COLLISION, UNSAFE_PATTERN,
};
use sanctifier::patcher::Patcher;
use sanctifier::project::{declares_soroban_sdk, is_rust_source, is_soroban_project_from};
use sanctifier::rules::Patch;
use sanctifier::smt::{
    addition_overflow_issue, benchmark_iterations, benchmark_strategies, strategy_operand_bound,
    summarize_samples, SmtLatencyBenchmarkReport, SmtProofStrategy, SmtStrategyLatency,
};
use sanctifier::text::{decimal_string, str_contains, str_equal};
use sanctifier::upgrade_analysis::{
    is_init_fn, is_init_lowercase, is_upgrade_or_admin_fn, is_upgrade_or_admin_lowercase,
};

#[test]
fn finding_codes_are_unique() {
    let codes = all_finding_codes();
    let unique: HashSet<&str> = codes.iter().map(|c| c.code).collect();
    assert_eq!(codes.len(), unique.len());
}

#[test]
fn includes_expected_codes() {
    let codes = all_finding_codes();
    assert!(codes.iter().any(|c| c.code == AUTH_GAP));
    assert!(codes.iter().any(|c| c.code == PANIC_USAGE));
    assert!(codes.iter().any(|c| c.code == ARITHMETIC_OVERFLOW));
    assert!(codes.iter().any(|c| c.code == LEDGER_SIZE_RISK));
    assert!(codes.iter().any(|c| c.code == STORAGE_COLLISION));
    assert!(codes.iter().any(|c| c.code == UNSAFE_PATTERN));
    assert!(codes.iter().any(|c| c.code == CUSTOM_RULE_MATCH));
}

#[test]
fn finding_code_categories_follow_the_table() {
    let codes = all_finding_codes();
    let pairs: Vec<(&str, &str)> = codes.iter().map(|c| (c.code, c.category)).collect();
    assert_eq!(
        pairs,
        vec![
            ("S001", "authentication"),
            ("S002", "panic_handling"),
            ("S003", "arithmetic"),
            ("S004", "storage_limits"),
            ("S005", "storage_keys"),
            ("S006", "unsafe_patterns"),
            ("S007", "custom_rule"),
        ]
    );
    assert_eq!(codes[0].description, "Missing authentication guard in a state-mutating function");
}

fn patch(sl: usize, sc: usize, el: usize, ec: usize, replacement: &str) -> Patch {
    Patch {
        start_line: sl,
        start_column: sc,
        end_line: el,
        end_column: ec,
        replacement: replacement.to_string(),
        description: String::new(),
    }
}

#[test]
fn apply_patches_without_patches_is_identity() {
    assert_eq!(Patcher::apply_patches("let x = 1;\n", &[]), "let x = 1;\n");
}

#[test]
fn apply_patches_lands_each_patch_in_place() {
    let source = "let a = 1;\nlet b = 2;\nlet c = a;";
    // Listed out of order: the patcher applies them from the bottom up.
    let patches = vec![
        patch(1, 4, 1, 5, "_a"),
        patch(3, 4, 3, 5, "_c"),
        patch(2, 4, 2, 5, "_b"),
    ];
    assert_eq!(
        Patcher::apply_patches(source, &patches),
        "let _a = 1;\nlet _b = 2;\nlet _c = a;"
    );
}

#[test]
fn apply_patches_multiline_and_end_of_text() {
    let source = "ab\ncd";
    // Replace from the end of line 1 to column 1 of line 2 (joins the lines).
    assert_eq!(Patcher::apply_patches(source, &[patch(1, 2, 2, 1, "-")]), "ab-d");
    // A column equal to the last line's length addresses the end of the text.
    assert_eq!(Patcher::apply_patches(source, &[patch(2, 2, 2, 2, "!")]), "ab\ncd!");
    // An empty last line after a trailing newline.
    assert_eq!(Patcher::apply_patches("x\n", &[patch(2, 0, 2, 0, "y")]), "x\ny");
}

#[test]
fn apply_patches_skips_patches_outside_the_text() {
    let source = "abc\ndef";
    let patches = vec![patch(0, 0, 1, 1, "X"), patch(3, 0, 3, 0, "Y"), patch(1, 0, 1, 9, "Z")];
    assert_eq!(Patcher::apply_patches(source, &patches), source);
}

#[test]
fn apply_patches_same_start_keeps_list_order() {
    // Two insertions at the same place: the first listed is applied first, the second is
    // then inserted in front of it.
    let patches = vec![patch(1, 1, 1, 1, "X"), patch(1, 1, 1, 1, "Y")];
    assert_eq!(Patcher::apply_patches("ab", &patches), "aYXb");
}

#[test]
fn apply_patches_counts_columns_in_characters() {
    let source = "é = ü;";
    assert_eq!(Patcher::apply_patches(source, &[patch(1, 4, 1, 5, "ö")]), "é = ö;");
}

fn latency(strategy: SmtProofStrategy, avg: u128) -> SmtStrategyLatency {
    SmtStrategyLatency { strategy, runs: 1, min_micros: 0, max_micros: 0, avg_micros: avg, p95_micros: 0 }
}

#[test]
fn most_expensive_first_is_stable_and_descending() {
    let report = SmtLatencyBenchmarkReport {
        iterations_per_strategy: 1,
        strategies: vec![
            latency(SmtProofStrategy::UnconstrainedOverflow, 10),
            latency(SmtProofStrategy::BoundedDomainOverflow, 30),
            latency(SmtProofStrategy::SmallDomainOverflow, 10),
        ],
    };
    let sorted = report.most_expensive_first();
    let order: Vec<(SmtProofStrategy, u128)> = sorted.iter().map(|l| (l.strategy, l.avg_micros)).collect();
    assert_eq!(
        order,
        vec![
            (SmtProofStrategy::BoundedDomainOverflow, 30),
            (SmtProofStrategy::UnconstrainedOverflow, 10),
            (SmtProofStrategy::SmallDomainOverflow, 10),
        ]
    );
    assert_eq!(report.strategies.len(), 3);
}

#[test]
fn summarize_samples_statistics() {
    let samples: Vec<u128> = vec![40, 10, 30, 20, 50];
    let l = summarize_samples(SmtProofStrategy::SmallDomainOverflow, 5, &samples, 4);
    assert_eq!(l.strategy, SmtProofStrategy::SmallDomainOverflow);
    assert_eq!(l.runs, 5);
    assert_eq!((l.min_micros, l.max_micros, l.avg_micros, l.p95_micros), (10, 50, 30, 50));
    let l = summarize_samples(SmtProofStrategy::UnconstrainedOverflow, 3, &vec![7, 8, 8], 1);
    assert_eq!((l.min_micros, l.max_micros, l.avg_micros, l.p95_micros), (7, 8, 7, 8));
}

#[test]
fn smt_strategy_bounds_and_benchmark_settings() {
    assert_eq!(strategy_operand_bound(SmtProofStrategy::UnconstrainedOverflow), u64::MAX);
    assert_eq!(strategy_operand_bound(SmtProofStrategy::BoundedDomainOverflow), 5_000_000_000);
    assert_eq!(strategy_operand_bound(SmtProofStrategy::SmallDomainOverflow), 10_000);
    assert_eq!(benchmark_iterations(0), 1);
    assert_eq!(benchmark_iterations(7), 7);
    assert_eq!(
        benchmark_strategies(),
        vec![
            SmtProofStrategy::UnconstrainedOverflow,
            SmtProofStrategy::BoundedDomainOverflow,
            SmtProofStrategy::SmallDomainOverflow,
        ]
    );
}

#[test]
fn addition_overflow_issue_only_when_possible() {
    let issue = addition_overflow_issue("add", "lib.rs:3", true).unwrap();
    assert_eq!(issue.function_name, "add");
    assert_eq!(issue.location, "lib.rs:3");
    assert_eq!(issue.description, "SMT Solver (Z3) proved that this addition can overflow u64 bounds.");
    assert!(addition_overflow_issue("add", "lib.rs:3", false).is_none());
}

#[test]
fn upgrade_and_init_names_ignore_case() {
    assert!(is_upgrade_or_admin_fn("SET_ADMIN"));
    assert!(is_upgrade_or_admin_fn("UpgradeContract"));
    assert!(is_upgrade_or_admin_fn("upgrade_wasm"));
    assert!(!is_upgrade_or_admin_fn("upgrade_token"));
    assert!(!is_upgrade_or_admin_fn("admin"));
    assert!(is_init_fn("INIT"));
    assert!(is_init_fn("Initialise"));
    assert!(!is_init_fn("initializer"));
    assert!(!is_upgrade_or_admin_lowercase("SET_ADMIN"));
    assert!(is_upgrade_or_admin_lowercase("set_admin"));
    assert!(!is_init_lowercase("INIT"));
}

#[test]
fn soroban_project_detection() {
    assert!(declares_soroban_sdk("[dependencies]\nsoroban-sdk = \"21\"\n"));
    assert!(!declares_soroban_sdk("[dependencies]\nserde = \"1\"\n"));
    assert!(is_rust_source(Some("rs")));
    assert!(!is_rust_source(Some("toml")));
    assert!(!is_rust_source(None));
    assert!(is_soroban_project_from(true, false, Some("rs"), Some("lib.rs"), None));
    assert!(is_soroban_project_from(true, false, Some("toml"), Some("Cargo.toml"), Some("soroban-sdk = 1")));
    assert!(!is_soroban_project_from(true, false, Some("toml"), Some("Cargo.toml"), None));
    assert!(!is_soroban_project_from(true, false, Some("md"), Some("README.md"), Some("soroban-sdk")));
    assert!(is_soroban_project_from(false, true, None, Some("contract"), Some("soroban-sdk")));
    assert!(!is_soroban_project_from(false, true, None, Some("contract"), None));
    assert!(!is_soroban_project_from(false, false, None, None, Some("soroban-sdk")));
}

#[test]
fn text_helpers() {
    assert!(str_contains("env.storage()", "storage"));
    assert!(!str_contains("env.events()", "storage"));
    assert!(str_contains("x", ""));
    assert!(str_equal("abc", "abc"));
    assert!(!str_equal("abc", "abd"));
    assert_eq!(decimal_string(0), "0");
    assert_eq!(decimal_string(1203), "1203");
}

#[test]
fn apply_patches_order_of_distinct_starts_is_irrelevant() {
    let source = "let a = 1;\nlet b = 2;\nlet c = a;";
    let p1 = patch(1, 4, 1, 5, "_a");
    let p2 = patch(2, 4, 2, 5, "_b");
    let p3 = patch(3, 8, 3, 9, "_a");
    let expected = "let _a = 1;\nlet _b = 2;\nlet c = _a;";
    let orders = vec![
        vec![p1.clone(), p2.clone(), p3.clone()],
        vec![p3.clone(), p1.clone(), p2.clone()],
        vec![p2.clone(), p3.clone(), p1.clone()],
        vec![p3.clone(), p2.clone(), p1.clone()],
    ];
    for ps in orders {
        assert_eq!(Patcher::apply_patches(source, &ps), expected);
    }
}

#[test]
fn apply_patches_forward_patches_always_apply() {
    // Forward patches spanning lines, empty ranges and whole lines all apply.
    let source = "one\ntwo\nthree";
    assert_eq!(Patcher::apply_patches(source, &[patch(1, 1, 3, 2, "")]), "oree");
    assert_eq!(Patcher::apply_patches(source, &[patch(2, 0, 2, 0, ">")]), "one\n>two\nthree");
    assert_eq!(Patcher::apply_patches(source, &[patch(1, 0, 2, 3, "x")]), "x\nthree");
}

#[test]
fn most_expensive_first_twice_is_once() {
    let report = SmtLatencyBenchmarkReport {
        iterations_per_strategy: 4,
        strategies: vec![
            latency(SmtProofStrategy::SmallDomainOverflow, 5),
            latency(SmtProofStrategy::UnconstrainedOverflow, 40),
            latency(SmtProofStrategy::BoundedDomainOverflow, 5),
        ],
    };
    let once = report.most_expensive_first();
    let again = SmtLatencyBenchmarkReport { iterations_per_strategy: 4, strategies: once.clone() }
        .most_expensive_first();
    let view = |s: &Vec<SmtStrategyLatency>| -> Vec<(SmtProofStrategy, u128)> {
        s.iter().map(|l| (l.strategy, l.avg_micros)).collect()
    };
    assert_eq!(view(&again), view(&once));
    assert_eq!(
        view(&once),
        vec![
            (SmtProofStrategy::UnconstrainedOverflow, 40),
            (SmtProofStrategy::SmallDomainOverflow, 5),
            (SmtProofStrategy::BoundedDomainOverflow, 5),
        ]
    );
}
