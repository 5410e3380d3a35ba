//! Rule tests on real contract sources.

use sanctifier::reentrancy::scan_invoke_contract_calls;
use sanctifier::rules::shadow_storage::ShadowStorageRule;
use sanctifier::rules::unused_variable::UnusedVariableRule;
use sanctifier::syntax::{parse_source, ScopeEvent, SourceFile};
use sanctifier::upgrade_analysis::{analyze_upgrade_patterns, UpgradeCategory};

fn run_shadow_storage(source: &str) -> Vec<sanctifier::rules::RuleViolation> {
    ShadowStorageRule::new().check(source)
}

#[test]
fn test_shadow_storage_detection() {
    let source = r#"
#[contractimpl]
impl MyContract {
    pub fn set_value(env: Env, key: Symbol, value: u32) {
        env.storage().persistent().set(&key, &value);
    }

    pub fn set_value_with_event(env: Env, key: Symbol, value: u32) {
        env.storage().persistent().set(&key, &value);
        env.events().publish((symbol_short!("value_set"), key.clone()), value);
    }

    pub fn get_value(env: Env, key: Symbol) -> u32 {
        env.storage().persistent().get(&key).unwrap_or(0)
    }
}
"#;
    let issues = run_shadow_storage(source);
    assert_eq!(issues.len(), 1);
    assert_eq!(issues[0].rule_name, "shadow_storage");
    assert!(issues[0].message.contains("set_value"));
}

#[test]
fn test_shadow_storage_no_violation_for_event_emit() {
    let source = r#"
#[contractimpl]
impl Token {
    pub fn transfer(env: Env, from: Address, to: Address, amount: i128) {
        from.require_auth();
        to.require_auth();
        
        let balance_from = env.storage().persistent().get(&from).unwrap_or(0);
        let balance_to = env.storage().persistent().get(&to).unwrap_or(0);
        
        env.storage().persistent().set(&from, &(balance_from - amount));
        env.storage().persistent().set(&to, &(balance_to + amount));
        
        env.events().publish((symbol_short!("transfer"), from, to), amount);
    }
}
"#;
    let issues = run_shadow_storage(source);
    assert!(
        issues.is_empty(),
        "Expected no violations when event is emitted, got: {:?}",
        issues
    );
}

#[test]
fn test_shadow_storage_reserved_entrypoint_ignored() {
    let source = r#"
#[contractimpl]
impl Account {
    pub fn __constructor(env: Env, admin: Address) {
        env.storage().instance().set(&symbol_short!("admin"), &admin);
    }
}
"#;
    let issues = run_shadow_storage(source);
    assert!(
        issues.is_empty(),
        "Reserved entrypoint should not be flagged: {:?}",
        issues
    );
}

#[test]
fn test_shadow_storage_private_fn_not_flagged() {
    let source = r#"
impl MyContract {
    fn internal_update(env: Env, key: Symbol, value: u32) {
        env.storage().persistent().set(&key, &value);
    }
}
"#;
    let issues = run_shadow_storage(source);
    assert!(
        issues.is_empty(),
        "Private functions should not be flagged: {:?}",
        issues
    );
}

#[test]
fn shadow_storage_message_location_and_suggestion() {
    let source = r#"
impl C {
    pub fn bump(env: Env) {
        env.storage().instance().extend_ttl(100, 200);
    }
}
"#;
    let issues = run_shadow_storage(source);
    assert_eq!(issues.len(), 1);
    assert_eq!(
        issues[0].message,
        "Function 'bump' modifies storage without emitting events. This creates transparency gaps for indexers and off-chain monitors."
    );
    assert_eq!(issues[0].location, "bump");
    assert!(issues[0].suggestion.as_ref().unwrap().starts_with("Emit an event after each storage mutation"));
    assert!(issues[0].patches.is_empty());
}

#[test]
fn shadow_storage_skips_test_functions_and_cfg_test_impls() {
    let source = r#"
#[cfg(test)]
impl C {
    pub fn helper(env: Env) { env.storage().persistent().set(&1, &2); }
}
impl D {
    #[test]
    pub fn t(env: Env) { env.storage().persistent().set(&1, &2); }
    pub fn nested(env: Env) {
        if true { for x in 0..3 { env.storage().temporary().remove(&x); } }
    }
}
"#;
    let issues = run_shadow_storage(source);
    assert_eq!(issues.len(), 1);
    assert_eq!(issues[0].location, "nested");
}

#[test]
fn shadow_storage_ignores_unparsable_source() {
    assert!(run_shadow_storage("impl {{{").is_empty());
}

#[test]
fn shadow_storage_counts_event_function_calls() {
    let source = r#"
impl C {
    pub fn save(env: Env) {
        env.storage().persistent().set(&1, &2);
        events::emit(&env, 1);
    }
}
"#;
    assert!(run_shadow_storage(source).is_empty());
}

#[test]
fn unused_variable_reports_and_fixes() {
    let source = "fn f() {\n    let used = 1;\n    let unused = 2;\n    let _skip = 3;\n    let env = 4;\n    g(used);\n}\n";
    let rule = UnusedVariableRule::new();
    let issues = rule.check(source).unwrap();
    assert_eq!(issues.len(), 1);
    assert_eq!(issues[0].rule_name, "unused_variable");
    assert_eq!(issues[0].message, "Unused local variable: 'unused'");
    assert_eq!(issues[0].location, "3:8");
    assert_eq!(issues[0].suggestion.as_deref(), Some("Prefix with underscore: '_unused'"));
    let patch = &issues[0].patches[0];
    assert_eq!((patch.start_line, patch.start_column, patch.end_line, patch.end_column), (3, 8, 3, 14));
    assert_eq!(patch.replacement, "_unused");
    assert_eq!(patch.description, "Prefix unused variable 'unused' with underscore");
    let patches = rule.fix(source).unwrap();
    assert_eq!(patches.len(), 1);
    let fixed = sanctifier::patcher::Patcher::apply_patches(source, &patches);
    assert!(fixed.contains("let _unused = 2;"));
}

#[test]
fn unused_variable_shadowing_marks_first_binding() {
    // A use marks the first binding of that name in the innermost scope that declares it,
    // so the later binding is reported.
    let source = "fn f() {\n    let x = 1;\n    let x = 2;\n    g(x);\n}\n";
    let issues = UnusedVariableRule::new().check(source).unwrap();
    assert_eq!(issues.len(), 1);
    assert_eq!(issues[0].location, "3:8");
}

#[test]
fn unused_variable_nested_blocks() {
    let source = "fn f() {\n    let a = 1;\n    {\n        let b = a;\n    }\n}\n";
    let issues = UnusedVariableRule::new().check(source).unwrap();
    assert_eq!(issues.len(), 1);
    assert_eq!(issues[0].message, "Unused local variable: 'b'");
    assert_eq!(issues[0].location, "4:12");
}

#[test]
fn unused_variable_on_unparsable_source() {
    assert!(parse_source("fn (").is_none());
    assert!(UnusedVariableRule::new().check("fn (").unwrap().is_empty());
    assert!(UnusedVariableRule::new().fix("fn (").unwrap().is_empty());
}

#[test]
fn unused_variable_non_ascii_name_patch_spans_bytes() {
    let events = vec![
        ScopeEvent::Enter,
        ScopeEvent::Declare { name: "größe".to_string(), line: 2, column: 8 },
        ScopeEvent::Exit,
    ];
    let parsed = Some(SourceFile { items: vec![], scope_events: events, call_events: vec![] });
    let patches = UnusedVariableRule::new().fix_parsed(&parsed);
    assert_eq!(patches.len(), 1);
    assert_eq!(patches[0].end_column, 8 + "größe".len());
    assert_eq!(patches[0].end_column, 15);
}

#[test]
fn upgrade_patterns_report() {
    let source = r#"
#[contracttype]
pub struct Config { admin: Address }
#[soroban_sdk::contracttype]
pub enum DataKey { Admin }
pub struct Plain;
impl Contract {
    pub fn Initialize(env: Env) {}
    pub fn set_admin(env: Env) {}
    pub fn upgrade_contract_wasm(env: Env) {}
    fn upgrade(env: Env) {}
    pub fn balance(env: Env) {}
}
"#;
    let report = analyze_upgrade_patterns(source);
    assert_eq!(report.storage_types, vec!["Config".to_string(), "DataKey".to_string()]);
    assert_eq!(report.init_functions, vec!["Initialize".to_string()]);
    assert_eq!(
        report.upgrade_mechanisms,
        vec!["set_admin".to_string(), "upgrade_contract_wasm".to_string()]
    );
    assert_eq!(report.findings.len(), 1);
    let f = &report.findings[0];
    assert_eq!(f.category, UpgradeCategory::Governance);
    assert_eq!(f.function_name.as_deref(), Some("set_admin"));
    assert_eq!(f.location, "set_admin");
    assert_eq!(f.message, "Upgrade/admin mechanism detected");
}

#[test]
fn upgrade_patterns_without_mechanism_have_no_finding() {
    let report = analyze_upgrade_patterns("impl C { pub fn init(env: Env) {} }");
    assert_eq!(report.init_functions, vec!["init".to_string()]);
    assert!(report.upgrade_mechanisms.is_empty());
    assert!(report.findings.is_empty());
    let empty = analyze_upgrade_patterns("fn (");
    assert!(empty.storage_types.is_empty() && empty.findings.is_empty());
}

#[test]
fn reentrancy_edges() {
    let source = r#"
fn helper(env: Env) { client.call(&env); }
impl C {
    pub fn run(env: Env) {
        env.invoke_contract(&id, &sym, args);
        x.other();
    }
}
"#;
    let edges = scan_invoke_contract_calls(source);
    assert_eq!(edges.len(), 2);
    assert_eq!(edges[0].caller_function, "helper");
    assert_eq!(edges[1].caller_function, "run");
    assert_eq!(edges[1].target_contract, "Unknown");
    assert_eq!(edges[1].target_function, "Unknown");
    assert!(edges[1].function_expr.as_ref().unwrap().contains("invoke_contract"));
    assert!(scan_invoke_contract_calls("fn (").is_empty());
}

#[test]
fn shadow_storage_event_clears_only_that_function() {
    let before = r#"
impl C {
    pub fn a(env: Env) {
        env.storage().instance().set(&1, &2);
    }
    pub fn b(env: Env) {
        env.storage().persistent().remove(&1);
    }
    pub fn c(env: Env) {
        env.storage().temporary().extend_ttl(&1, 2, 3);
    }
}
"#;
    let after = r#"
impl C {
    pub fn a(env: Env) {
        env.storage().instance().set(&1, &2);
    }
    pub fn b(env: Env) {
        env.events().publish((1,), 2);
        env.storage().persistent().remove(&1);
    }
    pub fn c(env: Env) {
        env.storage().temporary().extend_ttl(&1, 2, 3);
    }
}
"#;
    let names = |s: &str| -> Vec<String> {
        ShadowStorageRule::new().check(s).into_iter().map(|v| v.location).collect()
    };
    assert_eq!(names(before), vec!["a", "b", "c"]);
    assert_eq!(names(after), vec!["a", "c"]);
}

#[test]
fn shadow_storage_ignores_reads_and_non_storage_receivers() {
    // `get` is no mutation, and `set` on a receiver that names no storage is no storage write.
    let source = r#"
impl C {
    pub fn read(env: Env) -> u32 {
        env.storage().persistent().get(&1).unwrap_or(0)
    }
    pub fn local(cache: Map) {
        cache.set(1, 2);
    }
}
"#;
    assert!(run_shadow_storage(source).is_empty());
}

#[test]
fn unused_variable_fix_is_the_patches_of_check() {
    let source = "fn f() {\n    let a = 1;\n    {\n        let b = 2;\n    }\n    let c = 3;\n}\n";
    let rule = UnusedVariableRule::new();
    let checked: Vec<_> = rule.check(source).unwrap().into_iter().flat_map(|v| v.patches).collect();
    let fixed = rule.fix(source).unwrap();
    let view = |ps: &Vec<sanctifier::rules::Patch>| -> Vec<(usize, usize, usize, usize, String)> {
        ps.iter()
            .map(|p| (p.start_line, p.start_column, p.end_line, p.end_column, p.replacement.clone()))
            .collect()
    };
    assert_eq!(view(&fixed), view(&checked));
    assert_eq!(fixed.len(), 3);
    assert_eq!(view(&fixed)[0], (4, 12, 4, 13, "_b".to_string()));
}

#[test]
fn unused_variable_recheck_after_fix_reports_nothing() {
    let source = "fn f() {\n    let x = 1;\n    let x = 2;\n    let y = 3;\n    {\n        let z = x;\n    }\n    g(x);\n}\n";
    let rule = UnusedVariableRule::new();
    assert_eq!(rule.check(source).unwrap().len(), 3);
    let patches = rule.fix(source).unwrap();
    let fixed = sanctifier::patcher::Patcher::apply_patches(source, &patches);
    assert!(rule.check(&fixed).unwrap().is_empty());
    assert!(rule.fix(&fixed).unwrap().is_empty());
}
