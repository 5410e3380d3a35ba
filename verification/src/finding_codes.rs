use vstd::prelude::*;

verus! {

pub const AUTH_GAP: &'static str = "S001";
pub const PANIC_USAGE: &'static str = "S002";
pub const ARITHMETIC_OVERFLOW: &'static str = "S003";
pub const LEDGER_SIZE_RISK: &'static str = "S004";
pub const STORAGE_COLLISION: &'static str = "S005";
pub const UNSAFE_PATTERN: &'static str = "S006";
pub const CUSTOM_RULE_MATCH: &'static str = "S007";

/// A finding code with its category and what it means.
#[derive(Debug, Clone, Copy)]
pub struct FindingCode {
    pub code: &'static str,
    pub category: &'static str,
    pub description: &'static str,
}

/// The table of finding codes: (code, category, description), in code order.
pub open spec fn finding_code_table() -> Seq<(Seq<char>, Seq<char>, Seq<char>)> {
    seq![
        ("S001"@, "authentication"@, "Missing authentication guard in a state-mutating function"@),
        ("S002"@, "panic_handling"@, "panic!/unwrap/expect usage that may cause runtime aborts"@),
        ("S003"@, "arithmetic"@, "Unchecked arithmetic operation with overflow/underflow risk"@),
        ("S004"@, "storage_limits"@, "Ledger entry size is exceeding or approaching configured threshold"@),
        ("S005"@, "storage_keys"@, "Potential storage key collision across contract data paths"@),
        ("S006"@, "unsafe_patterns"@, "Potentially unsafe language/runtime pattern was detected"@),
        ("S007"@, "custom_rule"@, "User-defined rule matched contract source"@),
    ]
}

fn finding_code(code: &'static str, category: &'static str, description: &'static str) -> (f: FindingCode)
    ensures
        f.code == code,
        f.category == category,
        f.description == description,
{
    FindingCode { code, category, description }
}

/// All finding codes, in code order. No code occurs twice.
pub fn all_finding_codes() -> (codes: Vec<FindingCode>)
    ensures
        codes@.len() == finding_code_table().len(),
        forall|k: int|
            0 <= k < codes@.len() ==> (#[trigger] codes@[k]).code@ == finding_code_table()[k].0
                && codes@[k].category@ == finding_code_table()[k].1 && codes@[k].description@
                == finding_code_table()[k].2,
        forall|j: int, k: int|
            0 <= j < k < codes@.len() ==> (#[trigger] codes@[j]).code@ != (#[trigger] codes@[k]).code@,
{
    let mut codes: Vec<FindingCode> = Vec::new();
    codes.push(finding_code(AUTH_GAP, "authentication", "Missing authentication guard in a state-mutating function"));
    codes.push(finding_code(PANIC_USAGE, "panic_handling", "panic!/unwrap/expect usage that may cause runtime aborts"));
    codes.push(finding_code(ARITHMETIC_OVERFLOW, "arithmetic", "Unchecked arithmetic operation with overflow/underflow risk"));
    codes.push(finding_code(LEDGER_SIZE_RISK, "storage_limits", "Ledger entry size is exceeding or approaching configured threshold"));
    codes.push(finding_code(STORAGE_COLLISION, "storage_keys", "Potential storage key collision across contract data paths"));
    codes.push(finding_code(UNSAFE_PATTERN, "unsafe_patterns", "Potentially unsafe language/runtime pattern was detected"));
    codes.push(finding_code(CUSTOM_RULE_MATCH, "custom_rule", "User-defined rule matched contract source"));
    proof {
        reveal_strlit("S001");
        reveal_strlit("S002");
        reveal_strlit("S003");
        reveal_strlit("S004");
        reveal_strlit("S005");
        reveal_strlit("S006");
        reveal_strlit("S007");
        let t = finding_code_table();
        assert(t[0].0[3] == '1' && t[1].0[3] == '2' && t[2].0[3] == '3' && t[3].0[3] == '4'
            && t[4].0[3] == '5' && t[5].0[3] == '6' && t[6].0[3] == '7');
        assert forall|j: int, k: int| 0 <= j < k < 7 implies t[j].0 != t[k].0 by {
            assert(t[j].0[3] != t[k].0[3]);
        }
    }
    codes
}

} // verus!
