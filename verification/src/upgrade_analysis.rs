use vstd::prelude::*;

use crate::rules::shadow_storage::{has_attr, has_attr_spec};
use crate::syntax::{parse_source, source_model, Attr, ImplFn, SourceFile, TopItem};
use crate::text::{seq_contains, str_contains, str_equal};

verus! {

/// The Unicode lowercase of a string, as `str::to_lowercase` computes it.
pub uninterp spec fn unicode_lowercase(s: Seq<char>) -> Seq<char>;

/// `str::to_lowercase`: the lowercase equivalent of `s` under Unicode's `Lowercase` property.
/// The mapping is a fixed function of the string (it does not depend on a locale); its
/// content, given by Unicode's case tables, is not stated here.
#[verifier::external_body]
fn to_lowercase(s: &str) -> (r: String)
    ensures
        r@ == unicode_lowercase(s@),
{
    s.to_lowercase()
}

/// A lowercased function name that marks an upgrade or admin operation.
pub open spec fn is_upgrade_or_admin_lower(lower: Seq<char>) -> bool {
    lower == "set_admin"@ || lower == "upgrade"@ || lower == "set_authorized"@ || lower
        == "deploy"@ || lower == "update_admin"@ || lower == "transfer_admin"@ || lower
        == "change_admin"@ || (seq_contains(lower, "upgrade"@) && (seq_contains(
        lower,
        "contract"@,
    ) || seq_contains(lower, "wasm"@)))
}

/// A lowercased function name that marks an initialization operation.
pub open spec fn is_init_lower(lower: Seq<char>) -> bool {
    lower == "initialize"@ || lower == "init"@ || lower == "initialise"@
}

/// Whether an already lowercased function name marks an upgrade or admin operation.
pub fn is_upgrade_or_admin_lowercase(lower: &str) -> (r: bool)
    ensures
        r == is_upgrade_or_admin_lower(lower@),
{
    str_equal(lower, "set_admin") || str_equal(lower, "upgrade") || str_equal(
        lower,
        "set_authorized",
    ) || str_equal(lower, "deploy") || str_equal(lower, "update_admin") || str_equal(
        lower,
        "transfer_admin",
    ) || str_equal(lower, "change_admin") || (str_contains(lower, "upgrade") && (str_contains(
        lower,
        "contract",
    ) || str_contains(lower, "wasm")))
}

/// Whether an already lowercased function name marks an initialization operation.
pub fn is_init_lowercase(lower: &str) -> (r: bool)
    ensures
        r == is_init_lower(lower@),
{
    str_equal(lower, "initialize") || str_equal(lower, "init") || str_equal(lower, "initialise")
}

/// Check if a function name indicates an upgrade or admin operation (ignoring case).
pub fn is_upgrade_or_admin_fn(name: &str) -> (r: bool)
    ensures
        r == is_upgrade_or_admin_lower(unicode_lowercase(name@)),
{
    let lower = to_lowercase(name);
    is_upgrade_or_admin_lowercase(lower.as_str())
}

/// Check if a function name indicates an initialization operation (ignoring case).
pub fn is_init_fn(name: &str) -> (r: bool)
    ensures
        r == is_init_lower(unicode_lowercase(name@)),
{
    let lower = to_lowercase(name);
    is_init_lowercase(lower.as_str())
}

/// The kind of an upgrade finding.
#[derive(Debug, Clone, Copy, PartialEq, Eq, Structural)]
pub enum UpgradeCategory {
    Governance,
}

/// A finding of the upgrade analysis.
#[derive(Debug, Clone)]
pub struct UpgradeFinding {
    pub category: UpgradeCategory,
    pub function_name: Option<String>,
    pub location: String,
    pub message: String,
    pub suggestion: String,
}

/// What the upgrade analysis found in a file.
#[derive(Debug, Clone)]
pub struct UpgradeReport {
    pub findings: Vec<UpgradeFinding>,
    /// Names of the `#[contracttype]` structs and enums.
    pub storage_types: Vec<String>,
    /// Names of the public initialization functions of `impl` blocks.
    pub init_functions: Vec<String>,
    /// Names of the public upgrade or admin functions of `impl` blocks.
    pub upgrade_mechanisms: Vec<String>,
}

impl UpgradeReport {
    /// A report with nothing in it.
    pub fn empty() -> (r: UpgradeReport)
        ensures
            r.findings@.len() == 0,
            r.storage_types@.len() == 0,
            r.init_functions@.len() == 0,
            r.upgrade_mechanisms@.len() == 0,
    {
        UpgradeReport {
            findings: Vec::new(),
            storage_types: Vec::new(),
            init_functions: Vec::new(),
            upgrade_mechanisms: Vec::new(),
        }
    }
}

/// The attribute list marks a contract type.
pub open spec fn is_contracttype(attrs: Seq<Attr>) -> bool {
    has_attr_spec(attrs, "contracttype"@)
}

/// Names of the public functions among `fns` that are initialization functions (`init`) or
/// upgrade/admin functions (otherwise), in order.
pub open spec fn matching_fns(fns: Seq<ImplFn>, init: bool) -> Seq<Seq<char>>
    decreases fns.len(),
{
    if fns.len() == 0 {
        Seq::empty()
    } else {
        let f = fns.last();
        matching_fns(fns.drop_last(), init) + if f.is_public && (if init {
            is_init_lower(unicode_lowercase(f.name@))
        } else {
            is_upgrade_or_admin_lower(unicode_lowercase(f.name@))
        }) {
            seq![f.name@]
        } else {
            Seq::empty()
        }
    }
}

/// Names of the matching public functions of the `impl` blocks of `items`, in order.
pub open spec fn matching_items(items: Seq<TopItem>, init: bool) -> Seq<Seq<char>>
    decreases items.len(),
{
    if items.len() == 0 {
        Seq::empty()
    } else {
        matching_items(items.drop_last(), init) + match items.last() {
            TopItem::Impl { fns, .. } => matching_fns(fns@, init),
            _ => Seq::empty(),
        }
    }
}

/// Names of the `#[contracttype]` structs and enums of `items`, in order.
pub open spec fn contract_types(items: Seq<TopItem>) -> Seq<Seq<char>>
    decreases items.len(),
{
    if items.len() == 0 {
        Seq::empty()
    } else {
        contract_types(items.drop_last()) + match items.last() {
            TopItem::Struct { attrs, name } => if is_contracttype(attrs@) {
                seq![name@]
            } else {
                Seq::empty()
            },
            TopItem::Enum { attrs, name } => if is_contracttype(attrs@) {
                seq![name@]
            } else {
                Seq::empty()
            },
            _ => Seq::empty(),
        }
    }
}

/// The finding raised for the upgrade or admin function `name`.
pub open spec fn is_governance_finding(f: UpgradeFinding, name: Seq<char>) -> bool {
    &&& f.category == UpgradeCategory::Governance
    &&& f.function_name matches Some(n) && n@ == name
    &&& f.location@ == name
    &&& f.message@ == "Upgrade/admin mechanism detected"@
    &&& f.suggestion@
        == "Ensure upgrade/admin functions are properly access-controlled (e.g. require_auth) and consider timelocks/governance."@
}

/// What the upgrade analysis reports for a file: contract types, public initialization and
/// upgrade/admin functions of `impl` blocks, and one governance finding naming the first
/// upgrade/admin function when there is one; an empty report for a file that did not parse.
pub open spec fn is_upgrade_report(r: UpgradeReport, parsed: Option<SourceFile>) -> bool {
    match parsed {
        None => {
            &&& r.findings@.len() == 0
            &&& r.storage_types@.len() == 0
            &&& r.init_functions@.len() == 0
            &&& r.upgrade_mechanisms@.len() == 0
        },
        Some(file) => {
            let upgrades = matching_items(file.items@, false);
            &&& r.storage_types.deep_view() == contract_types(file.items@)
            &&& r.init_functions.deep_view() == matching_items(file.items@, true)
            &&& r.upgrade_mechanisms.deep_view() == upgrades
            &&& r.findings@.len() == if upgrades.len() == 0 {
                0int
            } else {
                1int
            }
            &&& upgrades.len() > 0 ==> is_governance_finding(r.findings@[0], upgrades[0])
        },
    }
}

/// Whether the attributes mark a contract type.
fn has_contracttype(attrs: &Vec<Attr>) -> (r: bool)
    ensures
        r == is_contracttype(attrs@),
{
    has_attr(attrs, "contracttype")
}

/// Analyze upgrade/admin patterns and return an [`UpgradeReport`].
pub fn analyze_upgrade_patterns(source: &str) -> (report: UpgradeReport)
    ensures
        is_upgrade_report(report, source_model(source@)),
{
    let parsed = parse_source(source);
    analyze_parsed_upgrade_patterns(&parsed)
}

/// The upgrade report of a parsed file, as `analyze_upgrade_patterns` gives it.
pub fn analyze_parsed_upgrade_patterns(parsed: &Option<SourceFile>) -> (report: UpgradeReport)
    ensures
        is_upgrade_report(report, *parsed),
{
    let file = match parsed {
        Some(f) => f,
        None => {
            return UpgradeReport::empty();
        },
    };
    let mut report = UpgradeReport::empty();
    let items = &file.items;
    let mut i: usize = 0;
    assert(items@.take(0) =~= Seq::<TopItem>::empty());
    assert(report.storage_types.deep_view() =~= Seq::<Seq<char>>::empty());
    assert(report.init_functions.deep_view() =~= Seq::<Seq<char>>::empty());
    assert(report.upgrade_mechanisms.deep_view() =~= Seq::<Seq<char>>::empty());
    while i < items.len()
        invariant
            items == &file.items,
            i <= items.len(),
            report.findings@.len() == 0,
            report.storage_types.deep_view() == contract_types(items@.take(i as int)),
            report.init_functions.deep_view() == matching_items(items@.take(i as int), true),
            report.upgrade_mechanisms.deep_view() == matching_items(items@.take(i as int), false),
        decreases items.len() - i,
    {
        assert(items@.take(i + 1).drop_last() =~= items@.take(i as int));
        let ghost st0 = report.storage_types.deep_view();
        let ghost in0 = report.init_functions.deep_view();
        let ghost up0 = report.upgrade_mechanisms.deep_view();
        match &items[i] {
            TopItem::Struct { attrs, name } => {
                if has_contracttype(attrs) {
                    report.storage_types.push(name.clone());
                }
                assert(report.storage_types.deep_view() =~= contract_types(items@.take(i + 1)));
                assert(report.init_functions.deep_view() =~= matching_items(items@.take(i + 1), true));
                assert(report.upgrade_mechanisms.deep_view() =~= matching_items(items@.take(i + 1), false));
            },
            TopItem::Enum { attrs, name } => {
                if has_contracttype(attrs) {
                    report.storage_types.push(name.clone());
                }
                assert(report.storage_types.deep_view() =~= contract_types(items@.take(i + 1)));
                assert(report.init_functions.deep_view() =~= matching_items(items@.take(i + 1), true));
                assert(report.upgrade_mechanisms.deep_view() =~= matching_items(items@.take(i + 1), false));
            },
            TopItem::Impl { fns, .. } => {
                let mut j: usize = 0;
                assert(fns@.take(0) =~= Seq::<ImplFn>::empty());
                assert(in0 + matching_fns(fns@.take(0), true) =~= in0);
                assert(up0 + matching_fns(fns@.take(0), false) =~= up0);
                while j < fns.len()
                    invariant
                        j <= fns.len(),
                        report.findings@.len() == 0,
                        report.storage_types.deep_view() == st0,
                        report.init_functions.deep_view() == in0 + matching_fns(fns@.take(j as int), true),
                        report.upgrade_mechanisms.deep_view() == up0 + matching_fns(fns@.take(j as int), false),
                    decreases fns.len() - j,
                {
                    assert(fns@.take(j + 1).drop_last() =~= fns@.take(j as int));
                    assert(fns@.take(j + 1).last() == fns@[j as int]);
                    let f = &fns[j];
                    let ghost ini = in0 + matching_fns(fns@.take(j as int), true);
                    let ghost upg = up0 + matching_fns(fns@.take(j as int), false);
                    assert(in0 + matching_fns(fns@.take(j + 1), true) =~= ini + if f.is_public
                        && is_init_lower(unicode_lowercase(f.name@)) {
                        seq![f.name@]
                    } else {
                        Seq::empty()
                    });
                    assert(up0 + matching_fns(fns@.take(j + 1), false) =~= upg + if f.is_public
                        && is_upgrade_or_admin_lower(unicode_lowercase(f.name@)) {
                        seq![f.name@]
                    } else {
                        Seq::empty()
                    });
                    if f.is_public {
                        if is_init_fn(f.name.as_str()) {
                            report.init_functions.push(f.name.clone());
                        }
                        if is_upgrade_or_admin_fn(f.name.as_str()) {
                            report.upgrade_mechanisms.push(f.name.clone());
                        }
                    }
                    assert(report.init_functions.deep_view() =~= in0 + matching_fns(fns@.take(j + 1), true));
                    assert(report.upgrade_mechanisms.deep_view() =~= up0 + matching_fns(fns@.take(j + 1), false));
                    j = j + 1;
                }
                assert(fns@.take(fns.len() as int) =~= fns@);
                assert(report.storage_types.deep_view() =~= contract_types(items@.take(i + 1)));
                assert(report.init_functions.deep_view() =~= matching_items(items@.take(i + 1), true));
                assert(report.upgrade_mechanisms.deep_view() =~= matching_items(items@.take(i + 1), false));
            },
            TopItem::Other => {
                assert(report.storage_types.deep_view() =~= contract_types(items@.take(i + 1)));
                assert(report.init_functions.deep_view() =~= matching_items(items@.take(i + 1), true));
                assert(report.upgrade_mechanisms.deep_view() =~= matching_items(items@.take(i + 1), false));
            },
        }
        i = i + 1;
    }
    assert(items@.take(items.len() as int) =~= items@);
    if report.upgrade_mechanisms.len() > 0 {
        let first = report.upgrade_mechanisms[0].clone();
        let finding = UpgradeFinding {
            category: UpgradeCategory::Governance,
            function_name: Some(first.clone()),
            location: first,
            message: String::from_str("Upgrade/admin mechanism detected"),
            suggestion: String::from_str(
                "Ensure upgrade/admin functions are properly access-controlled (e.g. require_auth) and consider timelocks/governance.",
            ),
        };
        report.findings.push(finding);
        assert(report.upgrade_mechanisms.deep_view()[0] == report.upgrade_mechanisms@[0]@);
    }
    report
}


/// The names that mark an upgrade or admin operation, once lowercased: the fixed list, and any
/// name that mentions `upgrade` together with `contract` or `wasm`.
pub open spec fn names_upgrade_or_admin(lower: Seq<char>) -> bool {
    ||| lower == "set_admin"@
    ||| lower == "upgrade"@
    ||| lower == "set_authorized"@
    ||| lower == "deploy"@
    ||| lower == "update_admin"@
    ||| lower == "transfer_admin"@
    ||| lower == "change_admin"@
    ||| seq_contains(lower, "upgrade"@) && seq_contains(lower, "contract"@)
    ||| seq_contains(lower, "upgrade"@) && seq_contains(lower, "wasm"@)
}

proof fn lemma_matching_fns_has(fns: Seq<ImplFn>, j: int, init: bool)
    requires
        0 <= j < fns.len(),
        fns[j].is_public,
        init ==> is_init_lower(unicode_lowercase(fns[j].name@)),
        !init ==> is_upgrade_or_admin_lower(unicode_lowercase(fns[j].name@)),
    ensures
        matching_fns(fns, init).contains(fns[j].name@),
    decreases fns.len(),
{
    let prev = fns.drop_last();
    let r = matching_fns(fns, init);
    if j == fns.len() - 1 {
        assert(r[matching_fns(prev, init).len() as int] == fns[j].name@);
    } else {
        assert(prev[j] == fns[j]);
        lemma_matching_fns_has(prev, j, init);
        let k = choose|k: int| 0 <= k < matching_fns(prev, init).len() && matching_fns(prev, init)[k] == fns[j].name@;
        assert(r[k] == fns[j].name@);
    }
}

proof fn lemma_matching_items_has(items: Seq<TopItem>, i: int, j: int, init: bool)
    requires
        0 <= i < items.len(),
        items[i] is Impl,
        0 <= j < items[i]->fns@.len(),
        items[i]->fns@[j].is_public,
        init ==> is_init_lower(unicode_lowercase(items[i]->fns@[j].name@)),
        !init ==> is_upgrade_or_admin_lower(unicode_lowercase(items[i]->fns@[j].name@)),
    ensures
        matching_items(items, init).contains(items[i]->fns@[j].name@),
    decreases items.len(),
{
    let prev = items.drop_last();
    let r = matching_items(items, init);
    let name = items[i]->fns@[j].name@;
    if i == items.len() - 1 {
        lemma_matching_fns_has(items[i]->fns@, j, init);
        let m = matching_fns(items[i]->fns@, init);
        let k = choose|k: int| 0 <= k < m.len() && m[k] == name;
        assert(r[matching_items(prev, init).len() + k] == name);
    } else {
        assert(prev[i] == items[i]);
        lemma_matching_items_has(prev, i, j, init);
        let k = choose|k: int| 0 <= k < matching_items(prev, init).len() && matching_items(prev, init)[k] == name;
        assert(r[k] == name);
    }
}

/// Every public function of an `impl` block whose lowercased name marks an upgrade or admin
/// operation (`set_admin`, `upgrade`, `set_authorized`, `deploy`, `update_admin`,
/// `transfer_admin`, `change_admin`, or a name with `upgrade` and `contract` or `wasm`) is
/// listed among the upgrade mechanisms, and the report then carries its governance finding.
pub proof fn law_upgrade_functions_are_reported(r: UpgradeReport, file: SourceFile, i: int, j: int)
    requires
        is_upgrade_report(r, Some(file)),
        0 <= i < file.items@.len(),
        file.items@[i] is Impl,
        0 <= j < file.items@[i]->fns@.len(),
        file.items@[i]->fns@[j].is_public,
        names_upgrade_or_admin(unicode_lowercase(file.items@[i]->fns@[j].name@)),
    ensures
        r.upgrade_mechanisms.deep_view().contains(file.items@[i]->fns@[j].name@),
        r.findings@.len() == 1,
        r.findings@[0].category == UpgradeCategory::Governance,
        r.findings@[0].message@ == "Upgrade/admin mechanism detected"@,
{
    lemma_matching_items_has(file.items@, i, j, false);
}

/// Every public function of an `impl` block whose lowercased name is `initialize`, `init` or
/// `initialise` is listed among the initialization functions.
pub proof fn law_init_functions_are_reported(r: UpgradeReport, file: SourceFile, i: int, j: int)
    requires
        is_upgrade_report(r, Some(file)),
        0 <= i < file.items@.len(),
        file.items@[i] is Impl,
        0 <= j < file.items@[i]->fns@.len(),
        file.items@[i]->fns@[j].is_public,
        ({
            let lower = unicode_lowercase(file.items@[i]->fns@[j].name@);
            lower == "initialize"@ || lower == "init"@ || lower == "initialise"@
        }),
    ensures
        r.init_functions.deep_view().contains(file.items@[i]->fns@[j].name@),
{
    lemma_matching_items_has(file.items@, i, j, true);
}

} // verus!
