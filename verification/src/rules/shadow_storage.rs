use vstd::prelude::*;

use crate::rules::{RuleViolation, Severity};
use crate::syntax::{parse_source, source_model, Attr, Expression, ImplFn, SourceFile, Statement, TopItem};
use crate::text::{seq_contains, str_contains, str_equal};

verus! {

/// Storage operations and emitted events found in a piece of code, in the order met.
pub type Findings = (Seq<Seq<char>>, Seq<Seq<char>>);

/// Both kinds of findings of `a` followed by those of `b`.
pub open spec fn join(a: Findings, b: Findings) -> Findings {
    (a.0 + b.0, a.1 + b.1)
}

pub open spec fn no_findings() -> Findings {
    (Seq::empty(), Seq::empty())
}

/// Method names that mutate contract storage.
pub open spec fn is_storage_mutation(name: Seq<char>) -> bool {
    name == "set"@ || name == "update"@ || name == "remove"@ || name == "put"@ || name
        == "insert"@ || name == "delete"@ || name == "extend"@ || name == "extend_ttl"@ || name
        == "extend_ttl_persistent"@ || name == "extend_ttl_instance"@
}

/// The receiver text names a storage handle.
pub open spec fn names_storage(text: Seq<char>) -> bool {
    seq_contains(text, "storage"@) || seq_contains(text, "persistent"@) || seq_contains(
        text,
        "temporary"@,
    ) || seq_contains(text, "instance"@)
}

/// Method and function names that emit events.
pub open spec fn is_event_emit(name: Seq<char>) -> bool {
    name == "publish"@ || name == "emit"@
}

/// What a method call itself contributes, before its receiver and arguments.
pub open spec fn method_call_findings(method: Seq<char>, quoted: Seq<char>) -> Findings {
    (
        if is_storage_mutation(method) && names_storage(quoted) {
            seq![method]
        } else {
            Seq::empty()
        },
        if is_event_emit(method) && seq_contains(quoted, "events"@) {
            seq![method]
        } else {
            Seq::empty()
        },
    )
}

/// Storage operations and events found in `e`: a method call's own findings come first,
/// then those of its receiver and of its arguments; a call through a path named `publish` or
/// `emit` is an event, followed by the findings of its arguments; every other expression
/// gathers the findings of its parts in source order.
pub open spec fn scan_expr(e: Expression) -> Findings
    decreases e,
{
    match e {
        Expression::MethodCall { method, quoted, receiver, args } => join(
            join(method_call_findings(method@, quoted@), scan_expr(*receiver)),
            scan_exprs(args@),
        ),
        Expression::Call { callee, args } => join(
            (
                Seq::empty(),
                match callee {
                    Some(name) => if is_event_emit(name@) {
                        seq![name@]
                    } else {
                        Seq::empty()
                    },
                    None => Seq::empty(),
                },
            ),
            scan_exprs(args@),
        ),
        Expression::Block(stmts) => scan_stmts(stmts@),
        Expression::If { cond, then_branch, else_branch } => join(
            join(scan_expr(*cond), scan_stmts(then_branch@)),
            match else_branch {
                Some(e) => scan_expr(*e),
                None => no_findings(),
            },
        ),
        Expression::Match { scrutinee, arms } => join(scan_expr(*scrutinee), scan_exprs(arms@)),
        Expression::Loop(body) => scan_stmts(body@),
        Expression::ForLoop { iterable, body } => join(scan_expr(*iterable), scan_stmts(body@)),
        Expression::While { cond, body } => join(scan_expr(*cond), scan_stmts(body@)),
        Expression::Assign { left, right } => join(scan_expr(*left), scan_expr(*right)),
        Expression::Unary(inner) => scan_expr(*inner),
        Expression::Binary { left, right } => join(scan_expr(*left), scan_expr(*right)),
        Expression::Try(inner) => scan_expr(*inner),
        Expression::Await(inner) => scan_expr(*inner),
        Expression::Closure(body) => scan_expr(*body),
        Expression::Tuple(elems) => scan_exprs(elems@),
        Expression::Array(elems) => scan_exprs(elems@),
        Expression::Struct(fields) => scan_exprs(fields@),
        Expression::Return(value) => match value {
            Some(v) => scan_expr(*v),
            None => no_findings(),
        },
        Expression::Field(base) => scan_expr(*base),
        Expression::Index { base, index } => join(scan_expr(*base), scan_expr(*index)),
        Expression::Reference(inner) => scan_expr(*inner),
        Expression::Paren(inner) => scan_expr(*inner),
        Expression::Group(inner) => scan_expr(*inner),
        Expression::Cast(inner) => scan_expr(*inner),
        Expression::Other => no_findings(),
    }
}

/// The findings of `es`, one expression after the other.
pub open spec fn scan_exprs(es: Seq<Expression>) -> Findings
    decreases es,
{
    if es.len() == 0 {
        no_findings()
    } else {
        join(scan_exprs(es.drop_last()), scan_expr(es.last()))
    }
}

/// The findings of a statement: of its expression, or of a `let`'s initializer.
pub open spec fn scan_stmt(st: Statement) -> Findings
    decreases st,
{
    match st {
        Statement::Expression(e) => scan_expr(e),
        Statement::Let(init) => match init {
            Some(e) => scan_expr(e),
            None => no_findings(),
        },
        Statement::Other => no_findings(),
    }
}

/// The findings of `ss`, one statement after the other.
pub open spec fn scan_stmts(ss: Seq<Statement>) -> Findings
    decreases ss,
{
    if ss.len() == 0 {
        no_findings()
    } else {
        join(scan_stmts(ss.drop_last()), scan_stmt(ss.last()))
    }
}

/// Whether `method_name` is one of the methods that mutate contract storage.
pub fn is_storage_mutation_method(method_name: &str) -> (r: bool)
    ensures
        r == is_storage_mutation(method_name@),
{
    str_equal(method_name, "set") || str_equal(method_name, "update") || str_equal(
        method_name,
        "remove",
    ) || str_equal(method_name, "put") || str_equal(method_name, "insert") || str_equal(
        method_name,
        "delete",
    ) || str_equal(method_name, "extend") || str_equal(method_name, "extend_ttl") || str_equal(
        method_name,
        "extend_ttl_persistent",
    ) || str_equal(method_name, "extend_ttl_instance")
}

fn is_event_method(name: &str) -> (r: bool)
    ensures
        r == is_event_emit(name@),
{
    str_equal(name, "publish") || str_equal(name, "emit")
}

/// Appends the findings of `expr` to `storage_ops` and `events_emitted`.
fn analyze_expr(expr: &Expression, storage_ops: &mut Vec<String>, events_emitted: &mut Vec<String>)
    ensures
        final(storage_ops).deep_view() == old(storage_ops).deep_view() + scan_expr(*expr).0,
        final(events_emitted).deep_view() == old(events_emitted).deep_view() + scan_expr(*expr).1,
    decreases expr,
{
    let ghost s0 = storage_ops.deep_view();
    let ghost e0 = events_emitted.deep_view();
    match expr {
        Expression::MethodCall { method, quoted, receiver, args } => {
            if is_storage_mutation_method(method.as_str()) {
                let q = quoted.as_str();
                if str_contains(q, "storage") || str_contains(q, "persistent") || str_contains(
                    q,
                    "temporary",
                ) || str_contains(q, "instance") {
                    storage_ops.push(method.clone());
                }
            }
            if is_event_method(method.as_str()) {
                if str_contains(quoted.as_str(), "events") {
                    events_emitted.push(method.clone());
                }
            }
            assert(storage_ops.deep_view() =~= s0 + method_call_findings(method@, quoted@).0);
            assert(events_emitted.deep_view() =~= e0 + method_call_findings(method@, quoted@).1);
            analyze_expr(receiver, storage_ops, events_emitted);
            analyze_exprs(args, storage_ops, events_emitted);
        },
        Expression::Call { callee, args } => {
            match callee {
                Some(name) => {
                    if is_event_method(name.as_str()) {
                        events_emitted.push(name.clone());
                    }
                },
                None => {},
            }
            analyze_exprs(args, storage_ops, events_emitted);
        },
        Expression::Block(stmts) => {
            analyze_function_body(stmts, storage_ops, events_emitted);
        },
        Expression::If { cond, then_branch, else_branch } => {
            analyze_expr(cond, storage_ops, events_emitted);
            analyze_function_body(then_branch, storage_ops, events_emitted);
            match else_branch {
                Some(e) => analyze_expr(e, storage_ops, events_emitted),
                None => {},
            }
        },
        Expression::Match { scrutinee, arms } => {
            analyze_expr(scrutinee, storage_ops, events_emitted);
            analyze_exprs(arms, storage_ops, events_emitted);
        },
        Expression::Loop(body) => {
            analyze_function_body(body, storage_ops, events_emitted);
        },
        Expression::ForLoop { iterable, body } => {
            analyze_expr(iterable, storage_ops, events_emitted);
            analyze_function_body(body, storage_ops, events_emitted);
        },
        Expression::While { cond, body } => {
            analyze_expr(cond, storage_ops, events_emitted);
            analyze_function_body(body, storage_ops, events_emitted);
        },
        Expression::Assign { left, right } => {
            analyze_expr(left, storage_ops, events_emitted);
            analyze_expr(right, storage_ops, events_emitted);
        },
        Expression::Unary(inner) => analyze_expr(inner, storage_ops, events_emitted),
        Expression::Binary { left, right } => {
            analyze_expr(left, storage_ops, events_emitted);
            analyze_expr(right, storage_ops, events_emitted);
        },
        Expression::Try(inner) => analyze_expr(inner, storage_ops, events_emitted),
        Expression::Await(inner) => analyze_expr(inner, storage_ops, events_emitted),
        Expression::Closure(body) => analyze_expr(body, storage_ops, events_emitted),
        Expression::Tuple(elems) => analyze_exprs(elems, storage_ops, events_emitted),
        Expression::Array(elems) => analyze_exprs(elems, storage_ops, events_emitted),
        Expression::Struct(fields) => analyze_exprs(fields, storage_ops, events_emitted),
        Expression::Return(value) => {
            match value {
                Some(v) => analyze_expr(v, storage_ops, events_emitted),
                None => {},
            }
        },
        Expression::Field(base) => analyze_expr(base, storage_ops, events_emitted),
        Expression::Index { base, index } => {
            analyze_expr(base, storage_ops, events_emitted);
            analyze_expr(index, storage_ops, events_emitted);
        },
        Expression::Reference(inner) => analyze_expr(inner, storage_ops, events_emitted),
        Expression::Paren(inner) => analyze_expr(inner, storage_ops, events_emitted),
        Expression::Group(inner) => analyze_expr(inner, storage_ops, events_emitted),
        Expression::Cast(inner) => analyze_expr(inner, storage_ops, events_emitted),
        Expression::Other => {},
    }
}

/// Appends the findings of each of `es`, in order.
fn analyze_exprs(es: &Vec<Expression>, storage_ops: &mut Vec<String>, events_emitted: &mut Vec<String>)
    ensures
        final(storage_ops).deep_view() == old(storage_ops).deep_view() + scan_exprs(es@).0,
        final(events_emitted).deep_view() == old(events_emitted).deep_view() + scan_exprs(es@).1,
    decreases es,
{
    let ghost s0 = storage_ops.deep_view();
    let ghost e0 = events_emitted.deep_view();
    let mut i: usize = 0;
    assert(es@.take(0) =~= Seq::<Expression>::empty());
    while i < es.len()
        invariant
            i <= es.len(),
            storage_ops.deep_view() == s0 + scan_exprs(es@.take(i as int)).0,
            events_emitted.deep_view() == e0 + scan_exprs(es@.take(i as int)).1,
        decreases es.len() - i,
    {
        assert(es@.take(i + 1).drop_last() =~= es@.take(i as int));
        assert(es@.take(i + 1).last() == es@[i as int]);
        analyze_expr(&es[i], storage_ops, events_emitted);
        assert(s0 + scan_exprs(es@.take(i as int)).0 + scan_expr(es@[i as int]).0 =~= s0
            + scan_exprs(es@.take(i + 1)).0);
        assert(e0 + scan_exprs(es@.take(i as int)).1 + scan_expr(es@[i as int]).1 =~= e0
            + scan_exprs(es@.take(i + 1)).1);
        i = i + 1;
    }
    assert(es@.take(es.len() as int) =~= es@);
}

/// Appends the findings of the statements of a body, in order.
fn analyze_function_body(
    stmts: &Vec<Statement>,
    storage_ops: &mut Vec<String>,
    events_emitted: &mut Vec<String>,
)
    ensures
        final(storage_ops).deep_view() == old(storage_ops).deep_view() + scan_stmts(stmts@).0,
        final(events_emitted).deep_view() == old(events_emitted).deep_view() + scan_stmts(
            stmts@,
        ).1,
    decreases stmts,
{
    let ghost s0 = storage_ops.deep_view();
    let ghost e0 = events_emitted.deep_view();
    let mut i: usize = 0;
    assert(stmts@.take(0) =~= Seq::<Statement>::empty());
    while i < stmts.len()
        invariant
            i <= stmts.len(),
            storage_ops.deep_view() == s0 + scan_stmts(stmts@.take(i as int)).0,
            events_emitted.deep_view() == e0 + scan_stmts(stmts@.take(i as int)).1,
        decreases stmts.len() - i,
    {
        assert(stmts@.take(i + 1).drop_last() =~= stmts@.take(i as int));
        assert(stmts@.take(i + 1).last() == stmts@[i as int]);
        let ghost before_s = storage_ops.deep_view();
        let ghost before_e = events_emitted.deep_view();
        match &stmts[i] {
            Statement::Expression(e) => analyze_expr(e, storage_ops, events_emitted),
            Statement::Let(init) => {
                match init {
                    Some(e) => analyze_expr(e, storage_ops, events_emitted),
                    None => {},
                }
            },
            Statement::Other => {},
        }
        assert(storage_ops.deep_view() =~= before_s + scan_stmt(stmts@[i as int]).0);
        assert(events_emitted.deep_view() =~= before_e + scan_stmt(stmts@[i as int]).1);
        assert(s0 + scan_stmts(stmts@.take(i as int)).0 + scan_stmt(stmts@[i as int]).0 =~= s0
            + scan_stmts(stmts@.take(i + 1)).0);
        assert(e0 + scan_stmts(stmts@.take(i as int)).1 + scan_stmt(stmts@[i as int]).1 =~= e0
            + scan_stmts(stmts@.take(i + 1)).1);
        i = i + 1;
    }
    assert(stmts@.take(stmts.len() as int) =~= stmts@);
}

/// The attribute list holds a bare-path attribute with `name` as one of its path segments.
pub open spec fn has_attr_spec(attrs: Seq<Attr>, name: Seq<char>) -> bool {
    exists|i: int|
        0 <= i < attrs.len() && #[trigger] attrs[i].is_bare_path && attrs[i].path.deep_view().contains(
            name,
        )
}

/// The attribute's path is exactly the identifier `name`.
pub open spec fn path_is_ident(a: Attr, name: Seq<char>) -> bool {
    !a.leading_colon && a.path@.len() == 1 && a.path@[0]@ == name
}

/// The attribute list holds a `cfg` attribute whose text mentions `test`.
pub open spec fn is_cfg_test_spec(attrs: Seq<Attr>) -> bool {
    exists|i: int|
        0 <= i < attrs.len() && path_is_ident(#[trigger] attrs[i], "cfg"@) && seq_contains(
            attrs[i].tokens@,
            "test"@,
        )
}

/// Soroban entry points that the rule never flags.
pub open spec fn is_reserved_entrypoint(name: Seq<char>) -> bool {
    name == "__constructor"@ || name == "__check_auth"@
}

/// A public, non-test, non-reserved function that mutates storage and emits no event.
pub open spec fn is_shadow_storage_fn(f: ImplFn) -> bool {
    &&& !has_attr_spec(f.attrs@, "test"@)
    &&& f.is_public
    &&& !is_reserved_entrypoint(f.name@)
    &&& scan_stmts(f.body@).0.len() > 0
    &&& scan_stmts(f.body@).1.len() == 0
}

/// Names of the flagged functions among `fns`, in order.
pub open spec fn flagged_fns(fns: Seq<ImplFn>) -> Seq<Seq<char>>
    decreases fns.len(),
{
    if fns.len() == 0 {
        Seq::empty()
    } else {
        flagged_fns(fns.drop_last()) + if is_shadow_storage_fn(fns.last()) {
            seq![fns.last().name@]
        } else {
            Seq::empty()
        }
    }
}

/// Names of the flagged functions of one item: those of an `impl` block that is not
/// compiled for tests only.
pub open spec fn flagged_in_item(item: TopItem) -> Seq<Seq<char>> {
    match item {
        TopItem::Impl { attrs, fns } => if is_cfg_test_spec(attrs@) {
            Seq::empty()
        } else {
            flagged_fns(fns@)
        },
        _ => Seq::empty(),
    }
}

/// Names of the flagged functions of `items`, in order.
pub open spec fn flagged_items(items: Seq<TopItem>) -> Seq<Seq<char>>
    decreases items.len(),
{
    if items.len() == 0 {
        Seq::empty()
    } else {
        flagged_items(items.drop_last()) + flagged_in_item(items.last())
    }
}

/// Names of the functions that the rule flags in a source file (none when it did not parse).
pub open spec fn shadow_storage_findings(parsed: Option<SourceFile>) -> Seq<Seq<char>> {
    match parsed {
        Some(file) => flagged_items(file.items@),
        None => Seq::empty(),
    }
}

/// The message for a flagged function.
pub open spec fn shadow_message(name: Seq<char>) -> Seq<char> {
    "Function '"@ + name
        + "' modifies storage without emitting events. This creates transparency gaps for indexers and off-chain monitors."@
}

/// The suggestion attached to every violation of the rule.
pub open spec fn shadow_suggestion() -> Seq<char> {
    "Emit an event after each storage mutation using env.events().publish() to ensure indexers can track state changes. Example: env.events().publish((symbol_short!(\"event_name\"), key), data)"@
}

/// The violation that the rule reports for the function `name`.
pub open spec fn is_shadow_violation(v: RuleViolation, name: Seq<char>) -> bool {
    &&& v.rule_name@ == "shadow_storage"@
    &&& v.severity == Severity::Warning
    &&& v.message@ == shadow_message(name)
    &&& v.location@ == name
    &&& v.suggestion matches Some(sug) && sug@ == shadow_suggestion()
    &&& v.patches@.len() == 0
}

/// Whether the attribute list holds a bare-path attribute with `name` as a path segment.
pub(crate) fn has_attr(attrs: &Vec<Attr>, name: &str) -> (r: bool)
    ensures
        r == has_attr_spec(attrs@, name@),
{
    let mut i: usize = 0;
    while i < attrs.len()
        invariant
            i <= attrs.len(),
            forall|j: int|
                0 <= j < i ==> !(#[trigger] attrs@[j].is_bare_path && attrs@[j].path.deep_view().contains(
                    name@,
                )),
        decreases attrs.len() - i,
    {
        let a = &attrs[i];
        if a.is_bare_path {
            let mut k: usize = 0;
            while k < a.path.len()
                invariant
                    i < attrs.len(),
                    *a == attrs@[i as int],
                    a.is_bare_path,
                    k <= a.path@.len(),
                    forall|m: int| 0 <= m < k ==> a.path@[m]@ != name@,
                decreases a.path.len() - k,
            {
                if str_equal(a.path[k].as_str(), name) {
                    assert(a.path.deep_view()[k as int] == name@);
                    assert(attrs@[i as int].is_bare_path && attrs@[i as int].path.deep_view().contains(name@));
                    return true;
                }
                k = k + 1;
            }
            assert(!a.path.deep_view().contains(name@)) by {
                if a.path.deep_view().contains(name@) {
                    let m = choose|m: int| 0 <= m < a.path.deep_view().len() && a.path.deep_view()[m] == name@;
                    assert(a.path@[m]@ == name@);
                }
            }
        }
        i = i + 1;
    }
    false
}

/// Whether the attribute list holds a `cfg` attribute that mentions `test`.
fn is_cfg_test_attrs(attrs: &Vec<Attr>) -> (r: bool)
    ensures
        r == is_cfg_test_spec(attrs@),
{
    let mut i: usize = 0;
    while i < attrs.len()
        invariant
            i <= attrs.len(),
            forall|j: int|
                0 <= j < i ==> !(path_is_ident(#[trigger] attrs@[j], "cfg"@) && seq_contains(
                    attrs@[j].tokens@,
                    "test"@,
                )),
        decreases attrs.len() - i,
    {
        let a = &attrs[i];
        if !a.leading_colon && a.path.len() == 1 && str_equal(a.path[0].as_str(), "cfg")
            && str_contains(a.tokens.as_str(), "test") {
            return true;
        }
        i = i + 1;
    }
    false
}

/// Whether `fn_name` is a Soroban entry point that the rule never flags.
fn is_reserved_soroban_entrypoint(fn_name: &str) -> (r: bool)
    ensures
        r == is_reserved_entrypoint(fn_name@),
{
    str_equal(fn_name, "__constructor") || str_equal(fn_name, "__check_auth")
}

/// The rule that reports functions that change contract storage without emitting an event.
pub struct ShadowStorageRule;

impl ShadowStorageRule {
    pub fn new() -> (r: ShadowStorageRule)
        ensures
            r == ShadowStorageRule,
    {
        ShadowStorageRule
    }

    /// The rule's name.
    pub fn name(&self) -> (r: &'static str)
        ensures
            r@ == "shadow_storage"@,
    {
        "shadow_storage"
    }

    /// What the rule detects.
    pub fn description(&self) -> (r: &'static str)
        ensures
            r@ == "Detects functions that modify contract storage without emitting corresponding events, creating transparency gaps for indexers"@,
    {
        "Detects functions that modify contract storage without emitting corresponding events, creating transparency gaps for indexers"
    }

    /// The violation reported for the function `fn_name`.
    fn violation_for(&self, fn_name: &String) -> (v: RuleViolation)
        ensures
            is_shadow_violation(v, fn_name@),
    {
        let mut message = String::from_str("Function '");
        message.append(fn_name.as_str());
        message.append(
            "' modifies storage without emitting events. This creates transparency gaps for indexers and off-chain monitors.",
        );
        let suggestion = String::from_str(
            "Emit an event after each storage mutation using env.events().publish() to ensure indexers can track state changes. Example: env.events().publish((symbol_short!(\"event_name\"), key), data)",
        );
        RuleViolation::new(self.name(), Severity::Warning, message, fn_name.clone()).with_suggestion(
            suggestion,
        )
    }

    /// Reports every public function of a non-test `impl` block of the file (other than the
    /// reserved entry points and `#[test]` functions) that performs a storage mutation and
    /// emits no event; nothing for a file that did not parse.
    pub fn check(&self, source: &str) -> (violations: Vec<RuleViolation>)
        ensures
            violations@.len() == shadow_storage_findings(source_model(source@)).len(),
            forall|k: int|
                0 <= k < violations@.len() ==> is_shadow_violation(
                    #[trigger] violations@[k],
                    shadow_storage_findings(source_model(source@))[k],
                ),
    {
        let parsed = parse_source(source);
        self.check_parsed(&parsed)
    }

    /// The violations of a parsed file, as `check` reports them.
    pub fn check_parsed(&self, parsed: &Option<SourceFile>) -> (violations: Vec<RuleViolation>)
        ensures
            violations@.len() == shadow_storage_findings(*parsed).len(),
            forall|k: int|
                0 <= k < violations@.len() ==> is_shadow_violation(
                    #[trigger] violations@[k],
                    shadow_storage_findings(*parsed)[k],
                ),
    {
        let mut violations: Vec<RuleViolation> = Vec::new();
        let file = match parsed {
            Some(f) => f,
            None => {
                return violations;
            },
        };
        let items = &file.items;
        let mut i: usize = 0;
        assert(items@.take(0) =~= Seq::<TopItem>::empty());
        while i < items.len()
            invariant
                *parsed == Some(*file),
                items == &file.items,
                i <= items.len(),
                violations@.len() == flagged_items(items@.take(i as int)).len(),
                forall|k: int|
                    0 <= k < violations@.len() ==> is_shadow_violation(
                        #[trigger] violations@[k],
                        flagged_items(items@.take(i as int))[k],
                    ),
            decreases items.len() - i,
        {
            assert(items@.take(i + 1).drop_last() =~= items@.take(i as int));
            let ghost before = flagged_items(items@.take(i as int));
            match &items[i] {
                TopItem::Impl { attrs, fns } => {
                    if !is_cfg_test_attrs(attrs) {
                        let mut j: usize = 0;
                        assert(fns@.take(0) =~= Seq::<ImplFn>::empty());
                        while j < fns.len()
                            invariant
                                j <= fns.len(),
                                violations@.len() == before.len() + flagged_fns(fns@.take(j as int)).len(),
                                forall|k: int|
                                    0 <= k < violations@.len() ==> is_shadow_violation(
                                        #[trigger] violations@[k],
                                        (before + flagged_fns(fns@.take(j as int)))[k],
                                    ),
                            decreases fns.len() - j,
                        {
                            assert(fns@.take(j + 1).drop_last() =~= fns@.take(j as int));
                            let f = &fns[j];
                            if !has_attr(&f.attrs, "test") && f.is_public
                                && !is_reserved_soroban_entrypoint(f.name.as_str()) {
                                let mut storage_ops: Vec<String> = Vec::new();
                                let mut events_emitted: Vec<String> = Vec::new();
                                analyze_function_body(&f.body, &mut storage_ops, &mut events_emitted);
                                assert(storage_ops.deep_view().len() == scan_stmts(f.body@).0.len());
                                assert(events_emitted.deep_view().len() == scan_stmts(f.body@).1.len());
                                if storage_ops.len() > 0 && events_emitted.len() == 0 {
                                    let v = self.violation_for(&f.name);
                                    violations.push(v);
                                }
                            }
                            assert(before + flagged_fns(fns@.take(j + 1)) =~= before
                                + flagged_fns(fns@.take(j as int)) + if is_shadow_storage_fn(fns@[j as int]) {
                                seq![fns@[j as int].name@]
                            } else {
                                Seq::empty()
                            });
                            j = j + 1;
                        }
                        assert(fns@.take(fns.len() as int) =~= fns@);
                    }
                },
                _ => {},
            }
            assert(flagged_items(items@.take(i + 1)) =~= before + flagged_in_item(items@[i as int]));
            i = i + 1;
        }
        assert(items@.take(items.len() as int) =~= items@);
        violations
    }
}

impl Default for ShadowStorageRule {
    fn default() -> (r: ShadowStorageRule)
        ensures
            r == ShadowStorageRule,
    {
        Self::new()
    }
}

} // verus!

verus! {

/// Function `j` of item `i` is an `impl` function, outside a test-only `impl` block, named
/// `name`, that the rule flags.
pub open spec fn flagged_at(items: Seq<TopItem>, i: int, j: int, name: Seq<char>) -> bool {
    0 <= i < items.len() && match items[i] {
        TopItem::Impl { attrs, fns } => {
            &&& !is_cfg_test_spec(attrs@)
            &&& 0 <= j < fns@.len()
            &&& fns@[j].name@ == name
            &&& is_shadow_storage_fn(fns@[j])
        },
        _ => false,
    }
}

/// Function `j` of `fns` is named `name` and flagged.
pub open spec fn flagged_fn_at(fns: Seq<ImplFn>, j: int, name: Seq<char>) -> bool {
    0 <= j < fns.len() && fns[j].name@ == name && is_shadow_storage_fn(fns[j])
}

/// Some function of `fns` is named `name` and flagged.
pub open spec fn some_flagged_fn(fns: Seq<ImplFn>, name: Seq<char>) -> bool {
    exists|j: int| flagged_fn_at(fns, j, name)
}

/// Some function of a non-test `impl` block of `items` is named `name` and flagged.
pub open spec fn some_flagged_item_fn(items: Seq<TopItem>, name: Seq<char>) -> bool {
    exists|i: int, j: int| flagged_at(items, i, j, name)
}

proof fn lemma_flagged_fns_witness(fns: Seq<ImplFn>)
    ensures
        forall|k: int|
            0 <= k < flagged_fns(fns).len() ==> some_flagged_fn(fns, #[trigger] flagged_fns(fns)[k]),
    decreases fns.len(),
{
    if fns.len() > 0 {
        let prev = fns.drop_last();
        lemma_flagged_fns_witness(prev);
        assert forall|k: int| 0 <= k < flagged_fns(fns).len() implies some_flagged_fn(
            fns,
            #[trigger] flagged_fns(fns)[k],
        ) by {
            if k < flagged_fns(prev).len() {
                assert(flagged_fns(fns)[k] == flagged_fns(prev)[k]);
                assert(some_flagged_fn(prev, flagged_fns(prev)[k]));
                let j = choose|j: int| flagged_fn_at(prev, j, flagged_fns(prev)[k]);
                assert(fns[j] == prev[j]);
                assert(flagged_fn_at(fns, j, flagged_fns(fns)[k]));
            } else {
                assert(flagged_fn_at(fns, fns.len() - 1, flagged_fns(fns)[k]));
            }
        }
    }
}

proof fn lemma_flagged_items_witness(items: Seq<TopItem>)
    ensures
        forall|k: int|
            0 <= k < flagged_items(items).len() ==> some_flagged_item_fn(
                items,
                #[trigger] flagged_items(items)[k],
            ),
    decreases items.len(),
{
    if items.len() > 0 {
        let prev = items.drop_last();
        lemma_flagged_items_witness(prev);
        let last = items.len() - 1;
        assert forall|k: int| 0 <= k < flagged_items(items).len() implies some_flagged_item_fn(
            items,
            #[trigger] flagged_items(items)[k],
        ) by {
            if k < flagged_items(prev).len() {
                assert(flagged_items(items)[k] == flagged_items(prev)[k]);
                assert(some_flagged_item_fn(prev, flagged_items(prev)[k]));
                let (i, j) = choose|i: int, j: int| flagged_at(prev, i, j, flagged_items(prev)[k]);
                assert(items[i] == prev[i]);
                assert(flagged_at(items, i, j, flagged_items(items)[k]));
            } else {
                let m = k - flagged_items(prev).len();
                match items[last] {
                    TopItem::Impl { attrs, fns } => {
                        lemma_flagged_fns_witness(fns@);
                        assert(flagged_items(items)[k] == flagged_fns(fns@)[m]);
                        assert(some_flagged_fn(fns@, flagged_fns(fns@)[m]));
                        let j = choose|j: int| flagged_fn_at(fns@, j, flagged_fns(fns@)[m]);
                        assert(flagged_at(items, last, j, flagged_items(items)[k]));
                    },
                    _ => {},
                }
            }
        }
    }
}

/// The rule only ever names a public function of a non-test `impl` block that is not a test,
/// not a reserved entry point, performs a storage mutation and emits no event.
pub proof fn law_flagged_functions_mutate_storage_silently(file: SourceFile)
    ensures
        forall|k: int|
            0 <= k < shadow_storage_findings(Some(file)).len() ==> some_flagged_item_fn(
                file.items@,
                #[trigger] shadow_storage_findings(Some(file))[k],
            ),
{
    lemma_flagged_items_witness(file.items@);
}


/// Every recorded storage operation is the name of a storage-mutating method, and every
/// recorded event is `publish` or `emit`.
pub open spec fn well_named(f: Findings) -> bool {
    &&& forall|k: int| 0 <= k < f.0.len() ==> is_storage_mutation(#[trigger] f.0[k])
    &&& forall|k: int| 0 <= k < f.1.len() ==> is_event_emit(#[trigger] f.1[k])
}

proof fn lemma_join_well_named(a: Findings, b: Findings)
    requires
        well_named(a),
        well_named(b),
    ensures
        well_named(join(a, b)),
{
    let j = join(a, b);
    assert forall|k: int| 0 <= k < j.0.len() implies is_storage_mutation(#[trigger] j.0[k]) by {
        if k >= a.0.len() {
            assert(j.0[k] == b.0[k - a.0.len()]);
        }
    }
    assert forall|k: int| 0 <= k < j.1.len() implies is_event_emit(#[trigger] j.1[k]) by {
        if k >= a.1.len() {
            assert(j.1[k] == b.1[k - a.1.len()]);
        }
    }
}

/// Every storage operation recorded for an expression is a call of a storage-mutating method,
/// and every event recorded is a call of `publish` or `emit`.
pub proof fn law_expression_findings_are_well_named(e: Expression)
    ensures
        well_named(scan_expr(e)),
    decreases e,
{
    match e {
        Expression::MethodCall { method, quoted, receiver, args } => {
            law_expression_findings_are_well_named(*receiver);
            law_expressions_findings_are_well_named(args@);
            lemma_join_well_named(method_call_findings(method@, quoted@), scan_expr(*receiver));
            lemma_join_well_named(
                join(method_call_findings(method@, quoted@), scan_expr(*receiver)),
                scan_exprs(args@),
            );
        },
        Expression::Call { callee, args } => {
            law_expressions_findings_are_well_named(args@);
            let own: Findings = (
                Seq::empty(),
                match callee {
                    Some(name) => if is_event_emit(name@) {
                        seq![name@]
                    } else {
                        Seq::empty()
                    },
                    None => Seq::empty(),
                },
            );
            lemma_join_well_named(own, scan_exprs(args@));
        },
        Expression::Block(stmts) => law_statements_findings_are_well_named(stmts@),
        Expression::If { cond, then_branch, else_branch } => {
            law_expression_findings_are_well_named(*cond);
            law_statements_findings_are_well_named(then_branch@);
            lemma_join_well_named(scan_expr(*cond), scan_stmts(then_branch@));
            match else_branch {
                Some(x) => {
                    law_expression_findings_are_well_named(*x);
                    lemma_join_well_named(
                        join(scan_expr(*cond), scan_stmts(then_branch@)),
                        scan_expr(*x),
                    );
                },
                None => {
                    lemma_join_well_named(
                        join(scan_expr(*cond), scan_stmts(then_branch@)),
                        no_findings(),
                    );
                },
            }
        },
        Expression::Match { scrutinee, arms } => {
            law_expression_findings_are_well_named(*scrutinee);
            law_expressions_findings_are_well_named(arms@);
            lemma_join_well_named(scan_expr(*scrutinee), scan_exprs(arms@));
        },
        Expression::Loop(body) => law_statements_findings_are_well_named(body@),
        Expression::ForLoop { iterable, body } => {
            law_expression_findings_are_well_named(*iterable);
            law_statements_findings_are_well_named(body@);
            lemma_join_well_named(scan_expr(*iterable), scan_stmts(body@));
        },
        Expression::While { cond, body } => {
            law_expression_findings_are_well_named(*cond);
            law_statements_findings_are_well_named(body@);
            lemma_join_well_named(scan_expr(*cond), scan_stmts(body@));
        },
        Expression::Assign { left, right } => {
            law_expression_findings_are_well_named(*left);
            law_expression_findings_are_well_named(*right);
            lemma_join_well_named(scan_expr(*left), scan_expr(*right));
        },
        Expression::Unary(inner) => law_expression_findings_are_well_named(*inner),
        Expression::Binary { left, right } => {
            law_expression_findings_are_well_named(*left);
            law_expression_findings_are_well_named(*right);
            lemma_join_well_named(scan_expr(*left), scan_expr(*right));
        },
        Expression::Try(inner) => law_expression_findings_are_well_named(*inner),
        Expression::Await(inner) => law_expression_findings_are_well_named(*inner),
        Expression::Closure(body) => law_expression_findings_are_well_named(*body),
        Expression::Tuple(elems) => law_expressions_findings_are_well_named(elems@),
        Expression::Array(elems) => law_expressions_findings_are_well_named(elems@),
        Expression::Struct(fields) => law_expressions_findings_are_well_named(fields@),
        Expression::Return(value) => match value {
            Some(v) => law_expression_findings_are_well_named(*v),
            None => {},
        },
        Expression::Field(base) => law_expression_findings_are_well_named(*base),
        Expression::Index { base, index } => {
            law_expression_findings_are_well_named(*base);
            law_expression_findings_are_well_named(*index);
            lemma_join_well_named(scan_expr(*base), scan_expr(*index));
        },
        Expression::Reference(inner) => law_expression_findings_are_well_named(*inner),
        Expression::Paren(inner) => law_expression_findings_are_well_named(*inner),
        Expression::Group(inner) => law_expression_findings_are_well_named(*inner),
        Expression::Cast(inner) => law_expression_findings_are_well_named(*inner),
        Expression::Other => {},
    }
}

/// The findings of a list of expressions name only storage-mutating methods and events.
pub proof fn law_expressions_findings_are_well_named(es: Seq<Expression>)
    ensures
        well_named(scan_exprs(es)),
    decreases es,
{
    if es.len() > 0 {
        law_expressions_findings_are_well_named(es.drop_last());
        law_expression_findings_are_well_named(es.last());
        lemma_join_well_named(scan_exprs(es.drop_last()), scan_expr(es.last()));
    }
}

/// The findings of a statement name only storage-mutating methods and events.
pub proof fn law_statement_findings_are_well_named(st: Statement)
    ensures
        well_named(scan_stmt(st)),
    decreases st,
{
    match st {
        Statement::Expression(e) => law_expression_findings_are_well_named(e),
        Statement::Let(init) => match init {
            Some(e) => law_expression_findings_are_well_named(e),
            None => {},
        },
        Statement::Other => {},
    }
}

/// The findings of a function body name only storage-mutating methods and events.
pub proof fn law_statements_findings_are_well_named(ss: Seq<Statement>)
    ensures
        well_named(scan_stmts(ss)),
    decreases ss,
{
    if ss.len() > 0 {
        law_statements_findings_are_well_named(ss.drop_last());
        law_statement_findings_are_well_named(ss.last());
        lemma_join_well_named(scan_stmts(ss.drop_last()), scan_stmt(ss.last()));
    }
}


proof fn lemma_scan_stmts_concat(a: Seq<Statement>, b: Seq<Statement>)
    ensures
        scan_stmts(a + b) == join(scan_stmts(a), scan_stmts(b)),
    decreases b.len(),
{
    if b.len() == 0 {
        assert(a + b =~= a);
        assert(join(scan_stmts(a), no_findings()) =~= scan_stmts(a));
    } else {
        lemma_scan_stmts_concat(a, b.drop_last());
        assert((a + b).drop_last() =~= a + b.drop_last());
        assert((a + b).last() == b.last());
        let x = scan_stmts(a);
        let y = scan_stmts(b.drop_last());
        let z = scan_stmt(b.last());
        assert(join(join(x, y), z) =~= join(x, join(y, z)));
    }
}

proof fn lemma_flagged_fns_concat(a: Seq<ImplFn>, b: Seq<ImplFn>)
    ensures
        flagged_fns(a + b) == flagged_fns(a) + flagged_fns(b),
    decreases b.len(),
{
    if b.len() == 0 {
        assert(a + b =~= a);
        assert(flagged_fns(a) + flagged_fns(b) =~= flagged_fns(a));
    } else {
        lemma_flagged_fns_concat(a, b.drop_last());
        assert((a + b).drop_last() =~= a + b.drop_last());
        assert((a + b).last() == b.last());
        assert(flagged_fns(a + b) =~= flagged_fns(a) + flagged_fns(b));
    }
}

proof fn lemma_flagged_items_concat(a: Seq<TopItem>, b: Seq<TopItem>)
    ensures
        flagged_items(a + b) == flagged_items(a) + flagged_items(b),
    decreases b.len(),
{
    if b.len() == 0 {
        assert(a + b =~= a);
        assert(flagged_items(a) + flagged_items(b) =~= flagged_items(a));
    } else {
        lemma_flagged_items_concat(a, b.drop_last());
        assert((a + b).drop_last() =~= a + b.drop_last());
        assert((a + b).last() == b.last());
        assert(flagged_items(a + b) =~= flagged_items(a) + flagged_items(b));
    }
}

/// The functions of an `impl` item, in order (none for another item).
pub open spec fn impl_fns(item: TopItem) -> Seq<ImplFn> {
    match item {
        TopItem::Impl { fns, .. } => fns@,
        _ => Seq::empty(),
    }
}

/// `f2` is `f` with the statement `st` put first in its body.
pub open spec fn with_statement_first(f2: ImplFn, f: ImplFn, st: Statement) -> bool {
    &&& f2.attrs@ == f.attrs@
    &&& f2.is_public == f.is_public
    &&& f2.name@ == f.name@
    &&& f2.body@ == seq![st] + f.body@
}

/// `item2` is the `impl` item `item` with the statement `st` put first in the body of its
/// function `j`, and nothing else changed.
pub open spec fn with_statement_first_in(item2: TopItem, item: TopItem, j: int, st: Statement) -> bool {
    match (item2, item) {
        (TopItem::Impl { attrs: attrs2, fns: fns2 }, TopItem::Impl { attrs, fns }) => {
            &&& attrs2@ == attrs@
            &&& fns2@.len() == fns@.len()
            &&& 0 <= j < fns@.len()
            &&& forall|m: int| 0 <= m < fns@.len() && m != j ==> #[trigger] fns2@[m] == fns@[m]
            &&& with_statement_first(fns2@[j], fns@[j], st)
        },
        _ => false,
    }
}

/// Where the rule's finding for function `j` of item `i` stands in the list of findings.
pub open spec fn finding_position(items: Seq<TopItem>, i: int, j: int) -> int {
    (flagged_items(items.take(i)).len() + flagged_fns(impl_fns(items[i]).take(j)).len()) as int
}

/// Emitting an event clears exactly one violation: when a flagged function gets, as its first
/// statement, one that emits an event (such as `env.events().publish((1,), 2);`), the rule no
/// longer reports it and reports every other function as before, in the same order.
pub proof fn law_emitting_an_event_clears_the_violation(
    file: SourceFile,
    file2: SourceFile,
    i: int,
    j: int,
    name: Seq<char>,
    st: Statement,
)
    requires
        flagged_at(file.items@, i, j, name),
        scan_stmt(st).1.len() > 0,
        file2.items@.len() == file.items@.len(),
        forall|k: int| 0 <= k < file.items@.len() && k != i ==> #[trigger] file2.items@[k] == file.items@[k],
        with_statement_first_in(file2.items@[i], file.items@[i], j, st),
    ensures
        shadow_storage_findings(Some(file))[finding_position(file.items@, i, j)] == name,
        shadow_storage_findings(Some(file2)) == shadow_storage_findings(Some(file)).remove(
            finding_position(file.items@, i, j),
        ),
{
    let items = file.items@;
    let items2 = file2.items@;
    let fns = impl_fns(items[i]);
    let fns2 = impl_fns(items2[i]);
    let f = fns[j];
    let f2 = fns2[j];
    // The item lists split around item `i`, and its function lists around function `j`.
    assert(items =~= items.take(i) + seq![items[i]] + items.skip(i + 1));
    assert(items2 =~= items.take(i) + seq![items2[i]] + items.skip(i + 1));
    assert(fns =~= fns.take(j) + seq![f] + fns.skip(j + 1));
    assert(fns2 =~= fns.take(j) + seq![f2] + fns.skip(j + 1));
    lemma_flagged_items_concat(items.take(i) + seq![items[i]], items.skip(i + 1));
    lemma_flagged_items_concat(items.take(i), seq![items[i]]);
    lemma_flagged_items_concat(items.take(i) + seq![items2[i]], items.skip(i + 1));
    lemma_flagged_items_concat(items.take(i), seq![items2[i]]);
    assert(seq![items[i]].drop_last() =~= Seq::<TopItem>::empty());
    assert(seq![items2[i]].drop_last() =~= Seq::<TopItem>::empty());
    lemma_flagged_fns_concat(fns.take(j) + seq![f], fns.skip(j + 1));
    lemma_flagged_fns_concat(fns.take(j), seq![f]);
    lemma_flagged_fns_concat(fns.take(j) + seq![f2], fns.skip(j + 1));
    lemma_flagged_fns_concat(fns.take(j), seq![f2]);
    assert(seq![f].drop_last() =~= Seq::<ImplFn>::empty());
    assert(seq![f2].drop_last() =~= Seq::<ImplFn>::empty());
    // The changed function now emits an event, so it is no longer flagged.
    lemma_scan_stmts_concat(seq![st], f.body@);
    assert(seq![st].drop_last() =~= Seq::<Statement>::empty());
    assert(!is_shadow_storage_fn(f2));
    assert(is_shadow_storage_fn(f) && f.name@ == name);
    assert(seq![f].last() == f);
    assert(flagged_fns(seq![f].drop_last()) =~= Seq::<Seq<char>>::empty());
    assert(flagged_fns(seq![f]) == flagged_fns(seq![f].drop_last()) + seq![f.name@]);
    assert(flagged_fns(seq![f]) =~= seq![name]);
    assert(flagged_in_item(items[i]) == flagged_fns(fns));
    let before = flagged_items(items.take(i));
    let head = flagged_fns(fns.take(j));
    let tail = flagged_fns(fns.skip(j + 1));
    let after = flagged_items(items.skip(i + 1));
    assert(flagged_in_item(items[i]) =~= head + seq![name] + tail);
    assert(flagged_in_item(items2[i]) =~= head + tail);
    assert(seq![items[i]].last() == items[i]);
    assert(flagged_items(seq![items[i]].drop_last()) =~= Seq::<Seq<char>>::empty());
    assert(flagged_items(seq![items[i]]) =~= flagged_in_item(items[i]));
    assert(flagged_items(items) == flagged_items(items.take(i) + seq![items[i]] + items.skip(i + 1)));
    assert(shadow_storage_findings(Some(file)) =~= before + (head + seq![name] + tail) + after);
    assert(shadow_storage_findings(Some(file2)) =~= before + (head + tail) + after);
    assert((before + (head + seq![name] + tail) + after).remove(before.len() + head.len() as int) =~= before
        + (head + tail) + after);
}


/// `a` occurs in `b` as one contiguous stretch.
pub open spec fn is_infix(a: Seq<Seq<char>>, b: Seq<Seq<char>>) -> bool {
    exists|i: int| 0 <= i && i + a.len() <= b.len() && #[trigger] b.subrange(i, i + a.len()) == a
}

/// Both kinds of findings of `a` occur, each as one stretch, among those of `b`.
pub open spec fn findings_within(a: Findings, b: Findings) -> bool {
    is_infix(a.0, b.0) && is_infix(a.1, b.1)
}

/// The expressions that `e` is made of directly, in source order.
pub open spec fn expr_parts(e: Expression) -> Seq<Expression> {
    match e {
        Expression::MethodCall { receiver, args, .. } => seq![*receiver] + args@,
        Expression::Call { args, .. } => args@,
        Expression::If { cond, else_branch, .. } => seq![*cond] + match else_branch {
            Some(x) => seq![*x],
            None => Seq::empty(),
        },
        Expression::Match { scrutinee, arms } => seq![*scrutinee] + arms@,
        Expression::ForLoop { iterable, .. } => seq![*iterable],
        Expression::While { cond, .. } => seq![*cond],
        Expression::Assign { left, right } => seq![*left, *right],
        Expression::Unary(inner) => seq![*inner],
        Expression::Binary { left, right } => seq![*left, *right],
        Expression::Try(inner) => seq![*inner],
        Expression::Await(inner) => seq![*inner],
        Expression::Closure(body) => seq![*body],
        Expression::Tuple(elems) => elems@,
        Expression::Array(elems) => elems@,
        Expression::Struct(fields) => fields@,
        Expression::Return(value) => match value {
            Some(v) => seq![*v],
            None => Seq::empty(),
        },
        Expression::Field(base) => seq![*base],
        Expression::Index { base, index } => seq![*base, *index],
        Expression::Reference(inner) => seq![*inner],
        Expression::Paren(inner) => seq![*inner],
        Expression::Group(inner) => seq![*inner],
        Expression::Cast(inner) => seq![*inner],
        _ => Seq::empty(),
    }
}

/// The statement lists that `e` holds directly: a block, the `then` branch of an `if`, or a
/// loop body.
pub open spec fn expr_bodies(e: Expression) -> Seq<Seq<Statement>> {
    match e {
        Expression::Block(stmts) => seq![stmts@],
        Expression::If { then_branch, .. } => seq![then_branch@],
        Expression::Loop(body) => seq![body@],
        Expression::ForLoop { body, .. } => seq![body@],
        Expression::While { body, .. } => seq![body@],
        _ => Seq::empty(),
    }
}

proof fn lemma_infix_at(a: Seq<Seq<char>>, b: Seq<Seq<char>>, i: int)
    requires
        0 <= i,
        i + a.len() <= b.len(),
        b.subrange(i, i + a.len()) =~= a,
    ensures
        is_infix(a, b),
{
}

proof fn lemma_within_refl(a: Findings)
    ensures
        findings_within(a, a),
{
    lemma_infix_at(a.0, a.0, 0);
    lemma_infix_at(a.1, a.1, 0);
}

proof fn lemma_within_join(a: Findings, b: Findings)
    ensures
        findings_within(a, join(a, b)),
        findings_within(b, join(a, b)),
{
    let j = join(a, b);
    lemma_infix_at(a.0, j.0, 0);
    lemma_infix_at(a.1, j.1, 0);
    lemma_infix_at(b.0, j.0, a.0.len() as int);
    lemma_infix_at(b.1, j.1, a.1.len() as int);
}

proof fn lemma_infix_trans(x: Seq<Seq<char>>, y: Seq<Seq<char>>, z: Seq<Seq<char>>)
    requires
        is_infix(x, y),
        is_infix(y, z),
    ensures
        is_infix(x, z),
{
    let i = choose|i: int| 0 <= i && i + x.len() <= y.len() && #[trigger] y.subrange(i, i + x.len()) == x;
    let j = choose|j: int| 0 <= j && j + y.len() <= z.len() && #[trigger] z.subrange(j, j + y.len()) == y;
    assert(z.subrange(i + j, i + j + x.len()) =~= x) by {
        assert forall|m: int| 0 <= m < x.len() implies z.subrange(i + j, i + j + x.len())[m] == x[m] by {
            assert(y[i + m] == z[j + i + m]);
            assert(x[m] == y.subrange(i, i + x.len())[m]);
        }
    }
}

proof fn lemma_within_trans(x: Findings, y: Findings, z: Findings)
    requires
        findings_within(x, y),
        findings_within(y, z),
    ensures
        findings_within(x, z),
{
    lemma_infix_trans(x.0, y.0, z.0);
    lemma_infix_trans(x.1, y.1, z.1);
}

/// The findings of each expression of a list occur among those of the list.
proof fn lemma_exprs_within(es: Seq<Expression>)
    ensures
        forall|k: int| 0 <= k < es.len() ==> findings_within(scan_expr(#[trigger] es[k]), scan_exprs(es)),
    decreases es.len(),
{
    if es.len() > 0 {
        let prev = es.drop_last();
        lemma_exprs_within(prev);
        lemma_within_join(scan_exprs(prev), scan_expr(es.last()));
        assert forall|k: int| 0 <= k < es.len() implies findings_within(
            scan_expr(#[trigger] es[k]),
            scan_exprs(es),
        ) by {
            if k < prev.len() {
                assert(prev[k] == es[k]);
                lemma_within_trans(scan_expr(es[k]), scan_exprs(prev), scan_exprs(es));
            }
        }
    }
}

/// The findings of each statement of a body occur among those of the body.
pub proof fn law_statement_findings_within_body(ss: Seq<Statement>)
    ensures
        forall|k: int| 0 <= k < ss.len() ==> findings_within(scan_stmt(#[trigger] ss[k]), scan_stmts(ss)),
    decreases ss.len(),
{
    if ss.len() > 0 {
        let prev = ss.drop_last();
        law_statement_findings_within_body(prev);
        lemma_within_join(scan_stmts(prev), scan_stmt(ss.last()));
        assert forall|k: int| 0 <= k < ss.len() implies findings_within(
            scan_stmt(#[trigger] ss[k]),
            scan_stmts(ss),
        ) by {
            if k < prev.len() {
                assert(prev[k] == ss[k]);
                lemma_within_trans(scan_stmt(ss[k]), scan_stmts(prev), scan_stmts(ss));
            }
        }
    }
}

/// The findings of the expression of a statement (or of a `let`'s initializer) occur among
/// those of the statement.
pub proof fn law_expression_findings_within_statement(st: Statement, e: Expression)
    requires
        st == Statement::Expression(e) || st == Statement::Let(Some(e)),
    ensures
        findings_within(scan_expr(e), scan_stmt(st)),
{
    lemma_within_refl(scan_expr(e));
}

/// Nothing inside an expression is missed: the storage operations and events found in each
/// expression and statement list that it is made of (the receiver and arguments of a call, the
/// arms of a `match`, the branches of an `if`, loop bodies, operands, ...) occur among its own.
pub proof fn law_part_findings_within_expression(e: Expression)
    ensures
        forall|k: int|
            0 <= k < expr_parts(e).len() ==> findings_within(
                scan_expr(#[trigger] expr_parts(e)[k]),
                scan_expr(e),
            ),
        forall|k: int|
            0 <= k < expr_bodies(e).len() ==> findings_within(
                scan_stmts(#[trigger] expr_bodies(e)[k]),
                scan_expr(e),
            ),
{
    let parts = expr_parts(e);
    let whole = scan_expr(e);
    match e {
        Expression::MethodCall { method, quoted, receiver, args } => {
            let own = method_call_findings(method@, quoted@);
            let left = join(own, scan_expr(*receiver));
            lemma_within_join(own, scan_expr(*receiver));
            lemma_within_join(left, scan_exprs(args@));
            lemma_within_trans(scan_expr(*receiver), left, whole);
            lemma_exprs_within(args@);
            assert forall|k: int| 0 <= k < parts.len() implies findings_within(
                scan_expr(#[trigger] parts[k]),
                whole,
            ) by {
                if k > 0 {
                    assert(parts[k] == args@[k - 1]);
                    lemma_within_trans(scan_expr(args@[k - 1]), scan_exprs(args@), whole);
                }
            }
        },
        Expression::Call { callee, args } => {
            lemma_exprs_within(args@);
            let own: Findings = (
                Seq::empty(),
                match callee {
                    Some(name) => if is_event_emit(name@) {
                        seq![name@]
                    } else {
                        Seq::empty()
                    },
                    None => Seq::empty(),
                },
            );
            lemma_within_join(own, scan_exprs(args@));
            assert forall|k: int| 0 <= k < parts.len() implies findings_within(
                scan_expr(#[trigger] parts[k]),
                whole,
            ) by {
                lemma_within_trans(scan_expr(args@[k]), scan_exprs(args@), whole);
            }
        },
        Expression::Block(stmts) => {
            lemma_within_refl(whole);
        },
        Expression::If { cond, then_branch, else_branch } => {
            let left = join(scan_expr(*cond), scan_stmts(then_branch@));
            let right = match else_branch {
                Some(x) => scan_expr(*x),
                None => no_findings(),
            };
            lemma_within_join(scan_expr(*cond), scan_stmts(then_branch@));
            lemma_within_join(left, right);
            lemma_within_trans(scan_expr(*cond), left, whole);
            lemma_within_trans(scan_stmts(then_branch@), left, whole);
        },
        Expression::Match { scrutinee, arms } => {
            lemma_within_join(scan_expr(*scrutinee), scan_exprs(arms@));
            lemma_exprs_within(arms@);
            assert forall|k: int| 0 <= k < parts.len() implies findings_within(
                scan_expr(#[trigger] parts[k]),
                whole,
            ) by {
                if k > 0 {
                    assert(parts[k] == arms@[k - 1]);
                    lemma_within_trans(scan_expr(arms@[k - 1]), scan_exprs(arms@), whole);
                }
            }
        },
        Expression::Loop(body) => {
            lemma_within_refl(whole);
        },
        Expression::ForLoop { iterable, body } => {
            lemma_within_join(scan_expr(*iterable), scan_stmts(body@));
        },
        Expression::While { cond, body } => {
            lemma_within_join(scan_expr(*cond), scan_stmts(body@));
        },
        Expression::Assign { left, right } => {
            lemma_within_join(scan_expr(*left), scan_expr(*right));
        },
        Expression::Binary { left, right } => {
            lemma_within_join(scan_expr(*left), scan_expr(*right));
        },
        Expression::Index { base, index } => {
            lemma_within_join(scan_expr(*base), scan_expr(*index));
        },
        Expression::Tuple(elems) => {
            lemma_exprs_within(elems@);
        },
        Expression::Array(elems) => {
            lemma_exprs_within(elems@);
        },
        Expression::Struct(fields) => {
            lemma_exprs_within(fields@);
        },
        _ => {
            lemma_within_refl(whole);
        },
    }
}

/// A call of a storage-mutating method on a receiver whose text names storage is recorded as
/// a storage operation, and a call of `publish` or `emit` on a receiver whose text names
/// `events` as an event.
pub proof fn law_storage_writes_and_events_are_recorded(e: Expression)
    requires
        e is MethodCall,
    ensures
        ({
            let m = e->method@;
            let q = e->quoted@;
            (m == "set"@ || m == "update"@ || m == "remove"@ || m == "put"@ || m == "insert"@ || m
                == "delete"@ || m == "extend"@ || m == "extend_ttl"@ || m == "extend_ttl_persistent"@
                || m == "extend_ttl_instance"@) && (seq_contains(q, "storage"@) || seq_contains(
                q,
                "persistent"@,
            ) || seq_contains(q, "temporary"@) || seq_contains(q, "instance"@)) ==> is_infix(
                seq![m],
                scan_expr(e).0,
            )
        }),
        ({
            let m = e->method@;
            (m == "publish"@ || m == "emit"@) && seq_contains(e->quoted@, "events"@) ==> is_infix(
                seq![m],
                scan_expr(e).1,
            )
        }),
{
    match e {
        Expression::MethodCall { method, quoted, receiver, args } => {
            let own = method_call_findings(method@, quoted@);
            let left = join(own, scan_expr(*receiver));
            lemma_within_join(own, scan_expr(*receiver));
            lemma_within_join(left, scan_exprs(args@));
            lemma_within_trans(own, left, scan_expr(e));
        },
        _ => {},
    }
}


proof fn lemma_flagged_fns_has(fns: Seq<ImplFn>, j: int)
    requires
        0 <= j < fns.len(),
        is_shadow_storage_fn(fns[j]),
    ensures
        flagged_fns(fns).contains(fns[j].name@),
    decreases fns.len(),
{
    let prev = fns.drop_last();
    let r = flagged_fns(fns);
    if j == fns.len() - 1 {
        assert(r[flagged_fns(prev).len() as int] == fns[j].name@);
    } else {
        assert(prev[j] == fns[j]);
        lemma_flagged_fns_has(prev, j);
        let k = choose|k: int| 0 <= k < flagged_fns(prev).len() && flagged_fns(prev)[k] == fns[j].name@;
        assert(r[k] == fns[j].name@);
    }
}

proof fn lemma_flagged_items_has(items: Seq<TopItem>, i: int, j: int, name: Seq<char>)
    requires
        flagged_at(items, i, j, name),
    ensures
        flagged_items(items).contains(name),
    decreases items.len(),
{
    let prev = items.drop_last();
    let r = flagged_items(items);
    if i == items.len() - 1 {
        let fns = impl_fns(items[i]);
        lemma_flagged_fns_has(fns, j);
        let m = flagged_fns(fns);
        let k = choose|k: int| 0 <= k < m.len() && m[k] == name;
        assert(r[flagged_items(prev).len() + k] == name);
    } else {
        assert(prev[i] == items[i]);
        lemma_flagged_items_has(prev, i, j, name);
        let k = choose|k: int| 0 <= k < flagged_items(prev).len() && flagged_items(prev)[k] == name;
        assert(r[k] == name);
    }
}

/// Every public function of an `impl` block not compiled for tests only, other than a
/// `#[test]` function and the `__constructor` and `__check_auth` entry points, whose body
/// records a storage operation and no event, is reported.
pub proof fn law_silent_storage_writers_are_reported(file: SourceFile, i: int, j: int)
    requires
        0 <= i < file.items@.len(),
        file.items@[i] is Impl,
        !is_cfg_test_spec(file.items@[i]->Impl_attrs@),
        0 <= j < file.items@[i]->fns@.len(),
        ({
            let f = file.items@[i]->fns@[j];
            &&& f.is_public
            &&& !has_attr_spec(f.attrs@, "test"@)
            &&& f.name@ != "__constructor"@
            &&& f.name@ != "__check_auth"@
            &&& scan_stmts(f.body@).0.len() > 0
            &&& scan_stmts(f.body@).1.len() == 0
        }),
    ensures
        shadow_storage_findings(Some(file)).contains(file.items@[i]->fns@[j].name@),
{
    let name = file.items@[i]->fns@[j].name@;
    assert(flagged_at(file.items@, i, j, name));
    lemma_flagged_items_has(file.items@, i, j, name);
}


/// Function `j` of item `i` is named `name`, is a public function of an `impl` block not
/// compiled for tests only, is neither a `#[test]` function nor the `__constructor` or
/// `__check_auth` entry point, and its body records a storage operation and no event.
pub open spec fn silent_storage_writer_at(items: Seq<TopItem>, i: int, j: int, name: Seq<char>) -> bool {
    &&& 0 <= i < items.len()
    &&& items[i] is Impl
    &&& !is_cfg_test_spec(items[i]->Impl_attrs@)
    &&& 0 <= j < impl_fns(items[i]).len()
    &&& impl_fns(items[i])[j].name@ == name
    &&& impl_fns(items[i])[j].is_public
    &&& !has_attr_spec(impl_fns(items[i])[j].attrs@, "test"@)
    &&& name != "__constructor"@
    &&& name != "__check_auth"@
    &&& scan_stmts(impl_fns(items[i])[j].body@).0.len() > 0
    &&& scan_stmts(impl_fns(items[i])[j].body@).1.len() == 0
}

/// A call through a path named `publish` or `emit` is recorded as an event.
pub proof fn law_event_function_calls_are_recorded(e: Expression)
    requires
        e matches Expression::Call { callee: Some(name), .. } && (name@ == "publish"@ || name@
            == "emit"@),
    ensures
        is_infix(seq![e->Call_callee.unwrap()@], scan_expr(e).1),
{
    match e {
        Expression::Call { callee, args } => {
            let own: Findings = (Seq::empty(), seq![callee.unwrap()@]);
            lemma_within_join(own, scan_exprs(args@));
        },
        _ => {},
    }
}

/// Every function the rule reports is a public function of an `impl` block not compiled for
/// tests only; it is not a `#[test]` function nor the `__constructor` or `__check_auth` entry
/// point, and its body records at least one storage operation and no event.
pub proof fn law_reported_functions_write_storage_silently(file: SourceFile, k: int)
    requires
        0 <= k < shadow_storage_findings(Some(file)).len(),
    ensures
        exists|i: int, j: int| #[trigger] silent_storage_writer_at(file.items@, i, j, shadow_storage_findings(Some(file))[k]),
{
    let name = shadow_storage_findings(Some(file))[k];
    law_flagged_functions_mutate_storage_silently(file);
    assert(some_flagged_item_fn(file.items@, name));
    let (i, j) = choose|i: int, j: int| flagged_at(file.items@, i, j, name);
    assert(flagged_at(file.items@, i, j, name));
    assert(silent_storage_writer_at(file.items@, i, j, name));
}

} // verus!
