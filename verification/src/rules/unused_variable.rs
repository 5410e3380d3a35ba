use vstd::prelude::*;

use crate::rules::{all_patches, patch_view, Patch, RuleViolation, Severity};
use crate::syntax::{parse_source, source_model, ScopeEvent, SourceFile};
use crate::text::{chars_of, decimal, decimal_string, str_equal};

verus! {

/// A local in a scope: its name, line, column, and whether it has been used.
pub type LocalVar = (Seq<char>, usize, usize, bool);

/// A local reported as unused: its name, line and column.
pub type Unused = (Seq<char>, usize, usize);

/// The analysis state: the stack of open scopes (innermost last) and the unused locals
/// reported so far.
pub type ScopeState = (Seq<Seq<LocalVar>>, Seq<Unused>);

/// The scope declares a local named `name`.
pub open spec fn declares(scope: Seq<LocalVar>, name: Seq<char>) -> bool {
    exists|k: int| 0 <= k < scope.len() && #[trigger] scope[k].0 == name
}

/// Marks the first local of the scope named `name` as used.
pub open spec fn mark_first(scope: Seq<LocalVar>, name: Seq<char>) -> Seq<LocalVar>
    decreases scope.len(),
{
    if scope.len() == 0 {
        scope
    } else if scope[0].0 == name {
        scope.update(0, (scope[0].0, scope[0].1, scope[0].2, true))
    } else {
        seq![scope[0]] + mark_first(scope.drop_first(), name)
    }
}

/// Marks `name` as used in the innermost scope that declares it.
pub open spec fn mark_innermost(stack: Seq<Seq<LocalVar>>, name: Seq<char>) -> Seq<Seq<LocalVar>>
    decreases stack.len(),
{
    if stack.len() == 0 {
        stack
    } else if declares(stack.last(), name) {
        stack.drop_last().push(mark_first(stack.last(), name))
    } else {
        mark_innermost(stack.drop_last(), name).push(stack.last())
    }
}

/// A local is reported when it was never used, its name does not start with `_`, and it is
/// not `env`.
pub open spec fn reportable(l: LocalVar) -> bool {
    &&& !l.3
    &&& !(l.0.len() > 0 && l.0[0] == '_')
    &&& l.0 != "env"@
}

/// The reportable locals of a scope, in declaration order.
pub open spec fn unused_in(scope: Seq<LocalVar>) -> Seq<Unused>
    decreases scope.len(),
{
    if scope.len() == 0 {
        Seq::empty()
    } else {
        unused_in(scope.drop_last()) + if reportable(scope.last()) {
            seq![(scope.last().0, scope.last().1, scope.last().2)]
        } else {
            Seq::empty()
        }
    }
}

/// The state after one event: a scope opens, closes (reporting its unused locals), gains a
/// local, or has a name marked as used.
pub open spec fn step(state: ScopeState, ev: ScopeEvent) -> ScopeState {
    let (stack, unused) = state;
    match ev {
        ScopeEvent::Enter => (stack.push(Seq::empty()), unused),
        ScopeEvent::Exit => if stack.len() == 0 {
            state
        } else {
            (stack.drop_last(), unused + unused_in(stack.last()))
        },
        ScopeEvent::Declare { name, line, column } => if stack.len() == 0 {
            state
        } else {
            (stack.drop_last().push(stack.last().push((name@, line, column, false))), unused)
        },
        ScopeEvent::Use { name } => (mark_innermost(stack, name@), unused),
    }
}

/// The state after all of `events`, starting from one empty (file-level) scope.
pub open spec fn run_events(events: Seq<ScopeEvent>) -> ScopeState
    decreases events.len(),
{
    if events.len() == 0 {
        (seq![Seq::empty()], Seq::empty())
    } else {
        step(run_events(events.drop_last()), events.last())
    }
}

/// The unused locals of a file, in the order their scopes close (none when it did not parse).
pub open spec fn unused_locals(parsed: Option<SourceFile>) -> Seq<Unused> {
    match parsed {
        Some(file) => run_events(file.scope_events@).1,
        None => Seq::empty(),
    }
}

/// The UTF-8 length of a name, in bytes.
pub open spec fn byte_len(name: Seq<char>) -> nat {
    vstd::utf8::encode_utf8(name).len()
}

/// Every unused local ends, in bytes, at a column that fits in `usize`.
pub open spec fn columns_fit(us: Seq<Unused>) -> bool {
    forall|k: int| 0 <= k < us.len() ==> #[trigger] us[k].2 + byte_len(us[k].0) <= usize::MAX
}

/// The patch that prefixes the unused local `u` with an underscore.
pub open spec fn is_underscore_patch(p: Patch, u: Unused) -> bool {
    &&& p.start_line == u.1
    &&& p.start_column == u.2
    &&& p.end_line == u.1
    &&& p.end_column == u.2 + byte_len(u.0)
    &&& p.replacement@ == "_"@ + u.0
    &&& p.description@ == "Prefix unused variable '"@ + u.0 + "' with underscore"@
}

/// The violation that the rule reports for the unused local `u`.
pub open spec fn is_unused_violation(v: RuleViolation, u: Unused) -> bool {
    &&& v.rule_name@ == "unused_variable"@
    &&& v.severity == Severity::Warning
    &&& v.message@ == "Unused local variable: '"@ + u.0 + "'"@
    &&& v.location@ == decimal(u.1 as nat) + ":"@ + decimal(u.2 as nat)
    &&& v.suggestion matches Some(s) && s@ == "Prefix with underscore: '_"@ + u.0 + "'"@
    &&& v.patches@.len() == 1
    &&& is_underscore_patch(v.patches@[0], u)
}

/// `vs` are the violations the rule reports for the unused locals `us`, in order.
pub open spec fn is_check_result(vs: Seq<RuleViolation>, us: Seq<Unused>) -> bool {
    &&& vs.len() == us.len()
    &&& forall|k: int| 0 <= k < vs.len() ==> is_unused_violation(#[trigger] vs[k], us[k])
}

/// `ps` are the patches the rule offers for the unused locals `us`, in order.
pub open spec fn is_fix_result(ps: Seq<Patch>, us: Seq<Unused>) -> bool {
    &&& ps.len() == us.len()
    &&& forall|k: int| 0 <= k < ps.len() ==> is_underscore_patch(#[trigger] ps[k], us[k])
}

/// A local of an open scope.
struct LocalEntry {
    name: String,
    line: usize,
    column: usize,
    used: bool,
}

impl LocalEntry {
    spec fn view_local(self) -> LocalVar {
        (self.name@, self.line, self.column, self.used)
    }
}

spec fn scope_view(scope: Vec<LocalEntry>) -> Seq<LocalVar> {
    scope@.map_values(|e: LocalEntry| e.view_local())
}

/// Tracks the open scopes of a walk over a file and the unused locals found so far.
pub struct UnusedVariableVisitor {
    locals_stack: Vec<Vec<LocalEntry>>,
    unused_locals: Vec<(String, usize, usize)>,
}

impl UnusedVariableVisitor {
    /// The visitor's state.
    pub closed spec fn state(&self) -> ScopeState {
        (
            self.locals_stack@.map_values(|s: Vec<LocalEntry>| scope_view(s)),
            self.unused_locals@.map_values(|u: (String, usize, usize)| (u.0@, u.1, u.2)),
        )
    }

    /// A visitor with one empty scope and nothing reported.
    pub fn new() -> (v: UnusedVariableVisitor)
        ensures
            v.state() == run_events(Seq::empty()),
    {
        let mut locals_stack: Vec<Vec<LocalEntry>> = Vec::new();
        locals_stack.push(Vec::new());
        let v = UnusedVariableVisitor { locals_stack, unused_locals: Vec::new() };
        assert(scope_view(v.locals_stack@[0]) =~= Seq::<LocalVar>::empty());
        assert(v.state().0 =~= seq![Seq::<LocalVar>::empty()]);
        assert(v.state().1 =~= Seq::<Unused>::empty());
        v
    }

    /// Opens a scope.
    pub fn enter_scope(&mut self)
        ensures
            final(self).state() == step(old(self).state(), ScopeEvent::Enter),
    {
        self.locals_stack.push(Vec::new());
        assert(scope_view(self.locals_stack@.last()) =~= Seq::<LocalVar>::empty());
        assert(self.state().0 =~= old(self).state().0.push(Seq::empty()));
        assert(self.state().1 =~= old(self).state().1);
    }

    /// Closes the innermost scope and reports its unused locals.
    pub fn exit_scope(&mut self)
        ensures
            final(self).state() == step(old(self).state(), ScopeEvent::Exit),
    {
        let ghost old_state = self.state();
        if let Some(scope) = self.locals_stack.pop() {
            assert(self.state().0 =~= old_state.0.drop_last());
            let ghost sv = scope_view(scope);
            assert(sv == old_state.0.last());
            let mut k: usize = 0;
            assert(sv.take(0) =~= Seq::<LocalVar>::empty());
            assert(self.state().1 =~= old_state.1 + unused_in(sv.take(0)));
            while k < scope.len()
                invariant
                    k <= scope.len(),
                    sv == scope_view(scope),
                    self.state().0 == old_state.0.drop_last(),
                    self.state().1 == old_state.1 + unused_in(sv.take(k as int)),
                decreases scope.len() - k,
            {
                assert(sv.take(k + 1).drop_last() =~= sv.take(k as int));
                let e = &scope[k];
                let ghost before = self.state();
                if !e.used && !starts_with_underscore(e.name.as_str()) && !str_equal(
                    e.name.as_str(),
                    "env",
                ) {
                    self.unused_locals.push((e.name.clone(), e.line, e.column));
                    assert(self.state().0 =~= before.0);
                    assert(self.state().1 =~= before.1.push((e.name@, e.line, e.column)));
                }
                assert(old_state.1 + unused_in(sv.take(k + 1)) =~= before.1 + if reportable(
                    sv[k as int],
                ) {
                    seq![(sv[k as int].0, sv[k as int].1, sv[k as int].2)]
                } else {
                    Seq::empty()
                });
                k = k + 1;
            }
            assert(sv.take(scope.len() as int) =~= sv);
        }
    }

    /// Marks `name` as used in the innermost scope that declares it.
    pub fn mark_used(&mut self, name: &str)
        ensures
            final(self).state() == (
                mark_innermost(old(self).state().0, name@),
                old(self).state().1,
            ),
    {
        let ghost old_state = self.state();
        let n = self.locals_stack.len();
        let mut s: usize = n;
        while s > 0
            invariant
                s <= n == self.locals_stack.len(),
                self.state() == old_state,
                forall|t: int| s <= t < n ==> !declares(#[trigger] old_state.0[t], name@),
            ensures
                s <= n == self.locals_stack.len(),
                self.state() == old_state,
                forall|t: int| s <= t < n ==> !declares(#[trigger] old_state.0[t], name@),
                s > 0 ==> declares(old_state.0[s - 1], name@),
            decreases s,
        {
            if scope_declares(&self.locals_stack[s - 1], name) {
                break;
            }
            s = s - 1;
        }
        if s == 0 {
            proof {
                lemma_mark_innermost_none(old_state.0, name@);
            }
            return;
        }
        let idx = s - 1;
        assert(old_state.0[idx as int] == scope_view(self.locals_stack@[idx as int]));
        let mut scope: Vec<LocalEntry> = Vec::new();
        self.locals_stack.set_and_swap(idx, &mut scope);
        let ghost sv = scope_view(scope);
        let mut k: usize = 0;
        while k < scope.len()
            invariant
                sv == scope_view(scope),
                declares(sv, name@),
                k <= scope.len(),
                forall|j: int| 0 <= j < k ==> sv[j].0 != name@,
            ensures
                k <= scope.len(),
                forall|j: int| 0 <= j < k ==> sv[j].0 != name@,
                k < scope.len() ==> sv[k as int].0 == name@,
            decreases scope.len() - k,
        {
            if str_equal(scope[k].name.as_str(), name) {
                break;
            }
            k = k + 1;
        }
        if k == scope.len() {
            assert(false);
        }
        let marked = LocalEntry {
            name: scope[k].name.clone(),
            line: scope[k].line,
            column: scope[k].column,
            used: true,
        };
        scope.set(k, marked);
        proof {
            lemma_mark_first_at(sv, name@, k as int);
            lemma_mark_innermost_at(old_state.0, name@, idx as int);
        }
        assert(scope_view(scope) =~= mark_first(sv, name@));
        self.locals_stack.set(idx, scope);
        assert(self.state().0 =~= mark_innermost(old_state.0, name@));
        assert(self.state().1 =~= old_state.1);
    }

    /// Adds a local to the innermost scope.
    pub fn add_local(&mut self, name: String, line: usize, column: usize)
        ensures
            final(self).state() == step(
                old(self).state(),
                ScopeEvent::Declare { name, line, column },
            ),
    {
        let ghost old_state = self.state();
        let n = self.locals_stack.len();
        if n > 0 {
            let mut scope = self.locals_stack.pop().unwrap();
            let ghost sv = scope_view(scope);
            scope.push(LocalEntry { name, line, column, used: false });
            assert(scope_view(scope) =~= sv.push((name@, line, column, false)));
            self.locals_stack.push(scope);
            assert(self.state().0 =~= old_state.0.drop_last().push(
                old_state.0.last().push((name@, line, column, false)),
            ));
            assert(self.state().1 =~= old_state.1);
        }
    }
}

/// Whether the scope declares a local named `name`.
fn scope_declares(scope: &Vec<LocalEntry>, name: &str) -> (r: bool)
    ensures
        r == declares(scope_view(*scope), name@),
{
    let ghost sv = scope_view(*scope);
    let mut k: usize = 0;
    while k < scope.len()
        invariant
            sv == scope_view(*scope),
            k <= scope.len(),
            forall|j: int| 0 <= j < k ==> sv[j].0 != name@,
        decreases scope.len() - k,
    {
        if str_equal(scope[k].name.as_str(), name) {
            assert(sv[k as int].0 == name@);
            return true;
        }
        k = k + 1;
    }
    false
}

proof fn lemma_mark_first_at(scope: Seq<LocalVar>, name: Seq<char>, k: int)
    requires
        0 <= k < scope.len(),
        scope[k].0 == name,
        forall|j: int| 0 <= j < k ==> scope[j].0 != name,
    ensures
        mark_first(scope, name) == scope.update(k, (scope[k].0, scope[k].1, scope[k].2, true)),
    decreases k,
{
    if k > 0 {
        let rest = scope.drop_first();
        assert forall|j: int| 0 <= j < k - 1 implies rest[j].0 != name by {
            assert(rest[j] == scope[j + 1]);
        }
        lemma_mark_first_at(rest, name, k - 1);
        assert(seq![scope[0]] + rest.update(k - 1, (scope[k].0, scope[k].1, scope[k].2, true))
            =~= scope.update(k, (scope[k].0, scope[k].1, scope[k].2, true)));
    }
}

proof fn lemma_mark_innermost_none(stack: Seq<Seq<LocalVar>>, name: Seq<char>)
    requires
        forall|t: int| 0 <= t < stack.len() ==> !declares(#[trigger] stack[t], name),
    ensures
        mark_innermost(stack, name) == stack,
    decreases stack.len(),
{
    if stack.len() > 0 {
        assert(!declares(stack[stack.len() - 1], name));
        let rest = stack.drop_last();
        assert forall|t: int| 0 <= t < rest.len() implies !declares(#[trigger] rest[t], name) by {
            assert(rest[t] == stack[t]);
        }
        lemma_mark_innermost_none(rest, name);
        assert(rest.push(stack.last()) =~= stack);
    }
}

proof fn lemma_mark_innermost_at(stack: Seq<Seq<LocalVar>>, name: Seq<char>, s: int)
    requires
        0 <= s < stack.len(),
        declares(stack[s], name),
        forall|t: int| s < t < stack.len() ==> !declares(#[trigger] stack[t], name),
    ensures
        mark_innermost(stack, name) == stack.update(s, mark_first(stack[s], name)),
    decreases stack.len(),
{
    if s < stack.len() - 1 {
        assert(!declares(stack[stack.len() - 1], name));
        let rest = stack.drop_last();
        assert(rest[s] == stack[s]);
        assert forall|t: int| s < t < rest.len() implies !declares(#[trigger] rest[t], name) by {
            assert(rest[t] == stack[t]);
        }
        lemma_mark_innermost_at(rest, name, s);
        assert(rest.update(s, mark_first(stack[s], name)).push(stack.last()) =~= stack.update(
            s,
            mark_first(stack[s], name),
        ));
    } else {
        assert(stack.drop_last().push(mark_first(stack.last(), name)) =~= stack.update(
            s,
            mark_first(stack[s], name),
        ));
    }
}

/// Whether `name` starts with an underscore.
fn starts_with_underscore(name: &str) -> (r: bool)
    ensures
        r == (name@.len() > 0 && name@[0] == '_'),
{
    let cs = chars_of(name);
    cs.len() > 0 && cs[0] == '_'
}

impl UnusedVariableVisitor {
    /// Feeds one event of the walk to the visitor.
    pub fn apply(&mut self, ev: &ScopeEvent)
        ensures
            final(self).state() == step(old(self).state(), *ev),
    {
        match ev {
            ScopeEvent::Enter => self.enter_scope(),
            ScopeEvent::Exit => self.exit_scope(),
            ScopeEvent::Declare { name, line, column } => self.add_local(name.clone(), *line, *column),
            ScopeEvent::Use { name } => self.mark_used(name.as_str()),
        }
    }

    /// The unused locals reported so far, in order.
    pub fn into_unused_locals(self) -> (r: Vec<(String, usize, usize)>)
        ensures
            r@.map_values(|u: (String, usize, usize)| (u.0@, u.1, u.2)) == self.state().1,
    {
        self.unused_locals
    }
}

/// Runs a fresh visitor over all of `events`.
fn run_scope_events(events: &Vec<ScopeEvent>) -> (v: UnusedVariableVisitor)
    ensures
        v.state() == run_events(events@),
{
    let mut v = UnusedVariableVisitor::new();
    let mut i: usize = 0;
    assert(events@.take(0) =~= Seq::<ScopeEvent>::empty());
    while i < events.len()
        invariant
            i <= events.len(),
            v.state() == run_events(events@.take(i as int)),
        decreases events.len() - i,
    {
        assert(events@.take(i + 1).drop_last() =~= events@.take(i as int));
        v.apply(&events[i]);
        i = i + 1;
    }
    assert(events@.take(events.len() as int) =~= events@);
    v
}

/// The rule that reports unused local variables and offers to prefix them with `_`.
pub struct UnusedVariableRule;

impl UnusedVariableRule {
    /// Create a new instance.
    pub fn new() -> (r: UnusedVariableRule)
        ensures
            r == UnusedVariableRule,
    {
        UnusedVariableRule
    }

    /// The rule's name.
    pub fn name(&self) -> (r: &'static str)
        ensures
            r@ == "unused_variable"@,
    {
        "unused_variable"
    }

    /// What the rule detects.
    pub fn description(&self) -> (r: &'static str)
        ensures
            r@ == "Detects unused local variables in functions and suggests fixes"@,
    {
        "Detects unused local variables in functions and suggests fixes"
    }

    /// The violation reported for an unused local.
    fn violation_for(&self, name: &String, line: usize, column: usize) -> (v: RuleViolation)
        requires
            column + byte_len(name@) <= usize::MAX,
        ensures
            is_unused_violation(v, (name@, line, column)),
    {
        let mut replacement = String::from_str("_");
        replacement.append(name.as_str());
        let mut description = String::from_str("Prefix unused variable '");
        description.append(name.as_str());
        description.append("' with underscore");
        let patch = Patch {
            start_line: line,
            start_column: column,
            end_line: line,
            end_column: column + name.as_str().len(),
            replacement,
            description,
        };
        let mut message = String::from_str("Unused local variable: '");
        message.append(name.as_str());
        message.append("'");
        let mut location = decimal_string(line);
        location.append(":");
        let col_text = decimal_string(column);
        location.append(col_text.as_str());
        let mut suggestion = String::from_str("Prefix with underscore: '_");
        suggestion.append(name.as_str());
        suggestion.append("'");
        let mut patches: Vec<Patch> = Vec::new();
        patches.push(patch);
        RuleViolation::new(self.name(), Severity::Warning, message, location).with_suggestion(
            suggestion,
        ).with_patches(patches)
    }

    /// Reports each local that is never used before its scope ends, unless its name starts
    /// with `_` or is `env`, in the order its scope closes; nothing for a file that did not
    /// parse. `None` when the column at which a reported name ends does not fit in `usize`.
    pub fn check(&self, source: &str) -> (violations: Option<Vec<RuleViolation>>)
        ensures
            violations is Some <==> columns_fit(unused_locals(source_model(source@))),
            violations matches Some(vs) ==> is_check_result(vs@, unused_locals(source_model(source@))),
    {
        let parsed = parse_source(source);
        if unused_columns_fit(&parsed) {
            Some(self.check_parsed(&parsed))
        } else {
            None
        }
    }

    /// The patches of all violations that `check` reports, in order; `None` where `check`
    /// gives `None`.
    pub fn fix(&self, source: &str) -> (patches: Option<Vec<Patch>>)
        ensures
            patches is Some <==> columns_fit(unused_locals(source_model(source@))),
            patches matches Some(ps) ==> is_fix_result(ps@, unused_locals(source_model(source@))),
    {
        let parsed = parse_source(source);
        if unused_columns_fit(&parsed) {
            Some(self.fix_parsed(&parsed))
        } else {
            None
        }
    }

    /// The violations of a parsed file, as `check` reports them.
    pub fn check_parsed(&self, parsed: &Option<SourceFile>) -> (violations: Vec<RuleViolation>)
        requires
            columns_fit(unused_locals(*parsed)),
        ensures
            is_check_result(violations@, unused_locals(*parsed)),
    {
        let mut violations: Vec<RuleViolation> = Vec::new();
        let unused = unused_list(parsed);
        let ghost uv = unused@.map_values(|u: (String, usize, usize)| (u.0@, u.1, u.2));
        let mut i: usize = 0;
        while i < unused.len()
            invariant
                uv == unused_locals(*parsed),
                uv == unused@.map_values(|u: (String, usize, usize)| (u.0@, u.1, u.2)),
                columns_fit(uv),
                i <= unused.len(),
                violations@.len() == i,
                forall|k: int| 0 <= k < i ==> is_unused_violation(#[trigger] violations@[k], uv[k]),
            decreases unused.len() - i,
        {
            let u = &unused[i];
            assert(uv[i as int] == (u.0@, u.1, u.2));
            assert(uv[i as int].2 + byte_len(uv[i as int].0) <= usize::MAX);
            let v = self.violation_for(&u.0, u.1, u.2);
            violations.push(v);
            i = i + 1;
        }
        violations
    }

    /// The patches of all violations of a parsed file, in order, as `fix` gives them.
    pub fn fix_parsed(&self, parsed: &Option<SourceFile>) -> (patches: Vec<Patch>)
        requires
            columns_fit(unused_locals(*parsed)),
        ensures
            is_fix_result(patches@, unused_locals(*parsed)),
    {
        let mut violations = self.check_parsed(parsed);
        let ghost n = violations@.len();
        let mut patches: Vec<Patch> = Vec::new();
        while violations.len() > 0
            invariant
                patches@.len() + violations@.len() == n,
                n == unused_locals(*parsed).len(),
                forall|k: int| 0 <= k < patches@.len() ==> is_underscore_patch(
                    #[trigger] patches@[k],
                    unused_locals(*parsed)[k],
                ),
                forall|k: int| 0 <= k < violations@.len() ==> is_unused_violation(
                    #[trigger] violations@[k],
                    unused_locals(*parsed)[patches@.len() + k],
                ),
            decreases violations.len(),
        {
            let ghost before = violations@;
            let mut v = violations.remove(0);
            assert(is_unused_violation(before[0], unused_locals(*parsed)[patches@.len() as int]));
            assert forall|k: int| 0 <= k < violations@.len() implies is_unused_violation(
                #[trigger] violations@[k],
                unused_locals(*parsed)[patches@.len() + 1 + k],
            ) by {
                assert(violations@[k] == before[k + 1]);
            }
            let ghost old_patches = patches@;
            patches.append(&mut v.patches);
            assert forall|k: int| 0 <= k < patches@.len() implies is_underscore_patch(
                #[trigger] patches@[k],
                unused_locals(*parsed)[k],
            ) by {
                if k == old_patches.len() {
                    assert(patches@[k] == before[0].patches@[0]);
                } else {
                    assert(patches@[k] == old_patches[k]);
                }
            }
        }
        patches
    }
}

/// The unused locals of a parsed file, in order.
fn unused_list(parsed: &Option<SourceFile>) -> (unused: Vec<(String, usize, usize)>)
    ensures
        unused@.map_values(|u: (String, usize, usize)| (u.0@, u.1, u.2)) == unused_locals(*parsed),
{
    match parsed {
        Some(file) => {
            let visitor = run_scope_events(&file.scope_events);
            visitor.into_unused_locals()
        },
        None => {
            let v: Vec<(String, usize, usize)> = Vec::new();
            assert(v@.map_values(|u: (String, usize, usize)| (u.0@, u.1, u.2)) =~= Seq::<Unused>::empty());
            v
        },
    }
}

/// Whether every unused local of a parsed file ends, in bytes, at a column that fits in
/// `usize`.
fn unused_columns_fit(parsed: &Option<SourceFile>) -> (r: bool)
    ensures
        r == columns_fit(unused_locals(*parsed)),
{
    let unused = unused_list(parsed);
    let ghost uv = unused@.map_values(|u: (String, usize, usize)| (u.0@, u.1, u.2));
    let mut i: usize = 0;
    while i < unused.len()
        invariant
            uv == unused_locals(*parsed),
            uv == unused@.map_values(|u: (String, usize, usize)| (u.0@, u.1, u.2)),
            i <= unused.len(),
            forall|k: int| 0 <= k < i ==> #[trigger] uv[k].2 + byte_len(uv[k].0) <= usize::MAX,
        decreases unused.len() - i,
    {
        let u = &unused[i];
        assert(uv[i as int] == (u.0@, u.1, u.2));
        let bytes = u.0.as_str().as_bytes();
        if u.2.checked_add(bytes.len()).is_none() {
            assert(!(uv[i as int].2 + byte_len(uv[i as int].0) <= usize::MAX));
            return false;
        }
        i = i + 1;
    }
    true
}

impl Default for UnusedVariableRule {
    fn default() -> (r: UnusedVariableRule)
        ensures
            r == UnusedVariableRule,
    {
        Self::new()
    }
}

} // verus!

verus! {

/// A name the rule may report: it does not start with `_` and is not `env`.
pub open spec fn reportable_name(name: Seq<char>) -> bool {
    !(name.len() > 0 && name[0] == '_') && name != "env"@
}

proof fn lemma_unused_in_reportable(scope: Seq<LocalVar>)
    ensures
        forall|k: int|
            0 <= k < unused_in(scope).len() ==> reportable_name(#[trigger] unused_in(scope)[k].0),
    decreases scope.len(),
{
    if scope.len() > 0 {
        lemma_unused_in_reportable(scope.drop_last());
        let prev = unused_in(scope.drop_last());
        assert forall|k: int| 0 <= k < unused_in(scope).len() implies reportable_name(
            #[trigger] unused_in(scope)[k].0,
        ) by {
            if k < prev.len() {
                assert(unused_in(scope)[k] == prev[k]);
            }
        }
    }
}

/// The rule never reports a local whose name starts with `_`, nor one named `env`.
pub proof fn law_reported_names_are_reportable(events: Seq<ScopeEvent>)
    ensures
        forall|k: int|
            0 <= k < run_events(events).1.len() ==> reportable_name(
                #[trigger] run_events(events).1[k].0,
            ),
    decreases events.len(),
{
    if events.len() > 0 {
        let prev = run_events(events.drop_last());
        law_reported_names_are_reportable(events.drop_last());
        assert forall|k: int| 0 <= k < run_events(events).1.len() implies reportable_name(
            #[trigger] run_events(events).1[k].0,
        ) by {
            if k < prev.1.len() {
                match events.last() {
                    ScopeEvent::Exit => {
                        if prev.0.len() > 0 {
                            assert(run_events(events).1[k] == prev.1[k]);
                        }
                    },
                    _ => {},
                }
            } else {
                match events.last() {
                    ScopeEvent::Exit => {
                        lemma_unused_in_reportable(prev.0.last());
                        assert(run_events(events).1[k] == unused_in(prev.0.last())[k - prev.1.len()]);
                    },
                    _ => {},
                }
            }
        }
    }
}


proof fn lemma_single_patches(vs: Seq<RuleViolation>)
    requires
        forall|k: int| 0 <= k < vs.len() ==> (#[trigger] vs[k]).patches@.len() == 1,
    ensures
        all_patches(vs).len() == vs.len(),
        forall|k: int| 0 <= k < vs.len() ==> #[trigger] all_patches(vs)[k] == vs[k].patches@[0],
    decreases vs.len(),
{
    if vs.len() > 0 {
        let prev = vs.drop_last();
        assert forall|k: int| 0 <= k < prev.len() implies (#[trigger] prev[k]).patches@.len() == 1 by {
            assert(prev[k] == vs[k]);
        }
        lemma_single_patches(prev);
        assert(vs.last().patches@.len() == 1);
        assert forall|k: int| 0 <= k < vs.len() implies #[trigger] all_patches(vs)[k]
            == vs[k].patches@[0] by {
            if k < prev.len() {
                assert(prev[k] == vs[k]);
            }
        }
    }
}

/// `fix` gives exactly the patches that the violations of `check` carry, in the same order:
/// the first patch is that of the first violation, and so on, whatever the source.
pub proof fn law_fix_gives_the_patches_of_check(vs: Seq<RuleViolation>, ps: Seq<Patch>, us: Seq<Unused>)
    requires
        is_check_result(vs, us),
        is_fix_result(ps, us),
    ensures
        ps.map_values(|p: Patch| patch_view(p)) == all_patches(vs).map_values(|p: Patch| patch_view(p)),
{
    assert forall|k: int| 0 <= k < vs.len() implies (#[trigger] vs[k]).patches@.len() == 1 by {
        assert(is_unused_violation(vs[k], us[k]));
    }
    lemma_single_patches(vs);
    assert forall|k: int| 0 <= k < ps.len() implies patch_view(#[trigger] ps[k]) == patch_view(
        all_patches(vs)[k],
    ) by {
        assert(is_unused_violation(vs[k], us[k]));
        assert(is_underscore_patch(ps[k], us[k]));
        assert(all_patches(vs)[k] == vs[k].patches@[0]);
    }
    assert(ps.map_values(|p: Patch| patch_view(p)) =~= all_patches(vs).map_values(
        |p: Patch| patch_view(p),
    ));
}


/// The name a local has once the rule's fixes are applied: `_` in front of it where the local
/// (by name, line and column) is among the `reported` ones, the same name otherwise.
pub open spec fn fixed_name(name: Seq<char>, line: usize, column: usize, reported: Seq<Unused>) -> Seq<
    char,
> {
    if reported.contains((name, line, column)) {
        "_"@ + name
    } else {
        name
    }
}

/// `e2` is what the walk meets in place of `e` once each `reported` local is renamed with a
/// leading `_`: the same event, a declaration taking its fixed name, every use unchanged.
pub open spec fn renamed_event(e2: ScopeEvent, e: ScopeEvent, reported: Seq<Unused>) -> bool {
    match (e2, e) {
        (ScopeEvent::Enter, ScopeEvent::Enter) => true,
        (ScopeEvent::Exit, ScopeEvent::Exit) => true,
        (
            ScopeEvent::Declare { name: n2, line: l2, column: c2 },
            ScopeEvent::Declare { name, line, column },
        ) => l2 == line && c2 == column && n2@ == fixed_name(name@, line, column, reported),
        (ScopeEvent::Use { name: n2 }, ScopeEvent::Use { name }) => n2@ == name@,
        _ => false,
    }
}

/// A local of the walk over the fixed source stands for the local `l` of the original walk:
/// same place, fixed name, and used wherever `l` was used under a name that the fixes keep
/// and that the rule could report.
spec fn local_corresponds(l: LocalVar, l2: LocalVar, reported: Seq<Unused>) -> bool {
    &&& l2.1 == l.1
    &&& l2.2 == l.2
    &&& l2.0 == fixed_name(l.0, l.1, l.2, reported)
    &&& (!reported.contains((l.0, l.1, l.2)) && l.3 && reportable_name(l.0)) ==> l2.3
}

/// Two stacks of scopes of the same shape whose locals correspond one for one.
spec fn stacks_correspond(s: Seq<Seq<LocalVar>>, s2: Seq<Seq<LocalVar>>, reported: Seq<Unused>) -> bool {
    &&& s.len() == s2.len()
    &&& forall|a: int| 0 <= a < s.len() ==> #[trigger] s[a].len() == s2[a].len()
    &&& forall|a: int, b: int|
        0 <= a < s.len() && 0 <= b < s[a].len() ==> local_corresponds(
            #[trigger] s[a][b],
            s2[a][b],
            reported,
        )
}

proof fn lemma_underscore_name(name: Seq<char>)
    ensures
        !reportable_name("_"@ + name),
{
    reveal_strlit("_");
    assert(("_"@ + name)[0] == '_');
}

/// Marking a use only ever sets `used` flags; locals keep their names and places.
proof fn lemma_mark_first_grows(scope: Seq<LocalVar>, name: Seq<char>)
    ensures
        mark_first(scope, name).len() == scope.len(),
        forall|b: int|
            0 <= b < scope.len() ==> {
                let m = #[trigger] mark_first(scope, name)[b];
                m.0 == scope[b].0 && m.1 == scope[b].1 && m.2 == scope[b].2 && (scope[b].3 ==> m.3)
            },
    decreases scope.len(),
{
    if scope.len() > 0 && scope[0].0 != name {
        let rest = scope.drop_first();
        lemma_mark_first_grows(rest, name);
        assert forall|b: int| 0 <= b < scope.len() implies {
            let m = #[trigger] mark_first(scope, name)[b];
            m.0 == scope[b].0 && m.1 == scope[b].1 && m.2 == scope[b].2 && (scope[b].3 ==> m.3)
        } by {
            if b > 0 {
                assert(mark_first(scope, name)[b] == mark_first(rest, name)[b - 1]);
                assert(rest[b - 1] == scope[b]);
            }
        }
    }
}

proof fn lemma_mark_innermost_grows(stack: Seq<Seq<LocalVar>>, name: Seq<char>)
    ensures
        mark_innermost(stack, name).len() == stack.len(),
        forall|a: int|
            0 <= a < stack.len() ==> #[trigger] mark_innermost(stack, name)[a].len() == stack[a].len(),
        forall|a: int, b: int|
            0 <= a < stack.len() && 0 <= b < stack[a].len() ==> {
                let m = #[trigger] mark_innermost(stack, name)[a][b];
                m.0 == stack[a][b].0 && m.1 == stack[a][b].1 && m.2 == stack[a][b].2 && (stack[a][b].3
                    ==> m.3)
            },
    decreases stack.len(),
{
    if stack.len() > 0 {
        let rest = stack.drop_last();
        let m = mark_innermost(stack, name);
        if declares(stack.last(), name) {
            lemma_mark_first_grows(stack.last(), name);
            assert forall|a: int, b: int| 0 <= a < stack.len() && 0 <= b < stack[a].len() implies {
                let x = #[trigger] m[a][b];
                x.0 == stack[a][b].0 && x.1 == stack[a][b].1 && x.2 == stack[a][b].2 && (stack[a][b].3
                    ==> x.3)
            } by {
                if a < rest.len() {
                    assert(m[a] == stack[a]);
                }
            }
        } else {
            lemma_mark_innermost_grows(rest, name);
            assert forall|a: int, b: int| 0 <= a < stack.len() && 0 <= b < stack[a].len() implies {
                let x = #[trigger] m[a][b];
                x.0 == stack[a][b].0 && x.1 == stack[a][b].1 && x.2 == stack[a][b].2 && (stack[a][b].3
                    ==> x.3)
            } by {
                if a < rest.len() {
                    assert(m[a] == mark_innermost(rest, name)[a]);
                    assert(rest[a] == stack[a]);
                }
            }
        }
    }
}

/// The first local named `name` in the innermost scope that declares it is marked used.
proof fn lemma_mark_innermost_marks(stack: Seq<Seq<LocalVar>>, name: Seq<char>, s: int, k: int)
    requires
        0 <= s < stack.len(),
        0 <= k < stack[s].len(),
        stack[s][k].0 == name,
        forall|j: int| 0 <= j < k ==> stack[s][j].0 != name,
        forall|t: int| s < t < stack.len() ==> !declares(#[trigger] stack[t], name),
    ensures
        mark_innermost(stack, name)[s][k].3,
{
    assert(declares(stack[s], name));
    lemma_mark_innermost_at(stack, name, s);
    lemma_mark_first_at(stack[s], name, k);
}

proof fn lemma_unused_in_contains(scope: Seq<LocalVar>)
    ensures
        forall|b: int|
            0 <= b < scope.len() && reportable(#[trigger] scope[b]) ==> unused_in(scope).contains(
                (scope[b].0, scope[b].1, scope[b].2),
            ),
    decreases scope.len(),
{
    if scope.len() > 0 {
        let prev = scope.drop_last();
        lemma_unused_in_contains(prev);
        let u = unused_in(scope);
        assert forall|b: int| 0 <= b < scope.len() && reportable(#[trigger] scope[b]) implies u.contains(
            (scope[b].0, scope[b].1, scope[b].2),
        ) by {
            if b < prev.len() {
                assert(prev[b] == scope[b]);
                let i = choose|i: int|
                    0 <= i < unused_in(prev).len() && unused_in(prev)[i] == (
                        scope[b].0,
                        scope[b].1,
                        scope[b].2,
                    );
                assert(u[i] == unused_in(prev)[i]);
            } else {
                assert(u[unused_in(prev).len() as int] == (scope[b].0, scope[b].1, scope[b].2));
            }
        }
    }
}

proof fn lemma_unused_in_none(scope: Seq<LocalVar>)
    requires
        forall|b: int| 0 <= b < scope.len() ==> !reportable(#[trigger] scope[b]),
    ensures
        unused_in(scope).len() == 0,
    decreases scope.len(),
{
    if scope.len() > 0 {
        let prev = scope.drop_last();
        assert forall|b: int| 0 <= b < prev.len() implies !reportable(#[trigger] prev[b]) by {
            assert(prev[b] == scope[b]);
        }
        lemma_unused_in_none(prev);
        assert(!reportable(scope[scope.len() - 1]));
    }
}

/// The walk over the fixed source keeps stacks that correspond to those of the original walk,
/// and reports nothing.
proof fn lemma_fixed_walk(events: Seq<ScopeEvent>, events2: Seq<ScopeEvent>, reported: Seq<Unused>)
    requires
        events2.len() == events.len(),
        forall|k: int| 0 <= k < events.len() ==> renamed_event(#[trigger] events2[k], events[k], reported),
        forall|x: Unused| run_events(events).1.contains(x) ==> reported.contains(x),
    ensures
        stacks_correspond(run_events(events).0, run_events(events2).0, reported),
        run_events(events2).1.len() == 0,
    decreases events.len(),
{
    if events.len() == 0 {
        return;
    }
    let p = events.drop_last();
    let p2 = events2.drop_last();
    let st = run_events(p);
    let st2 = run_events(p2);
    assert forall|k: int| 0 <= k < p.len() implies renamed_event(#[trigger] p2[k], p[k], reported) by {
        assert(p2[k] == events2[k] && p[k] == events[k]);
    }
    assert forall|x: Unused| st.1.contains(x) implies reported.contains(x) by {
        let i = choose|i: int| 0 <= i < st.1.len() && st.1[i] == x;
        match events.last() {
            ScopeEvent::Exit => {
                if st.0.len() > 0 {
                    assert(run_events(events).1[i] == x);
                }
            },
            _ => {
                assert(run_events(events).1[i] == x);
            },
        }
    }
    lemma_fixed_walk(p, p2, reported);
    let s = st.0;
    let s2 = st2.0;
    let e = events.last();
    let e2 = events2.last();
    assert(renamed_event(e2, e, reported));
    let out = run_events(events);
    let out2 = run_events(events2);
    assert(out == step(st, e));
    assert(out2 == step(st2, e2));
    match e {
        ScopeEvent::Enter => {
            assert(stacks_correspond(out.0, out2.0, reported)) by {
                assert forall|a: int| 0 <= a < out.0.len() implies #[trigger] out.0[a].len()
                    == out2.0[a].len() by {
                    if a < s.len() {
                        assert(out.0[a] == s[a] && out2.0[a] == s2[a]);
                    }
                }
                assert forall|a: int, b: int| 0 <= a < out.0.len() && 0 <= b < out.0[a].len() implies local_corresponds(
                    #[trigger] out.0[a][b],
                    out2.0[a][b],
                    reported,
                ) by {
                    assert(a < s.len());
                    assert(out.0[a] == s[a] && out2.0[a] == s2[a]);
                }
            }
        },
        ScopeEvent::Exit => {
            if s.len() > 0 {
                let last = s.len() - 1;
                let scope = s[last];
                let scope2 = s2[last];
                lemma_unused_in_contains(scope);
                assert forall|b: int| 0 <= b < scope2.len() implies !reportable(#[trigger] scope2[b]) by {
                    let l = scope[b];
                    let l2 = scope2[b];
                    assert(local_corresponds(s[last][b], s2[last][b], reported));
                    if reported.contains((l.0, l.1, l.2)) {
                        lemma_underscore_name(l.0);
                    } else {
                        if reportable(l) {
                            assert(unused_in(scope).contains((l.0, l.1, l.2)));
                            let i = choose|i: int|
                                0 <= i < unused_in(scope).len() && unused_in(scope)[i] == (l.0, l.1, l.2);
                            assert(out.1[st.1.len() + i] == (l.0, l.1, l.2));
                            assert(out.1.contains((l.0, l.1, l.2)));
                        }
                    }
                }
                lemma_unused_in_none(scope2);
                assert(out2.1 =~= st2.1 + unused_in(scope2));
                assert(stacks_correspond(out.0, out2.0, reported)) by {
                    assert forall|a: int| 0 <= a < out.0.len() implies #[trigger] out.0[a].len()
                        == out2.0[a].len() by {
                        assert(out.0[a] == s[a] && out2.0[a] == s2[a]);
                    }
                    assert forall|a: int, b: int|
                        0 <= a < out.0.len() && 0 <= b < out.0[a].len() implies local_corresponds(
                        #[trigger] out.0[a][b],
                        out2.0[a][b],
                        reported,
                    ) by {
                        assert(out.0[a] == s[a] && out2.0[a] == s2[a]);
                    }
                }
            }
        },
        ScopeEvent::Declare { name, line, column } => {
            if s.len() > 0 {
                let last = s.len() - 1;
                assert(stacks_correspond(out.0, out2.0, reported)) by {
                    assert forall|a: int| 0 <= a < out.0.len() implies #[trigger] out.0[a].len()
                        == out2.0[a].len() by {
                        if a < last {
                            assert(out.0[a] == s[a] && out2.0[a] == s2[a]);
                        }
                    }
                    assert forall|a: int, b: int|
                        0 <= a < out.0.len() && 0 <= b < out.0[a].len() implies local_corresponds(
                        #[trigger] out.0[a][b],
                        out2.0[a][b],
                        reported,
                    ) by {
                        if a < last {
                            assert(out.0[a] == s[a] && out2.0[a] == s2[a]);
                        } else if b < s[last].len() {
                            assert(out.0[a][b] == s[a][b] && out2.0[a][b] == s2[a][b]);
                        }
                    }
                }
            }
        },
        ScopeEvent::Use { name } => {
            let n = name@;
            lemma_mark_innermost_grows(s, n);
            lemma_mark_innermost_grows(s2, n);
            assert(stacks_correspond(out.0, out2.0, reported)) by {
                assert forall|a: int, b: int|
                    0 <= a < out.0.len() && 0 <= b < out.0[a].len() implies local_corresponds(
                    #[trigger] out.0[a][b],
                    out2.0[a][b],
                    reported,
                ) by {
                    let l = s[a][b];
                    assert(local_corresponds(s[a][b], s2[a][b], reported));
                    let m = out.0[a][b];
                    if !reported.contains((l.0, l.1, l.2)) && m.3 && reportable_name(l.0) && !l.3 {
                        // The use marked this very local: it is the first named `n` in the
                        // innermost scope that declares `n`, and so it is in the fixed walk.
                        assert(out.0 == mark_innermost(s, n));
                        lemma_marked_is_innermost_first(s, n, a, b);
                        assert forall|t: int| a < t < s2.len() implies !declares(#[trigger] s2[t], n) by {
                            if declares(s2[t], n) {
                                let j = choose|j: int| 0 <= j < s2[t].len() && #[trigger] s2[t][j].0 == n;
                                assert(local_corresponds(s[t][j], s2[t][j], reported));
                                if reported.contains((s[t][j].0, s[t][j].1, s[t][j].2)) {
                                    lemma_underscore_name(s[t][j].0);
                                } else {
                                    assert(declares(s[t], n));
                                }
                            }
                        }
                        assert forall|j: int| 0 <= j < b implies s2[a][j].0 != n by {
                            assert(local_corresponds(s[a][j], s2[a][j], reported));
                            if reported.contains((s[a][j].0, s[a][j].1, s[a][j].2)) {
                                lemma_underscore_name(s[a][j].0);
                            }
                        }
                        lemma_mark_innermost_marks(s2, n, a, b);
                    }
                }
            }
        },
    }
}

/// A local that a use newly marks is the first of its name in the innermost scope that
/// declares that name.
proof fn lemma_marked_is_innermost_first(stack: Seq<Seq<LocalVar>>, name: Seq<char>, a: int, b: int)
    requires
        0 <= a < stack.len(),
        0 <= b < stack[a].len(),
        !stack[a][b].3,
        mark_innermost(stack, name)[a][b].3,
    ensures
        stack[a][b].0 == name,
        forall|j: int| 0 <= j < b ==> stack[a][j].0 != name,
        forall|t: int| a < t < stack.len() ==> !declares(#[trigger] stack[t], name),
    decreases stack.len(),
{
    let rest = stack.drop_last();
    let last = stack.len() - 1;
    lemma_mark_innermost_grows(rest, name);
    if declares(stack.last(), name) {
        if a < last {
            assert(mark_innermost(stack, name)[a] == stack[a]);
        } else {
            lemma_mark_first_marked(stack.last(), name, b);
        }
    } else {
        if a == last {
            assert(mark_innermost(stack, name)[a] == stack[a]);
        } else {
            assert(mark_innermost(stack, name)[a] == mark_innermost(rest, name)[a]);
            assert(rest[a] == stack[a]);
            lemma_marked_is_innermost_first(rest, name, a, b);
            assert forall|t: int| a < t < stack.len() implies !declares(#[trigger] stack[t], name) by {
                if t < last {
                    assert(rest[t] == stack[t]);
                    assert(!declares(rest[t], name));
                }
            }
        }
    }
}

/// A local that `mark_first` newly marks is the first of the scope with that name.
proof fn lemma_mark_first_marked(scope: Seq<LocalVar>, name: Seq<char>, b: int)
    requires
        0 <= b < scope.len(),
        !scope[b].3,
        mark_first(scope, name)[b].3,
    ensures
        scope[b].0 == name,
        forall|j: int| 0 <= j < b ==> scope[j].0 != name,
    decreases scope.len(),
{
    if scope[0].0 != name {
        let rest = scope.drop_first();
        lemma_mark_first_grows(rest, name);
        if b == 0 {
            assert(mark_first(scope, name)[0] == scope[0]);
        } else {
            assert(mark_first(scope, name)[b] == mark_first(rest, name)[b - 1]);
            assert(rest[b - 1] == scope[b]);
            lemma_mark_first_marked(rest, name, b - 1);
            assert forall|j: int| 0 <= j < b implies scope[j].0 != name by {
                if j > 0 {
                    assert(rest[j - 1] == scope[j]);
                }
            }
        }
    } else if b > 0 {
        assert(mark_first(scope, name)[b] == scope[b]);
    }
}

/// Applying the rule's fixes leaves nothing to report: in the walk over the source with every
/// reported local renamed with a leading `_` (declarations renamed, everything else as it
/// was), the rule finds no unused local.
pub proof fn law_fixed_walk_reports_nothing(events: Seq<ScopeEvent>, events2: Seq<ScopeEvent>)
    requires
        events2.len() == events.len(),
        forall|k: int|
            0 <= k < events.len() ==> renamed_event(#[trigger] events2[k], events[k], run_events(events).1),
    ensures
        run_events(events2).1 == Seq::<Unused>::empty(),
{
    lemma_fixed_walk(events, events2, run_events(events).1);
    assert(run_events(events2).1 =~= Seq::<Unused>::empty());
}


/// Every local that is declared in a scope and never used before the scope closes is reported
/// when the scope closes, whatever the walk met before, unless its name starts with `_` or is
/// `env`: a name with an underscore elsewhere, such as `total_supply`, is reported too.
pub proof fn law_unused_declaration_is_reported(
    before: Seq<ScopeEvent>,
    name: String,
    line: usize,
    column: usize,
)
    ensures
        run_events(
            before + seq![
                ScopeEvent::Enter,
                ScopeEvent::Declare { name: name, line: line, column: column },
                ScopeEvent::Exit,
            ],
        ).1 == run_events(before).1 + if !(name@.len() > 0 && name@[0] == '_') && name@
            != "env"@ {
            seq![(name@, line, column)]
        } else {
            Seq::<Unused>::empty()
        },
{
    let decl = ScopeEvent::Declare { name: name, line: line, column: column };
    let e1 = before.push(ScopeEvent::Enter);
    let e2 = e1.push(decl);
    let e3 = e2.push(ScopeEvent::Exit);
    assert(before + seq![ScopeEvent::Enter, decl, ScopeEvent::Exit] =~= e3);
    assert(e3.drop_last() =~= e2);
    assert(e2.drop_last() =~= e1);
    assert(e1.drop_last() =~= before);
    let s0 = run_events(before);
    let s1 = run_events(e1);
    let s2 = run_events(e2);
    assert(s1 == step(s0, ScopeEvent::Enter));
    assert(s2 == step(s1, decl));
    assert(s2.0.last() =~= seq![(name@, line, column, false)]);
    let scope = s2.0.last();
    assert(scope.drop_last() =~= Seq::<LocalVar>::empty());
    assert(unused_in(scope.drop_last()) =~= Seq::<Unused>::empty());
    assert(run_events(e3) == step(s2, ScopeEvent::Exit));
}


/// A local used after its declaration, in its own scope or in a scope nested in it, is not
/// reported: closing the scopes adds nothing to the report.
pub proof fn law_used_declaration_is_not_reported(
    before: Seq<ScopeEvent>,
    name: String,
    line: usize,
    column: usize,
    use_name: String,
    nested: bool,
)
    requires
        use_name@ == name@,
    ensures
        run_events(
            before + seq![ScopeEvent::Enter, ScopeEvent::Declare { name: name, line: line, column: column }]
                + if nested {
                seq![ScopeEvent::Enter, ScopeEvent::Use { name: use_name }, ScopeEvent::Exit]
            } else {
                seq![ScopeEvent::Use { name: use_name }]
            } + seq![ScopeEvent::Exit],
        ).1 == run_events(before).1,
{
    let decl = ScopeEvent::Declare { name: name, line: line, column: column };
    let u = ScopeEvent::Use { name: use_name };
    let e1 = before.push(ScopeEvent::Enter);
    let e2 = e1.push(decl);
    assert(e1.drop_last() =~= before);
    assert(e2.drop_last() =~= e1);
    let s0 = run_events(before);
    let s2 = run_events(e2);
    let s1 = run_events(e1);
    assert(s1 == step(s0, ScopeEvent::Enter));
    assert(s2 == step(s1, decl));
    let local = (name@, line, column, false);
    assert(s2.0.last() =~= seq![local]);
    assert(s2.0.len() == s0.0.len() + 1);
    assert(s2.1 == s0.1);
    let marked_scope = seq![(name@, line, column, true)];
    assert(declares(seq![local], name@)) by {
        assert(seq![local][0].0 == name@);
    }
    lemma_mark_first_at(seq![local], name@, 0);
    assert(seq![local].update(0, (name@, line, column, true)) =~= marked_scope);
    assert(unused_in(marked_scope.drop_last()) =~= Seq::<Unused>::empty());
    assert(unused_in(marked_scope) =~= Seq::<Unused>::empty());
    if nested {
        let e3 = e2.push(ScopeEvent::Enter);
        let e4 = e3.push(u);
        let e5 = e4.push(ScopeEvent::Exit);
        let e6 = e5.push(ScopeEvent::Exit);
        assert(before + seq![ScopeEvent::Enter, decl] + seq![ScopeEvent::Enter, u, ScopeEvent::Exit]
            + seq![ScopeEvent::Exit] =~= e6);
        assert(e3.drop_last() =~= e2);
        assert(e4.drop_last() =~= e3);
        assert(e5.drop_last() =~= e4);
        assert(e6.drop_last() =~= e5);
        let s3 = run_events(e3);
        assert(s3 == step(s2, ScopeEvent::Enter));
        let stack3 = s3.0;
        assert(!declares(stack3.last(), name@));
        assert(stack3.drop_last() =~= s2.0);
        assert(run_events(e4) == step(s3, u));
        assert(mark_innermost(stack3, name@) == mark_innermost(s2.0, name@).push(stack3.last()));
        lemma_mark_innermost_at(s2.0, name@, s2.0.len() - 1);
        let s4 = run_events(e4);
        assert(s4.0 =~= s2.0.update(s2.0.len() - 1, marked_scope).push(Seq::empty()));
        assert(run_events(e5) == step(s4, ScopeEvent::Exit));
        let s5 = run_events(e5);
        assert(unused_in(s4.0.last()) =~= Seq::<Unused>::empty());
        assert(s5.1 =~= s0.1);
        assert(s5.0 =~= s2.0.update(s2.0.len() - 1, marked_scope));
        assert(run_events(e6) == step(s5, ScopeEvent::Exit));
        assert(run_events(e6).1 =~= s0.1);
    } else {
        let e3 = e2.push(u);
        let e4 = e3.push(ScopeEvent::Exit);
        assert(before + seq![ScopeEvent::Enter, decl] + seq![u] + seq![ScopeEvent::Exit] =~= e4);
        assert(e3.drop_last() =~= e2);
        assert(e4.drop_last() =~= e3);
        assert(run_events(e3) == step(s2, u));
        lemma_mark_innermost_at(s2.0, name@, s2.0.len() - 1);
        let s3 = run_events(e3);
        assert(s3.0 =~= s2.0.update(s2.0.len() - 1, marked_scope));
        assert(run_events(e4) == step(s3, ScopeEvent::Exit));
        assert(run_events(e4).1 =~= s0.1);
    }
}

} // verus!
