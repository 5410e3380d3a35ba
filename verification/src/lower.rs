use vstd::prelude::*;

use quote::ToTokens;
use syn::visit::Visit;

use crate::syntax::{Attr, CallEvent, Expression, ImplFn, TopItem, ScopeEvent, SourceFile, Statement};

verus! {

#[verifier::external_type_specification]
#[verifier::external_body]
pub struct ExSynFile(syn::File);

#[verifier::external_type_specification]
#[verifier::external_body]
pub struct ExSynItem(syn::Item);

#[verifier::external_type_specification]
#[verifier::external_body]
pub struct ExSynAttribute(syn::Attribute);

#[verifier::external_type_specification]
#[verifier::external_body]
pub struct ExSynStmt(syn::Stmt);

#[verifier::external_type_specification]
#[verifier::external_body]
pub struct ExSynExpr(syn::Expr);

#[verifier::external_type_specification]
#[verifier::external_body]
pub struct ExSynBlock(syn::Block);

#[verifier::external_type_specification]
#[verifier::external_body]
pub struct ExSynItemFn(syn::ItemFn);

#[verifier::external_type_specification]
#[verifier::external_body]
pub struct ExSynImplItemFn(syn::ImplItemFn);

#[verifier::external_type_specification]
#[verifier::external_body]
pub struct ExSynImplItem(syn::ImplItem);

#[verifier::external_type_specification]
#[verifier::external_body]
pub struct ExSynLocal(syn::Local);

#[verifier::external_type_specification]
#[verifier::external_body]
pub struct ExSynExprPath(syn::ExprPath);

#[verifier::external_type_specification]
#[verifier::external_body]
pub struct ExSynExprMethodCall(syn::ExprMethodCall);

/// `syn::parse_str::<syn::File>`: parses `source` as a Rust file.
#[verifier::external_body]
pub(crate) fn parse_file(source: &str) -> Option<syn::File> {
    syn::parse_str::<syn::File>(source).ok()
}

/// The model of a `syn` attribute: its path, whether it is a bare path, and its tokens.
#[verifier::external_body]
pub(crate) fn lower_attrs(attrs: &Vec<syn::Attribute>) -> Vec<Attr> {
    attrs.iter().map(|a| Attr {
        path: a.path().segments.iter().map(|s| s.ident.to_string()).collect(),
        leading_colon: a.path().leading_colon.is_some(),
        is_bare_path: matches!(a.meta, syn::Meta::Path(_)),
        tokens: a.to_token_stream().to_string(),
    }).collect()
}

/// The model of each `syn` statement: an expression, a `let` initializer, or other.
#[verifier::external_body]
pub(crate) fn lower_stmts(stmts: &Vec<syn::Stmt>) -> Vec<Statement> {
    stmts.iter().map(|s| match s {
        syn::Stmt::Expr(e, _) => Statement::Expression(lower_expr(e)),
        syn::Stmt::Local(l) => Statement::Let(l.init.as_ref().map(|i| lower_expr(&i.expr))),
        _ => Statement::Other,
    }).collect()
}

/// The model of a boxed sub-expression.
#[verifier::external_body]
pub(crate) fn boxed(e: &syn::Expr) -> Box<Expression> {
    Box::new(lower_expr(e))
}

/// The models of a list of sub-expressions, in order.
#[verifier::external_body]
pub(crate) fn lower_all(es: Vec<&syn::Expr>) -> Vec<Expression> {
    es.into_iter().map(lower_expr).collect()
}

/// The model of a `syn` expression: one variant of the model for each variant of `syn::Expr`
/// that the storage and event analysis reads, with the parts it reads; `Other` for the rest.
/// Method calls, calls and blocks are read here, the other variants by `lower_branching`.
#[verifier::external_body]
pub(crate) fn lower_expr(e: &syn::Expr) -> Expression {
    match e {
        syn::Expr::MethodCall(m) => lower_method_call(m),
        syn::Expr::Call(c) => Expression::Call {
            callee: callee_name(&c.func),
            args: lower_all(c.args.iter().collect()),
        },
        syn::Expr::Block(b) => Expression::Block(lower_stmts(&b.block.stmts)),
        _ => lower_branching(e),
    }
}

/// The model of a method call: its method, its token text followed by `. receiver`, its
/// receiver and its arguments.
#[verifier::external_body]
pub(crate) fn lower_method_call(m: &syn::ExprMethodCall) -> Expression {
    Expression::MethodCall {
        method: m.method.to_string(),
        quoted: format!("{} . receiver", m.to_token_stream()),
        receiver: boxed(&m.receiver),
        args: lower_all(m.args.iter().collect()),
    }
}

/// The last identifier of a callee that is a path.
#[verifier::external_body]
pub(crate) fn callee_name(func: &syn::Expr) -> Option<String> {
    match func {
        syn::Expr::Path(p) => p.path.segments.last().map(|s| s.ident.to_string()),
        _ => None,
    }
}

/// The model of a conditional or a `match`; the other variants by `lower_loop`.
#[verifier::external_body]
pub(crate) fn lower_branching(e: &syn::Expr) -> Expression {
    match e {
        syn::Expr::If(i) => Expression::If {
            cond: boxed(&i.cond),
            then_branch: lower_stmts(&i.then_branch.stmts),
            else_branch: i.else_branch.as_ref().map(|(_, x)| boxed(x)),
        },
        syn::Expr::Match(m) => Expression::Match {
            scrutinee: boxed(&m.expr),
            arms: lower_all(m.arms.iter().map(|a| &*a.body).collect()),
        },
        _ => lower_loop(e),
    }
}

/// The model of a loop; the other variants by `lower_compound`.
#[verifier::external_body]
pub(crate) fn lower_loop(e: &syn::Expr) -> Expression {
    match e {
        syn::Expr::Loop(l) => Expression::Loop(lower_stmts(&l.body.stmts)),
        syn::Expr::ForLoop(f) => Expression::ForLoop {
            iterable: boxed(&f.expr),
            body: lower_stmts(&f.body.stmts),
        },
        syn::Expr::While(w) => Expression::While { cond: boxed(&w.cond), body: lower_stmts(&w.body.stmts) },
        _ => lower_compound(e),
    }
}

/// The model of an expression with two operands; the other variants by `lower_wrapped`.
#[verifier::external_body]
pub(crate) fn lower_compound(e: &syn::Expr) -> Expression {
    match e {
        syn::Expr::Assign(a) => Expression::Assign { left: boxed(&a.left), right: boxed(&a.right) },
        syn::Expr::Binary(b) => Expression::Binary { left: boxed(&b.left), right: boxed(&b.right) },
        syn::Expr::Index(i) => Expression::Index { base: boxed(&i.expr), index: boxed(&i.index) },
        _ => lower_wrapped(e),
    }
}

/// The model of an expression around one sub-expression; the other variants by
/// `lower_enclosing`.
#[verifier::external_body]
pub(crate) fn lower_wrapped(e: &syn::Expr) -> Expression {
    match e {
        syn::Expr::Unary(u) => Expression::Unary(boxed(&u.expr)),
        syn::Expr::Try(t) => Expression::Try(boxed(&t.expr)),
        syn::Expr::Await(a) => Expression::Await(boxed(&a.base)),
        syn::Expr::Closure(c) => Expression::Closure(boxed(&c.body)),
        syn::Expr::Field(f) => Expression::Field(boxed(&f.base)),
        syn::Expr::Return(r) => Expression::Return(r.expr.as_ref().map(|x| boxed(x))),
        _ => lower_enclosing(e),
    }
}

/// The model of a reference, a parenthesized, grouped or cast expression; the other variants
/// by `lower_listed`.
#[verifier::external_body]
pub(crate) fn lower_enclosing(e: &syn::Expr) -> Expression {
    match e {
        syn::Expr::Reference(r) => Expression::Reference(boxed(&r.expr)),
        syn::Expr::Paren(p) => Expression::Paren(boxed(&p.expr)),
        syn::Expr::Group(g) => Expression::Group(boxed(&g.expr)),
        syn::Expr::Cast(c) => Expression::Cast(boxed(&c.expr)),
        _ => lower_listed(e),
    }
}

/// The model of a tuple, an array or a struct literal; `Other` for every remaining variant.
#[verifier::external_body]
pub(crate) fn lower_listed(e: &syn::Expr) -> Expression {
    match e {
        syn::Expr::Tuple(t) => Expression::Tuple(lower_all(t.elems.iter().collect())),
        syn::Expr::Array(a) => Expression::Array(lower_all(a.elems.iter().collect())),
        syn::Expr::Struct(s) => Expression::Struct(lower_all(s.fields.iter().map(|f| &f.expr).collect())),
        _ => Expression::Other,
    }
}

/// The model of a top-level `syn` item: an `impl` block with its functions, a struct, an
/// enum, or other.
#[verifier::external_body]
pub(crate) fn lower_item(item: &syn::Item) -> TopItem {
    match item {
        syn::Item::Impl(i) => TopItem::Impl { attrs: lower_attrs(&i.attrs), fns: lower_impl_fns(&i.items) },
        syn::Item::Struct(s) => TopItem::Struct { attrs: lower_attrs(&s.attrs), name: s.ident.to_string() },
        syn::Item::Enum(e) => TopItem::Enum { attrs: lower_attrs(&e.attrs), name: e.ident.to_string() },
        _ => TopItem::Other,
    }
}

/// The models of the functions among the items of an `impl` block, in order.
#[verifier::external_body]
pub(crate) fn lower_impl_fns(items: &Vec<syn::ImplItem>) -> Vec<ImplFn> {
    items.iter().filter_map(|it| match it {
        syn::ImplItem::Fn(f) => Some(lower_impl_fn(f)),
        _ => None,
    }).collect()
}

/// The model of a function of an `impl` block: its attributes, whether it is `pub`, its name
/// and its body.
#[verifier::external_body]
pub(crate) fn lower_impl_fn(f: &syn::ImplItemFn) -> ImplFn {
    ImplFn {
        attrs: lower_attrs(&f.attrs),
        is_public: matches!(f.vis, syn::Visibility::Public(_)),
        name: f.sig.ident.to_string(),
        body: lower_stmts(&f.block.stmts),
    }
}

/// Records the scopes, `let` bindings and single-identifier paths of `syn`'s walk over a
/// file.
pub(crate) struct ScopeWalk {
    pub(crate) events: Vec<ScopeEvent>,
}

impl<'ast> Visit<'ast> for ScopeWalk {
    #[verifier::external_body]
    fn visit_item_fn(&mut self, node: &'ast syn::ItemFn) {
        self.events.push(ScopeEvent::Enter);
        syn::visit::visit_item_fn(self, node);
        self.events.push(ScopeEvent::Exit);
    }

    #[verifier::external_body]
    fn visit_impl_item_fn(&mut self, node: &'ast syn::ImplItemFn) {
        self.events.push(ScopeEvent::Enter);
        syn::visit::visit_impl_item_fn(self, node);
        self.events.push(ScopeEvent::Exit);
    }

    #[verifier::external_body]
    fn visit_block(&mut self, node: &'ast syn::Block) {
        self.events.push(ScopeEvent::Enter);
        syn::visit::visit_block(self, node);
        self.events.push(ScopeEvent::Exit);
    }

    #[verifier::external_body]
    fn visit_local(&mut self, node: &'ast syn::Local) {
        if let syn::Pat::Ident(p) = &node.pat {
            let start = p.ident.span().start();
            self.events.push(ScopeEvent::Declare { name: p.ident.to_string(), line: start.line, column: start.column });
        }
        syn::visit::visit_local(self, node);
    }

    #[verifier::external_body]
    fn visit_expr_path(&mut self, node: &'ast syn::ExprPath) {
        if let Some(ident) = node.path.get_ident() {
            self.events.push(ScopeEvent::Use { name: ident.to_string() });
        }
        syn::visit::visit_expr_path(self, node);
    }
}

/// Records the functions and method calls of `syn`'s walk over a file.
pub(crate) struct CallWalk {
    pub(crate) events: Vec<CallEvent>,
}

impl<'ast> Visit<'ast> for CallWalk {
    #[verifier::external_body]
    fn visit_item_fn(&mut self, node: &'ast syn::ItemFn) {
        self.events.push(CallEvent::Function { name: node.sig.ident.to_string() });
        syn::visit::visit_item_fn(self, node);
    }

    #[verifier::external_body]
    fn visit_impl_item_fn(&mut self, node: &'ast syn::ImplItemFn) {
        self.events.push(CallEvent::Function { name: node.sig.ident.to_string() });
        syn::visit::visit_impl_item_fn(self, node);
    }

    #[verifier::external_body]
    fn visit_expr_method_call(&mut self, node: &'ast syn::ExprMethodCall) {
        self.events.push(CallEvent::MethodCall { method: node.method.to_string(), text: node.to_token_stream().to_string() });
        syn::visit::visit_expr_method_call(self, node);
    }
}

} // verus!
