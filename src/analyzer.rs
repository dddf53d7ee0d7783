use vstd::prelude::*;
use crate::location::Location;
use crate::symbol_table::{
    Symbol, SymbolKind, SymbolTable, SymbolView, copy_scope, declared_in, first_match, names_unique,
    scope_view, search_scopes, string_views,
};
use crate::syntax::{
    Declaration, ExprElement, Expression, Expression1, Factor, Range, Token, Type, Veryl,
    expression1_tokens, expression_tokens, factor_tokens, item_tokens, items_tokens, prefix_tokens, range_tokens, ranges_tokens, tails_tokens,
};

verus! {

/// The kinds of diagnostic the analyzer reports.
#[derive(Clone, Copy, Debug, PartialEq, Eq, Structural)]
pub enum ErrorKind {
    DuplicateDeclaration,
    UnresolvedReference,
    UnusedVariable,
}

/// A diagnostic: its kind, the name it is about, and where that name stands.
pub struct AnalyzerError {
    pub kind: ErrorKind,
    pub name: String,
    pub location: Location,
}

pub struct ErrorView {
    pub kind: ErrorKind,
    pub name: Seq<char>,
    pub location: Location,
}

impl View for AnalyzerError {
    type V = ErrorView;

    open spec fn view(&self) -> ErrorView {
        ErrorView { kind: self.kind, name: self.name@, location: self.location }
    }
}

pub open spec fn error_views(v: Seq<AnalyzerError>) -> Seq<ErrorView> {
    v.map_values(|e: AnalyzerError| e@)
}

pub open spec fn error_at(kind: ErrorKind, t: Token) -> ErrorView {
    ErrorView { kind, name: t.text@, location: t.location }
}

/// The namespace of the declarations that follow `ds`: the last module or interface
/// header among them, or the top level if there is none.
pub open spec fn scope_after(ds: Seq<Declaration>) -> Option<Seq<char>>
    decreases ds.len(),
{
    if ds.len() == 0 {
        None
    } else {
        match ds.last() {
            Declaration::Module { name } => Some(name.text@),
            Declaration::Interface { name } => Some(name.text@),
            _ => scope_after(ds.drop_last()),
        }
    }
}

pub open spec fn new_symbol(
    kind: SymbolKind,
    name: Token,
    file: Seq<char>,
    scope: Option<Seq<char>>,
    allow_unused: bool,
) -> SymbolView {
    SymbolView {
        kind,
        name: name.text@,
        location: name.location,
        file,
        namespace: scope,
        references: Seq::empty(),
        allow_unused,
    }
}

/// The symbol that `d`, standing in `scope` of `file`, declares, if any.
pub open spec fn declared(d: Declaration, file: Seq<char>, scope: Option<Seq<char>>) -> Option<SymbolView> {
    match d {
        Declaration::Module { name } => Some(new_symbol(SymbolKind::Module, name, file, None, false)),
        Declaration::Interface { name } => Some(new_symbol(SymbolKind::Interface, name, file, None, false)),
        Declaration::Variable { name, allow_unused, .. } => Some(
            new_symbol(SymbolKind::Variable, name, file, scope, allow_unused),
        ),
        Declaration::Parameter { name, .. } | Declaration::Localparam { name, .. }
        | Declaration::WithParameter { name, .. } => Some(
            new_symbol(SymbolKind::Parameter, name, file, scope, false),
        ),
        Declaration::Port { name, .. } => Some(new_symbol(SymbolKind::Port, name, file, scope, false)),
        Declaration::Assignment { .. } | Declaration::Statement { .. } => None,
    }
}

/// The symbols and diagnostics after the declaring pass over `ds` of `file`, starting from
/// the symbols `t`: each declaration is registered, or reported as a duplicate.
pub open spec fn pass1_result(t: Seq<SymbolView>, file: Seq<char>, ds: Seq<Declaration>) -> (Seq<SymbolView>, Seq<ErrorView>)
    decreases ds.len(),
{
    if ds.len() == 0 {
        (t, Seq::empty())
    } else {
        let (t0, e0) = pass1_result(t, file, ds.drop_last());
        match declared(ds.last(), file, scope_after(ds.drop_last())) {
            None => (t0, e0),
            Some(s) => match declared_in(t0, s.name, s.namespace) {
                Some(_) => (t0, e0.push(ErrorView { kind: ErrorKind::DuplicateDeclaration, name: s.name, location: s.location })),
                None => (t0.push(s), e0),
            },
        }
    }
}

/// The names used in `e`, in order.
pub open spec fn expr_uses(e: Seq<ExprElement>) -> Seq<Token>
    decreases e.len(),
{
    if e.len() == 0 {
        Seq::empty()
    } else {
        match e.last() {
            ExprElement::Reference(t) => expr_uses(e.drop_last()).push(t),
            _ => expr_uses(e.drop_last()),
        }
    }
}

/// The names used in the width annotations of `ty`, in order.
pub open spec fn widths_uses(ws: Seq<crate::syntax::Width>) -> Seq<Token>
    decreases ws.len(),
{
    if ws.len() == 0 {
        Seq::empty()
    } else {
        widths_uses(ws.drop_last()) + expr_uses(expression_tokens(ws.last().expression))
    }
}

/// The names that `d` uses, in order.
pub open spec fn declaration_uses(d: Declaration) -> Seq<Token> {
    match d {
        Declaration::Variable { ty, .. } | Declaration::Port { ty, .. } => widths_uses(ty.widths@),
        Declaration::Parameter { ty, value, .. } | Declaration::Localparam { ty, value, .. }
        | Declaration::WithParameter { ty, value, .. } => widths_uses(ty.widths@) + expr_uses(expression_tokens(value)),
        Declaration::Assignment { target, value } => seq![target] + expr_uses(expression_tokens(value)),
        Declaration::Statement { assigned, value } => match assigned {
            Some(t) => seq![t] + expr_uses(expression_tokens(value)),
            None => expr_uses(expression_tokens(value)),
        },
        _ => Seq::empty(),
    }
}

/// The symbols and diagnostics after resolving the uses `us` in `scope`: a use that
/// resolves is appended to its symbol's references, one that does not is reported.
pub open spec fn resolve_uses(
    st: (Seq<SymbolView>, Seq<ErrorView>),
    us: Seq<Token>,
    scope: Option<Seq<char>>,
    defaults: Seq<Seq<char>>,
) -> (Seq<SymbolView>, Seq<ErrorView>)
    decreases us.len(),
{
    if us.len() == 0 {
        st
    } else {
        let (t0, e0) = resolve_uses(st, us.drop_last(), scope, defaults);
        let u = us.last();
        match first_match(t0, u.text@, search_scopes(scope, defaults)) {
            Some(i) => (t0.update(i, SymbolView { references: t0[i].references.push(u.location), ..t0[i] }), e0),
            None => (t0, e0.push(error_at(ErrorKind::UnresolvedReference, u))),
        }
    }
}

/// The symbols and diagnostics after the resolving pass over `ds`.
pub open spec fn pass2_result(
    t: Seq<SymbolView>,
    ds: Seq<Declaration>,
    defaults: Seq<Seq<char>>,
) -> (Seq<SymbolView>, Seq<ErrorView>)
    decreases ds.len(),
{
    if ds.len() == 0 {
        (t, Seq::empty())
    } else {
        resolve_uses(pass2_result(t, ds.drop_last(), defaults), declaration_uses(ds.last()), scope_after(ds.drop_last()), defaults)
    }
}

/// Whether `s`, declared in `file`, is a variable that nothing uses and nothing excuses:
/// no reference, no allow-unused flag, and a name that does not start with `_`.
pub open spec fn is_unused(s: SymbolView, file: Seq<char>) -> bool {
    &&& s.file == file
    &&& s.kind == SymbolKind::Variable
    &&& s.references.len() == 0
    &&& !s.allow_unused
    &&& !(s.name.len() > 0 && s.name[0] == '_')
}

/// One `UnusedVariable` diagnostic for each unused variable of `file` in `t`, in order.
pub open spec fn unused_errors(t: Seq<SymbolView>, file: Seq<char>) -> Seq<ErrorView>
    decreases t.len(),
{
    if t.len() == 0 {
        Seq::empty()
    } else if is_unused(t.last(), file) {
        unused_errors(t.drop_last(), file).push(
            ErrorView { kind: ErrorKind::UnusedVariable, name: t.last().name, location: t.last().location },
        )
    } else {
        unused_errors(t.drop_last(), file)
    }
}

proof fn lemma_prefix_uses(us: Seq<Token>)
    ensures
        expr_uses(prefix_tokens(us)) == Seq::<Token>::empty(),
    decreases us.len(),
{
    if us.len() > 0 {
        lemma_prefix_uses(us.drop_last());
        let p = prefix_tokens(us);
        assert(p.drop_last() =~= prefix_tokens(us.drop_last()));
    }
}

proof fn lemma_expr_uses_one(x: ExprElement)
    ensures
        expr_uses(seq![x]) == match x {
            ExprElement::Reference(t) => seq![t],
            _ => Seq::<Token>::empty(),
        },
{
    let one = seq![x];
    assert(one.len() == 1);
    assert(one.drop_last() =~= Seq::<ExprElement>::empty());
    assert(one.last() == x);
    assert(expr_uses(Seq::<ExprElement>::empty()) == Seq::<Token>::empty());
    match x {
        ExprElement::Reference(t) => {
            assert(Seq::<Token>::empty().push(t) =~= seq![t]);
        },
        _ => {},
    }
}

proof fn lemma_expr_uses_append(a: Seq<ExprElement>, b: Seq<ExprElement>)
    ensures
        expr_uses(a + b) == expr_uses(a) + expr_uses(b),
    decreases b.len(),
{
    if b.len() == 0 {
        assert(a + b =~= a);
        assert(expr_uses(a) + expr_uses(b) =~= expr_uses(a));
    } else {
        assert((a + b).drop_last() =~= a + b.drop_last());
        lemma_expr_uses_append(a, b.drop_last());
        assert((a + b).last() == b.last());
        match b.last() {
            ExprElement::Reference(t) => {
                assert(expr_uses(a) + expr_uses(b.drop_last()).push(t) =~= (expr_uses(a) + expr_uses(b.drop_last())).push(t));
            },
            _ => {},
        }
    }
}

proof fn lemma_resolve_uses_append(
    st: (Seq<SymbolView>, Seq<ErrorView>),
    a: Seq<Token>,
    b: Seq<Token>,
    scope: Option<Seq<char>>,
    defaults: Seq<Seq<char>>,
)
    ensures
        resolve_uses(st, a + b, scope, defaults) == resolve_uses(resolve_uses(st, a, scope, defaults), b, scope, defaults),
    decreases b.len(),
{
    if b.len() == 0 {
        assert(a + b =~= a);
    } else {
        assert((a + b).drop_last() =~= a + b.drop_last());
        lemma_resolve_uses_append(st, a, b.drop_last(), scope, defaults);
    }
}

/// The number of `UnusedVariable` diagnostics in `errs` at `l`.
pub open spec fn reports_at(errs: Seq<ErrorView>, l: Location) -> nat
    decreases errs.len(),
{
    if errs.len() == 0 {
        0
    } else {
        reports_at(errs.drop_last(), l) + if errs.last().kind == ErrorKind::UnusedVariable
            && errs.last().location == l {
            1nat
        } else {
            0nat
        }
    }
}

/// The number of unused variables of `file` in `t` declared at `l`.
pub open spec fn unused_at(t: Seq<SymbolView>, file: Seq<char>, l: Location) -> nat
    decreases t.len(),
{
    if t.len() == 0 {
        0
    } else {
        unused_at(t.drop_last(), file, l) + if is_unused(t.last(), file) && t.last().location == l {
            1nat
        } else {
            0nat
        }
    }
}

proof fn lemma_reports_count(t: Seq<SymbolView>, file: Seq<char>, l: Location)
    ensures
        reports_at(unused_errors(t, file), l) == unused_at(t, file, l),
    decreases t.len(),
{
    if t.len() > 0 {
        lemma_reports_count(t.drop_last(), file, l);
        let e0 = unused_errors(t.drop_last(), file);
        if is_unused(t.last(), file) {
            let e = ErrorView { kind: ErrorKind::UnusedVariable, name: t.last().name, location: t.last().location };
            assert(e0.push(e).drop_last() =~= e0);
        }
    }
}

proof fn lemma_unused_at_single(t: Seq<SymbolView>, file: Seq<char>, i: int)
    requires
        0 <= i < t.len(),
        forall|j: int| 0 <= j < t.len() && j != i && t[j].file == file ==> t[j].location != t[i].location,
    ensures
        unused_at(t, file, t[i].location) == if is_unused(t[i], file) {
            1nat
        } else {
            0nat
        },
    decreases t.len(),
{
    let l = t[i].location;
    let p = t.drop_last();
    if i == t.len() - 1 {
        lemma_unused_at_none(p, file, l);
    } else {
        assert(p[i] == t[i]);
        lemma_unused_at_single(p, file, i);
    }
}

proof fn lemma_unused_at_none(t: Seq<SymbolView>, file: Seq<char>, l: Location)
    requires
        forall|j: int| 0 <= j < t.len() && t[j].file == file ==> t[j].location != l,
    ensures
        unused_at(t, file, l) == 0,
    decreases t.len(),
{
    if t.len() > 0 {
        let p = t.drop_last();
        assert forall|j: int| 0 <= j < p.len() && p[j].file == file implies p[j].location != l by {
            assert(p[j] == t[j]);
        }
        lemma_unused_at_none(p, file, l);
    }
}

/// The diagnostic that reports `s` as unused.
pub open spec fn unused_error(s: SymbolView) -> ErrorView {
    ErrorView { kind: ErrorKind::UnusedVariable, name: s.name, location: s.location }
}

/// The checking pass reports exactly the unused variables of `file`: one `UnusedVariable`
/// per such symbol, in the order of the table, naming it and standing at its location, and
/// nothing for any other symbol.
pub proof fn lemma_unused_errors_one_per_symbol(t: Seq<SymbolView>, file: Seq<char>)
    ensures
        unused_errors(t, file) == t.filter(|s: SymbolView| is_unused(s, file)).map_values(
            |s: SymbolView| unused_error(s),
        ),
    decreases t.len(),
{
    reveal(Seq::filter);
    if t.len() > 0 {
        lemma_unused_errors_one_per_symbol(t.drop_last(), file);
        let f0 = t.drop_last().filter(|s: SymbolView| is_unused(s, file));
        if is_unused(t.last(), file) {
            assert(f0.push(t.last()).map_values(|s: SymbolView| unused_error(s)) =~= f0.map_values(
                |s: SymbolView| unused_error(s),
            ).push(unused_error(t.last())));
        }
    } else {
        assert(t.filter(|s: SymbolView| is_unused(s, file)).map_values(|s: SymbolView| unused_error(s))
            =~= Seq::<ErrorView>::empty());
    }
}

/// A variable of `file` that has no reference, no allow-unused flag and a name without the
/// leading `_` gets exactly one `UnusedVariable` from the checking pass.
pub proof fn lemma_unused_variable_reported_once(t: Seq<SymbolView>, file: Seq<char>, i: int)
    requires
        0 <= i < t.len(),
        t[i].file == file,
        t[i].kind == SymbolKind::Variable,
        t[i].references.len() == 0,
        !t[i].allow_unused,
        !(t[i].name.len() > 0 && t[i].name[0] == '_'),
        forall|j: int| 0 <= j < t.len() && j != i && t[j].file == file ==> t[j].location != t[i].location,
    ensures
        reports_at(unused_errors(t, file), t[i].location) == 1,
{
    lemma_reports_count(t, file, t[i].location);
    lemma_unused_at_single(t, file, i);
}

/// A variable of `file` that is referenced, flagged allow-unused, or named with a leading
/// `_` gets no diagnostic from the checking pass.
pub proof fn lemma_used_variable_not_reported(t: Seq<SymbolView>, file: Seq<char>, i: int)
    requires
        0 <= i < t.len(),
        t[i].file == file,
        t[i].kind == SymbolKind::Variable,
        t[i].references.len() > 0 || t[i].allow_unused || (t[i].name.len() > 0 && t[i].name[0] == '_'),
        forall|j: int| 0 <= j < t.len() && j != i && t[j].file == file ==> t[j].location != t[i].location,
    ensures
        reports_at(unused_errors(t, file), t[i].location) == 0,
{
    lemma_reports_count(t, file, t[i].location);
    lemma_unused_at_single(t, file, i);
}

/// Two tables that agree on names and namespaces.
pub open spec fn same_names(t1: Seq<SymbolView>, t2: Seq<SymbolView>) -> bool {
    &&& t1.len() == t2.len()
    &&& forall|i: int| 0 <= i < t1.len() ==> #[trigger] t1[i].name == t2[i].name && t1[i].namespace == t2[i].namespace
}

proof fn lemma_first_match_in_range(t: Seq<SymbolView>, name: Seq<char>, scopes: Seq<Option<Seq<char>>>)
    ensures
        match first_match(t, name, scopes) {
            Some(i) => 0 <= i < t.len(),
            None => true,
        },
    decreases scopes.len(),
{
    if scopes.len() > 0 {
        lemma_first_match_in_range(t, name, scopes.drop_first());
    }
}

proof fn lemma_first_match_same(t1: Seq<SymbolView>, t2: Seq<SymbolView>, name: Seq<char>, scopes: Seq<Option<Seq<char>>>)
    requires
        same_names(t1, t2),
        names_unique(t1),
    ensures
        first_match(t1, name, scopes) == first_match(t2, name, scopes),
    decreases scopes.len(),
{
    if scopes.len() > 0 {
        let sc = scopes[0];
        if exists|i: int| 0 <= i < t1.len() && t1[i].name == name && t1[i].namespace == sc {
            let a = choose|i: int| 0 <= i < t1.len() && t1[i].name == name && t1[i].namespace == sc;
            assert(t2[a].name == name && t2[a].namespace == sc);
            let b = choose|i: int| 0 <= i < t2.len() && t2[i].name == name && t2[i].namespace == sc;
            assert(t1[b].name == name && t1[b].namespace == sc);
            assert(a == b);
        } else {
            assert(!exists|i: int| 0 <= i < t2.len() && t2[i].name == name && t2[i].namespace == sc) by {
                if exists|i: int| 0 <= i < t2.len() && t2[i].name == name && t2[i].namespace == sc {
                    let b = choose|i: int| 0 <= i < t2.len() && t2[i].name == name && t2[i].namespace == sc;
                    assert(t1[b].name == name && t1[b].namespace == sc);
                }
            }
        }
        lemma_first_match_same(t1, t2, name, scopes.drop_first());
    }
}

proof fn lemma_resolve_uses_keeps_names(
    st: (Seq<SymbolView>, Seq<ErrorView>),
    us: Seq<Token>,
    scope: Option<Seq<char>>,
    defaults: Seq<Seq<char>>,
)
    ensures
        same_names(st.0, resolve_uses(st, us, scope, defaults).0),
    decreases us.len(),
{
    if us.len() > 0 {
        lemma_resolve_uses_keeps_names(st, us.drop_last(), scope, defaults);
        let t0 = resolve_uses(st, us.drop_last(), scope, defaults).0;
        lemma_first_match_in_range(t0, us.last().text@, search_scopes(scope, defaults));
    }
}

/// How many of the uses `us`, standing in `scope`, resolve in `t` to symbol `i`.
pub open spec fn resolving_count(
    t: Seq<SymbolView>,
    us: Seq<Token>,
    scope: Option<Seq<char>>,
    defaults: Seq<Seq<char>>,
    i: int,
) -> nat
    decreases us.len(),
{
    if us.len() == 0 {
        0
    } else {
        resolving_count(t, us.drop_last(), scope, defaults, i) + if first_match(
            t,
            us.last().text@,
            search_scopes(scope, defaults),
        ) == Some(i) {
            1nat
        } else {
            0nat
        }
    }
}

/// How many uses of `ds` resolve in `t` to symbol `i`, each in the scope it stands in.
pub open spec fn pass2_count(t: Seq<SymbolView>, ds: Seq<Declaration>, defaults: Seq<Seq<char>>, i: int) -> nat
    decreases ds.len(),
{
    if ds.len() == 0 {
        0
    } else {
        pass2_count(t, ds.drop_last(), defaults, i) + resolving_count(
            t,
            declaration_uses(ds.last()),
            scope_after(ds.drop_last()),
            defaults,
            i,
        )
    }
}

proof fn lemma_resolving_count_same(
    t1: Seq<SymbolView>,
    t2: Seq<SymbolView>,
    us: Seq<Token>,
    scope: Option<Seq<char>>,
    defaults: Seq<Seq<char>>,
    i: int,
)
    requires
        same_names(t1, t2),
        names_unique(t1),
    ensures
        resolving_count(t1, us, scope, defaults, i) == resolving_count(t2, us, scope, defaults, i),
    decreases us.len(),
{
    if us.len() > 0 {
        lemma_resolving_count_same(t1, t2, us.drop_last(), scope, defaults, i);
        lemma_first_match_same(t1, t2, us.last().text@, search_scopes(scope, defaults));
    }
}

proof fn lemma_resolve_uses_count(
    st: (Seq<SymbolView>, Seq<ErrorView>),
    us: Seq<Token>,
    scope: Option<Seq<char>>,
    defaults: Seq<Seq<char>>,
    i: int,
)
    requires
        names_unique(st.0),
        0 <= i < st.0.len(),
    ensures
        resolve_uses(st, us, scope, defaults).0[i].references.len() == st.0[i].references.len()
            + resolving_count(st.0, us, scope, defaults, i),
    decreases us.len(),
{
    if us.len() > 0 {
        lemma_resolve_uses_count(st, us.drop_last(), scope, defaults, i);
        lemma_resolve_uses_keeps_names(st, us.drop_last(), scope, defaults);
        let t0 = resolve_uses(st, us.drop_last(), scope, defaults).0;
        lemma_first_match_same(st.0, t0, us.last().text@, search_scopes(scope, defaults));
        lemma_first_match_in_range(t0, us.last().text@, search_scopes(scope, defaults));
    }
}

proof fn lemma_pass2_keeps_names(t: Seq<SymbolView>, ds: Seq<Declaration>, defaults: Seq<Seq<char>>)
    ensures
        same_names(t, pass2_result(t, ds, defaults).0),
    decreases ds.len(),
{
    if ds.len() > 0 {
        lemma_pass2_keeps_names(t, ds.drop_last(), defaults);
        let st = pass2_result(t, ds.drop_last(), defaults);
        lemma_resolve_uses_keeps_names(st, declaration_uses(ds.last()), scope_after(ds.drop_last()), defaults);
    }
}

/// After the resolving pass over `ds`, the references of symbol `i` have grown by exactly
/// the number of uses in `ds` that resolve to it. The count is a function of the table and
/// the tree alone, so a run on a table rebuilt from scratch over an unchanged tree gives the
/// same count.
pub proof fn lemma_reference_count(t: Seq<SymbolView>, ds: Seq<Declaration>, defaults: Seq<Seq<char>>, i: int)
    requires
        names_unique(t),
        0 <= i < t.len(),
    ensures
        pass2_result(t, ds, defaults).0[i].references.len() == t[i].references.len() + pass2_count(t, ds, defaults, i),
    decreases ds.len(),
{
    if ds.len() > 0 {
        lemma_reference_count(t, ds.drop_last(), defaults, i);
        lemma_pass2_keeps_names(t, ds.drop_last(), defaults);
        let st = pass2_result(t, ds.drop_last(), defaults);
        assert(names_unique(st.0)) by {
            assert forall|a: int, b: int|
                0 <= a < st.0.len() && 0 <= b < st.0.len() && a != b && st.0[a].name == st.0[b].name implies st.0[a].namespace
                    != st.0[b].namespace by {
                assert(t[a].name == st.0[a].name && t[b].name == st.0[b].name);
            }
        }
        let us = declaration_uses(ds.last());
        let sc = scope_after(ds.drop_last());
        lemma_resolve_uses_count(st, us, sc, defaults, i);
        lemma_resolving_count_same(t, st.0, us, sc, defaults, i);
    }
}

/// A use of a name that no symbol carries is reported as unresolved; once a declaration of
/// that name is registered in a scope that the use searches, the same use resolves.
pub proof fn lemma_resolution_needs_declaration(
    st: (Seq<SymbolView>, Seq<ErrorView>),
    u: Token,
    scope: Option<Seq<char>>,
    defaults: Seq<Seq<char>>,
    s: SymbolView,
)
    requires
        forall|j: int| 0 <= j < st.0.len() ==> st.0[j].name != u.text@,
        s.name == u.text@,
        search_scopes(scope, defaults).contains(s.namespace),
    ensures
        resolve_uses(st, seq![u], scope, defaults) == (st.0, st.1.push(error_at(ErrorKind::UnresolvedReference, u))),
        declared_in(st.0, s.name, s.namespace) == None::<int>,
        first_match(st.0.push(s), u.text@, search_scopes(scope, defaults)) is Some,
{
    let scopes = search_scopes(scope, defaults);
    assert(seq![u].drop_last() =~= Seq::<Token>::empty());
    assert(seq![u].last() == u);
    assert(resolve_uses(st, seq![u].drop_last(), scope, defaults) == st);
    lemma_first_match_none(st.0, u.text@, scopes);
    let k = choose|k: int| 0 <= k < scopes.len() && scopes[k] == s.namespace;
    let n = st.0.len() as int;
    assert(st.0.push(s)[n] == s);
    lemma_first_match_found(st.0.push(s), u.text@, scopes, k);
}

proof fn lemma_resolve_uses_reports(
    st: (Seq<SymbolView>, Seq<ErrorView>),
    us: Seq<Token>,
    scope: Option<Seq<char>>,
    defaults: Seq<Seq<char>>,
    n: Seq<char>,
)
    requires
        forall|j: int| 0 <= j < st.0.len() ==> st.0[j].name != n,
    ensures
        resolve_uses(st, us, scope, defaults).1.len() >= st.1.len(),
        forall|i: int| 0 <= i < st.1.len() ==> #[trigger] resolve_uses(st, us, scope, defaults).1[i] == st.1[i],
        forall|j: int|
            0 <= j < us.len() && us[j].text@ == n ==> resolve_uses(st, us, scope, defaults).1.contains(
                error_at(ErrorKind::UnresolvedReference, #[trigger] us[j]),
            ),
    decreases us.len(),
{
    if us.len() > 0 {
        let p = us.drop_last();
        lemma_resolve_uses_reports(st, p, scope, defaults, n);
        lemma_resolve_uses_keeps_names(st, p, scope, defaults);
        let r0 = resolve_uses(st, p, scope, defaults);
        let r = resolve_uses(st, us, scope, defaults);
        let scopes = search_scopes(scope, defaults);
        assert forall|j: int| 0 <= j < r0.0.len() implies r0.0[j].name != n by {
            assert(st.0[j].name == r0.0[j].name);
        }
        if us.last().text@ == n {
            lemma_first_match_none(r0.0, n, scopes);
        }
        assert forall|j: int| 0 <= j < us.len() && us[j].text@ == n implies r.1.contains(
            error_at(ErrorKind::UnresolvedReference, #[trigger] us[j]),
        ) by {
            if j < us.len() - 1 {
                assert(p[j] == us[j]);
                let k = choose|k: int| 0 <= k < r0.1.len() && r0.1[k] == error_at(ErrorKind::UnresolvedReference, p[j]);
                assert(r.1[k] == r0.1[k]);
            } else {
                assert(r.1[r.1.len() - 1] == error_at(ErrorKind::UnresolvedReference, us[j]));
            }
        }
    }
}

/// Resolving a file before the file that declares a name has had its declaring pass misses
/// that name: when no symbol of the table carries it, every use of it in the file is
/// reported as an unresolved reference (it resolves once the declaration is registered, see
/// `lemma_resolution_needs_declaration`).
pub proof fn lemma_undeclared_uses_reported(t: Seq<SymbolView>, ds: Seq<Declaration>, defaults: Seq<Seq<char>>, n: Seq<char>)
    requires
        forall|j: int| 0 <= j < t.len() ==> t[j].name != n,
    ensures
        forall|k: int, j: int|
            0 <= k < ds.len() && 0 <= j < declaration_uses(ds[k]).len() && declaration_uses(ds[k])[j].text@ == n
                ==> pass2_result(t, ds, defaults).1.contains(
                error_at(ErrorKind::UnresolvedReference, #[trigger] declaration_uses(ds[k])[j]),
            ),
    decreases ds.len(),
{
    if ds.len() > 0 {
        let p = ds.drop_last();
        lemma_undeclared_uses_reported(t, p, defaults, n);
        lemma_pass2_keeps_names(t, p, defaults);
        let st = pass2_result(t, p, defaults);
        assert forall|j: int| 0 <= j < st.0.len() implies st.0[j].name != n by {
            assert(t[j].name == st.0[j].name);
        }
        let us = declaration_uses(ds.last());
        lemma_resolve_uses_reports(st, us, scope_after(p), defaults, n);
        let r = pass2_result(t, ds, defaults);
        assert forall|k: int, j: int|
            0 <= k < ds.len() && 0 <= j < declaration_uses(ds[k]).len() && declaration_uses(ds[k])[j].text@ == n
                implies r.1.contains(error_at(ErrorKind::UnresolvedReference, #[trigger] declaration_uses(ds[k])[j])) by {
            if k < ds.len() - 1 {
                assert(p[k] == ds[k]);
                let e = error_at(ErrorKind::UnresolvedReference, declaration_uses(p[k])[j]);
                assert(st.1.contains(e));
                let i = choose|i: int| 0 <= i < st.1.len() && st.1[i] == e;
                assert(r.1[i] == st.1[i]);
            } else {
                assert(ds[k] == ds.last());
            }
        }
    }
}

proof fn lemma_first_match_none(t: Seq<SymbolView>, name: Seq<char>, scopes: Seq<Option<Seq<char>>>)
    requires
        forall|j: int| 0 <= j < t.len() ==> t[j].name != name,
    ensures
        first_match(t, name, scopes) == None::<int>,
    decreases scopes.len(),
{
    if scopes.len() > 0 {
        lemma_first_match_none(t, name, scopes.drop_first());
    }
}

proof fn lemma_first_match_found(t: Seq<SymbolView>, name: Seq<char>, scopes: Seq<Option<Seq<char>>>, k: int)
    requires
        0 <= k < scopes.len(),
        exists|j: int| 0 <= j < t.len() && t[j].name == name && t[j].namespace == scopes[k],
    ensures
        first_match(t, name, scopes) is Some,
    decreases scopes.len(),
{
    if k > 0 {
        match declared_in(t, name, scopes[0]) {
            Some(_) => {},
            None => {
                assert(scopes.drop_first()[k - 1] == scopes[k]);
                lemma_first_match_found(t, name, scopes.drop_first(), k - 1);
            },
        }
    }
}

/// The analyzer of a project: the symbol table that its passes share.
pub struct Analyzer {
    pub symbol_table: SymbolTable,
}

impl Analyzer {
    pub open spec fn wf(&self) -> bool {
        self.symbol_table.wf()
    }

    /// An analyzer with an empty symbol table whose default namespaces are `project_paths`.
    pub fn new(project_paths: &Vec<String>) -> (r: Analyzer)
        ensures
            r.wf(),
            r.symbol_table.symbols() == Seq::<SymbolView>::empty(),
            r.symbol_table.defaults() == string_views(project_paths@),
    {
        Analyzer { symbol_table: SymbolTable::new(project_paths) }
    }

    /// The declaring pass over one file: registers every declaration of `input`, reporting
    /// each that clashes with one already registered.
    pub fn analyze_pass1(&mut self, path: &String, input: &Veryl) -> (r: Vec<AnalyzerError>)
        requires
            old(self).wf(),
        ensures
            final(self).wf(),
            final(self).symbol_table.defaults() == old(self).symbol_table.defaults(),
            (final(self).symbol_table.symbols(), error_views(r@)) == pass1_result(
                old(self).symbol_table.symbols(),
                path@,
                input.declarations@,
            ),
    {
        let ghost ds = input.declarations@;
        let ghost t0 = self.symbol_table.symbols();
        let mut errors: Vec<AnalyzerError> = Vec::new();
        let mut scope: Option<String> = None;
        let mut i: usize = 0;
        while i < input.declarations.len()
            invariant
                self.wf(),
                ds == input.declarations@,
                i <= ds.len(),
                self.symbol_table.defaults() == old(self).symbol_table.defaults(),
                scope_view(scope) == scope_after(ds.subrange(0, i as int)),
                (self.symbol_table.symbols(), error_views(errors@)) == pass1_result(t0, path@, ds.subrange(0, i as int)),
            decreases ds.len() - i,
        {
            let ghost pre = ds.subrange(0, i as int);
            let ghost post = ds.subrange(0, i + 1);
            proof {
                assert(post.drop_last() =~= pre);
                assert(post.last() == ds[i as int]);
            }
            let d = &input.declarations[i];
            let found: Option<Symbol> = match d {
                Declaration::Module { name } => Some(Symbol {
                    kind: SymbolKind::Module,
                    name: name.text.clone(),
                    location: name.location,
                    file: path.clone(),
                    namespace: None,
                    references: Vec::new(),
                    allow_unused: false,
                }),
                Declaration::Interface { name } => Some(Symbol {
                    kind: SymbolKind::Interface,
                    name: name.text.clone(),
                    location: name.location,
                    file: path.clone(),
                    namespace: None,
                    references: Vec::new(),
                    allow_unused: false,
                }),
                Declaration::Variable { name, allow_unused, .. } => Some(Symbol {
                    kind: SymbolKind::Variable,
                    name: name.text.clone(),
                    location: name.location,
                    file: path.clone(),
                    namespace: copy_scope(&scope),
                    references: Vec::new(),
                    allow_unused: *allow_unused,
                }),
                Declaration::Parameter { name, .. } | Declaration::Localparam { name, .. }
                | Declaration::WithParameter { name, .. } => Some(Symbol {
                    kind: SymbolKind::Parameter,
                    name: name.text.clone(),
                    location: name.location,
                    file: path.clone(),
                    namespace: copy_scope(&scope),
                    references: Vec::new(),
                    allow_unused: false,
                }),
                Declaration::Port { name, .. } => Some(Symbol {
                    kind: SymbolKind::Port,
                    name: name.text.clone(),
                    location: name.location,
                    file: path.clone(),
                    namespace: copy_scope(&scope),
                    references: Vec::new(),
                    allow_unused: false,
                }),
                Declaration::Assignment { .. } | Declaration::Statement { .. } => None,
            };
            proof {
                match &found {
                    Some(s) => {
                        assert(s@.references =~= Seq::<Location>::empty());
                        assert(declared(ds[i as int], path@, scope_view(scope)) == Some(s@));
                    },
                    None => {},
                }
            }
            match found {
                Some(s) => {
                    let name = s.name.clone();
                    let location = s.location;
                    match self.symbol_table.register(s) {
                        Ok(_) => {},
                        Err(_) => {
                            let ghost e0 = errors@;
                            errors.push(AnalyzerError { kind: ErrorKind::DuplicateDeclaration, name, location });
                            proof {
                                assert(errors@ == e0.push(errors@.last()));
                                assert(error_views(errors@) =~= error_views(e0).push(errors@.last()@));
                            }
                        },
                    }
                },
                None => {},
            }
            match d {
                Declaration::Module { name } | Declaration::Interface { name } => {
                    scope = Some(name.text.clone());
                },
                _ => {},
            }
            i = i + 1;
        }
        proof {
            assert(ds.subrange(0, i as int) =~= ds);
        }
        errors
    }

    /// The resolving pass over one file: every name used in `input` is looked up along the
    /// scope chain of where it stands; a use that resolves is recorded as a reference of its
    /// symbol, one that does not is reported. Run it once every file has had its declaring pass.
    pub fn analyze_pass2(&mut self, path: &String, input: &Veryl) -> (r: Vec<AnalyzerError>)
        requires
            old(self).wf(),
        ensures
            final(self).wf(),
            final(self).symbol_table.defaults() == old(self).symbol_table.defaults(),
            (final(self).symbol_table.symbols(), error_views(r@)) == pass2_result(
                old(self).symbol_table.symbols(),
                input.declarations@,
                old(self).symbol_table.defaults(),
            ),
    {
        let ghost ds = input.declarations@;
        let ghost t0 = self.symbol_table.symbols();
        let ghost defaults = self.symbol_table.defaults();
        let mut errors: Vec<AnalyzerError> = Vec::new();
        let mut scope: Option<String> = None;
        proof {
            assert(error_views(errors@) =~= Seq::<ErrorView>::empty());
        }
        let mut i: usize = 0;
        while i < input.declarations.len()
            invariant
                self.wf(),
                ds == input.declarations@,
                i <= ds.len(),
                self.symbol_table.defaults() == defaults,
                scope_view(scope) == scope_after(ds.subrange(0, i as int)),
                (self.symbol_table.symbols(), error_views(errors@)) == pass2_result(t0, ds.subrange(0, i as int), defaults),
            decreases ds.len() - i,
        {
            proof {
                let pre = ds.subrange(0, i as int);
                let post = ds.subrange(0, i + 1);
                assert(post.drop_last() =~= pre);
                assert(post.last() == ds[i as int]);
            }
            let d = &input.declarations[i];
            self.resolve_declaration(d, &scope, &mut errors);
            match d {
                Declaration::Module { name } | Declaration::Interface { name } => {
                    scope = Some(name.text.clone());
                },
                _ => {},
            }
            i = i + 1;
        }
        proof {
            assert(ds.subrange(0, i as int) =~= ds);
        }
        errors
    }

    /// The checking pass over one file: one `UnusedVariable` for each variable declared in
    /// `path` that is never referenced, not flagged allow-unused, and not named with a
    /// leading `_`. Run it once every file has had its resolving pass.
    pub fn analyze_pass3(&self, path: &String) -> (r: Vec<AnalyzerError>)
        ensures
            error_views(r@) == unused_errors(self.symbol_table.symbols(), path@),
    {
        let symbols = self.symbol_table.get_all();
        let ghost t = self.symbol_table.symbols();
        let mut errors: Vec<AnalyzerError> = Vec::new();
        let mut i: usize = 0;
        proof {
            assert(t.subrange(0, 0) =~= Seq::<SymbolView>::empty());
            assert(error_views(errors@) =~= Seq::<ErrorView>::empty());
        }
        while i < symbols.len()
            invariant
                t == symbols@.map_values(|s: Symbol| s@),
                i <= t.len(),
                error_views(errors@) == unused_errors(t.subrange(0, i as int), path@),
            decreases t.len() - i,
        {
            let s = &symbols[i];
            proof {
                let post = t.subrange(0, i + 1);
                assert(post.drop_last() =~= t.subrange(0, i as int));
                assert(post.last() == s@);
            }
            if s.file == *path && s.kind == SymbolKind::Variable && s.references.len() == 0 && !s.allow_unused {
                let n = s.name.as_str().unicode_len();
                let marked = n > 0 && s.name.as_str().get_char(0) == '_';
                if !marked {
                    let ghost e0 = errors@;
                    errors.push(AnalyzerError { kind: ErrorKind::UnusedVariable, name: s.name.clone(), location: s.location });
                    proof {
                        assert(error_views(errors@) =~= error_views(e0).push(errors@.last()@));
                    }
                }
            }
            i = i + 1;
        }
        proof {
            assert(t.subrange(0, i as int) =~= t);
        }
        errors
    }

    /// Resolves the uses of one declaration standing in `scope`.
    fn resolve_declaration(&mut self, d: &Declaration, scope: &Option<String>, errors: &mut Vec<AnalyzerError>)
        requires
            old(self).wf(),
        ensures
            final(self).wf(),
            final(self).symbol_table.defaults() == old(self).symbol_table.defaults(),
            (final(self).symbol_table.symbols(), error_views(final(errors)@)) == resolve_uses(
                (old(self).symbol_table.symbols(), error_views(old(errors)@)),
                declaration_uses(*d),
                scope_view(*scope),
                old(self).symbol_table.defaults(),
            ),
    {
        let ghost st = (self.symbol_table.symbols(), error_views(errors@));
        let ghost sc = scope_view(*scope);
        let ghost defaults = self.symbol_table.defaults();
        match d {
            Declaration::Variable { ty, .. } | Declaration::Port { ty, .. } => {
                self.resolve_type(ty, scope, errors);
            },
            Declaration::Parameter { ty, value, .. } | Declaration::Localparam { ty, value, .. }
            | Declaration::WithParameter { ty, value, .. } => {
                self.resolve_type(ty, scope, errors);
                self.resolve_expression(value, scope, errors);
                proof {
                    lemma_resolve_uses_append(st, widths_uses(ty.widths@), expr_uses(expression_tokens(*value)), sc, defaults);
                }
            },
            Declaration::Assignment { target, value } | Declaration::Statement { assigned: Some(target), value } => {
                self.resolve_one(target, scope, errors);
                self.resolve_expression(value, scope, errors);
                proof {
                    lemma_resolve_uses_append(st, seq![*target], expr_uses(expression_tokens(*value)), sc, defaults);
                }
            },
            Declaration::Statement { assigned: None, value } => {
                self.resolve_expression(value, scope, errors);
            },
            _ => {
                proof {
                    assert(declaration_uses(*d) =~= Seq::<Token>::empty());
                }
            },
        }
    }

    /// Resolves the uses in the width annotations of `ty`.
    fn resolve_type(&mut self, ty: &Type, scope: &Option<String>, errors: &mut Vec<AnalyzerError>)
        requires
            old(self).wf(),
        ensures
            final(self).wf(),
            final(self).symbol_table.defaults() == old(self).symbol_table.defaults(),
            (final(self).symbol_table.symbols(), error_views(final(errors)@)) == resolve_uses(
                (old(self).symbol_table.symbols(), error_views(old(errors)@)),
                widths_uses(ty.widths@),
                scope_view(*scope),
                old(self).symbol_table.defaults(),
            ),
    {
        let ghost st = (self.symbol_table.symbols(), error_views(errors@));
        let ghost defaults = self.symbol_table.defaults();
        let mut j: usize = 0;
        while j < ty.widths.len()
            invariant
                self.wf(),
                j <= ty.widths@.len(),
                self.symbol_table.defaults() == defaults,
                (self.symbol_table.symbols(), error_views(errors@)) == resolve_uses(
                    st,
                    widths_uses(ty.widths@.subrange(0, j as int)),
                    scope_view(*scope),
                    defaults,
                ),
            decreases ty.widths@.len() - j,
        {
            proof {
                let pre = ty.widths@.subrange(0, j as int);
                let post = ty.widths@.subrange(0, j + 1);
                assert(post.drop_last() =~= pre);
                assert(post.last() == ty.widths@[j as int]);
                lemma_resolve_uses_append(st, widths_uses(pre), expr_uses(expression_tokens(ty.widths@[j as int].expression)), scope_view(*scope), defaults);
            }
            self.resolve_expression(&ty.widths[j].expression, scope, errors);
            j = j + 1;
        }
        proof {
            assert(ty.widths@.subrange(0, j as int) =~= ty.widths@);
        }
    }

    /// The table and the diagnostics `errors` are what resolving the names of `done` in
    /// `scope` makes of `s` and `s_errors`.
    spec fn resolved_since(
        &self,
        errors: Seq<AnalyzerError>,
        s: Analyzer,
        s_errors: Seq<AnalyzerError>,
        done: Seq<ExprElement>,
        scope: Option<Seq<char>>,
    ) -> bool {
        &&& self.wf()
        &&& self.symbol_table.defaults() == s.symbol_table.defaults()
        &&& (self.symbol_table.symbols(), error_views(errors)) == resolve_uses(
            (s.symbol_table.symbols(), error_views(s_errors)),
            expr_uses(done),
            scope,
            s.symbol_table.defaults(),
        )
    }

    proof fn lemma_resolved_chain(
        a: Analyzer,
        ea: Seq<AnalyzerError>,
        b: Analyzer,
        eb: Seq<AnalyzerError>,
        c: Analyzer,
        ec: Seq<AnalyzerError>,
        x: Seq<ExprElement>,
        y: Seq<ExprElement>,
        scope: Option<Seq<char>>,
    )
        requires
            b.resolved_since(eb, a, ea, x, scope),
            c.resolved_since(ec, b, eb, y, scope),
        ensures
            c.resolved_since(ec, a, ea, x + y, scope),
    {
        lemma_expr_uses_append(x, y);
        lemma_resolve_uses_append(
            (a.symbol_table.symbols(), error_views(ea)),
            expr_uses(x),
            expr_uses(y),
            scope,
            a.symbol_table.defaults(),
        );
    }

    /// Resolves the names used in `e`, standing in `scope`.
    fn resolve_expression(&mut self, e: &Expression, scope: &Option<String>, errors: &mut Vec<AnalyzerError>)
        requires
            old(self).wf(),
        ensures
            final(self).resolved_since(final(errors)@, *old(self), old(errors)@, expression_tokens(*e), scope_view(*scope)),
        decreases e,
    {
        let ghost s0 = *self;
        let ghost e0 = errors@;
        let ghost sc = scope_view(*scope);
        self.resolve_expression1(&e.first, scope, errors);
        let mut i: usize = 0;
        while i < e.rest.len()
            invariant
                i <= e.rest@.len(),
                sc == scope_view(*scope),
                self.resolved_since(errors@, s0, e0, expression1_tokens(e.first) + tails_tokens(e.rest@.subrange(0, i as int)), sc),
            decreases e.rest@.len() - i,
        {
            let ghost s1 = *self;
            let ghost e1 = errors@;
            let ghost done = expression1_tokens(e.first) + tails_tokens(e.rest@.subrange(0, i as int));
            let ghost op = seq![ExprElement::Operator(e.rest@[i as int].operator)];
            self.resolve_expression1(&e.rest[i].operand, scope, errors);
            proof {
                lemma_expr_uses_one(ExprElement::Operator(e.rest@[i as int].operator));
                assert(resolve_uses((s1.symbol_table.symbols(), error_views(e1)), Seq::<Token>::empty(), sc, s1.symbol_table.defaults())
                    == (s1.symbol_table.symbols(), error_views(e1)));
                assert(s1.resolved_since(e1, s1, e1, op, sc));
                Self::lemma_resolved_chain(s0, e0, s1, e1, s1, e1, done, op, sc);
                Self::lemma_resolved_chain(s0, e0, s1, e1, *self, errors@, done + op, expression1_tokens(e.rest@[i as int].operand), sc);
                let post = e.rest@.subrange(0, i + 1);
                assert(post.drop_last() =~= e.rest@.subrange(0, i as int));
                assert(post.last() == e.rest@[i as int]);
                assert(done + op + expression1_tokens(e.rest@[i as int].operand) =~= expression1_tokens(e.first)
                    + tails_tokens(post));
            }
            i = i + 1;
        }
        proof {
            assert(e.rest@.subrange(0, i as int) =~= e.rest@);
        }
    }

    fn resolve_expression1(&mut self, x: &Expression1, scope: &Option<String>, errors: &mut Vec<AnalyzerError>)
        requires
            old(self).wf(),
        ensures
            final(self).resolved_since(final(errors)@, *old(self), old(errors)@, expression1_tokens(*x), scope_view(*scope)),
        decreases x,
    {
        self.resolve_factor(&x.factor, scope, errors);
        proof {
            let a = prefix_tokens(x.unary@);
            lemma_prefix_uses(x.unary@);
            lemma_expr_uses_append(a, factor_tokens(x.factor));
            assert(expr_uses(a) + expr_uses(factor_tokens(x.factor)) =~= expr_uses(factor_tokens(x.factor)));
        }
    }

    fn resolve_factor(&mut self, f: &Factor, scope: &Option<String>, errors: &mut Vec<AnalyzerError>)
        requires
            old(self).wf(),
        ensures
            final(self).resolved_since(final(errors)@, *old(self), old(errors)@, factor_tokens(*f), scope_view(*scope)),
        decreases f,
    {
        let ghost s0 = *self;
        let ghost e0 = errors@;
        let ghost sc = scope_view(*scope);
        match f {
            Factor::Number(t) => {
                proof {
                    assert(seq![ExprElement::Atom(*t)].drop_last() =~= Seq::<ExprElement>::empty());
                    lemma_expr_uses_one(ExprElement::Atom(*t));
                    assert(resolve_uses((s0.symbol_table.symbols(), error_views(e0)), Seq::<Token>::empty(), sc, s0.symbol_table.defaults())
                        == (s0.symbol_table.symbols(), error_views(e0)));
                }
            },
            Factor::Identifier { name, ranges } => {
                self.resolve_one(name, scope, errors);
                let ghost head = seq![ExprElement::Reference(*name)];
                proof {
                    assert(head.drop_last() =~= Seq::<ExprElement>::empty());
                    lemma_expr_uses_one(ExprElement::Reference(*name));
                    lemma_expr_uses_append(head, ranges_tokens(ranges@.subrange(0, 0)));
                }
                let mut i: usize = 0;
                while i < ranges.len()
                    invariant
                        *f is Identifier,
                        *ranges == f->ranges,
                        head == seq![ExprElement::Reference(f->name)],
                        sc == scope_view(*scope),
                        i <= ranges@.len(),
                        self.resolved_since(errors@, s0, e0, head + ranges_tokens(ranges@.subrange(0, i as int)), sc),
                    decreases ranges@.len() - i,
                {
                    let ghost s1 = *self;
                    let ghost e1 = errors@;
                    let ghost done = head + ranges_tokens(ranges@.subrange(0, i as int));
                    self.resolve_range(&ranges[i], scope, errors);
                    proof {
                        Self::lemma_resolved_chain(s0, e0, s1, e1, *self, errors@, done, range_tokens(ranges@[i as int]), sc);
                        let post = ranges@.subrange(0, i + 1);
                        assert(post.drop_last() =~= ranges@.subrange(0, i as int));
                        assert(post.last() == ranges@[i as int]);
                        assert(done + range_tokens(ranges@[i as int]) =~= head + ranges_tokens(post));
                    }
                    i = i + 1;
                }
                proof {
                    assert(ranges@.subrange(0, i as int) =~= ranges@);
                    assert(ranges_tokens(ranges@.subrange(0, 0)) =~= Seq::<ExprElement>::empty());
                }
            },
            Factor::Paren { l_paren, expression, r_paren } => {
                self.resolve_expression(expression, scope, errors);
                proof {
                    let a = seq![ExprElement::Atom(*l_paren)];
                    let b = expression_tokens(**expression);
                    let c = seq![ExprElement::Atom(*r_paren)];
                    assert(a.drop_last() =~= Seq::<ExprElement>::empty());
                    assert(c.drop_last() =~= Seq::<ExprElement>::empty());
                    lemma_expr_uses_one(ExprElement::Atom(*l_paren));
                    lemma_expr_uses_one(ExprElement::Atom(*r_paren));
                    lemma_expr_uses_append(a, b);
                    lemma_expr_uses_append(a + b, c);
                    assert(expr_uses(a) + expr_uses(b) =~= expr_uses(b));
                    assert(expr_uses(b) + expr_uses(c) =~= expr_uses(b));
                    assert(expr_uses(a + b + c) =~= expr_uses(b));
                }
            },
            Factor::Concatenation { l_brace, items, r_brace } => {
                let ghost head = seq![ExprElement::Atom(*l_brace)];
                proof {
                    Self::lemma_resolved_atom(s0, e0, *l_brace, sc);
                }
                let mut i: usize = 0;
                while i < items.len()
                    invariant
                        *f is Concatenation,
                        *items == f->items,
                        head == seq![ExprElement::Atom(f->l_brace)],
                        sc == scope_view(*scope),
                        i <= items@.len(),
                        self.resolved_since(errors@, s0, e0, head + items_tokens(items@.subrange(0, i as int)), sc),
                    decreases items@.len() - i,
                {
                    let ghost s1 = *self;
                    let ghost e1 = errors@;
                    let ghost done = head + items_tokens(items@.subrange(0, i as int));
                    let item = &items[i];
                    self.resolve_expression(&item.expression, scope, errors);
                    proof {
                        let et = expression_tokens(item.expression);
                        Self::lemma_resolved_chain(s0, e0, s1, e1, *self, errors@, done, et, sc);
                        match &item.comma {
                            Some(c) => {
                                Self::lemma_resolved_atom(*self, errors@, *c, sc);
                                Self::lemma_resolved_chain(s0, e0, *self, errors@, *self, errors@, done + et, seq![ExprElement::Atom(*c)], sc);
                                assert(done + et + seq![ExprElement::Atom(*c)] =~= done + item_tokens(*item));
                            },
                            None => {},
                        }
                        let post = items@.subrange(0, i + 1);
                        assert(post.drop_last() =~= items@.subrange(0, i as int));
                        assert(post.last() == items@[i as int]);
                        assert(done + item_tokens(items@[i as int]) =~= head + items_tokens(post));
                    }
                    i = i + 1;
                }
                proof {
                    assert(items@.subrange(0, i as int) =~= items@);
                    Self::lemma_resolved_atom(*self, errors@, *r_brace, sc);
                    Self::lemma_resolved_chain(s0, e0, *self, errors@, *self, errors@, head + items_tokens(items@), seq![ExprElement::Atom(*r_brace)], sc);
                }
            },
        }
    }

    proof fn lemma_resolved_atom(a: Analyzer, ea: Seq<AnalyzerError>, t: Token, scope: Option<Seq<char>>)
        requires
            a.wf(),
        ensures
            a.resolved_since(ea, a, ea, seq![ExprElement::Atom(t)], scope),
    {
        lemma_expr_uses_one(ExprElement::Atom(t));
        assert(resolve_uses((a.symbol_table.symbols(), error_views(ea)), Seq::<Token>::empty(), scope, a.symbol_table.defaults())
            == (a.symbol_table.symbols(), error_views(ea)));
    }

    fn resolve_range(&mut self, r: &Range, scope: &Option<String>, errors: &mut Vec<AnalyzerError>)
        requires
            old(self).wf(),
        ensures
            final(self).resolved_since(final(errors)@, *old(self), old(errors)@, range_tokens(*r), scope_view(*scope)),
        decreases r,
    {
        let ghost s0 = *self;
        let ghost e0 = errors@;
        let ghost sc = scope_view(*scope);
        self.resolve_expression(&r.expression, scope, errors);
        let ghost s1 = *self;
        let ghost e1 = errors@;
        let ghost a = seq![ExprElement::Atom(r.l_bracket)];
        let ghost z = seq![ExprElement::Atom(r.r_bracket)];
        proof {
            assert(a.drop_last() =~= Seq::<ExprElement>::empty());
            assert(z.drop_last() =~= Seq::<ExprElement>::empty());
            lemma_expr_uses_one(ExprElement::Atom(r.l_bracket));
            lemma_expr_uses_one(ExprElement::Atom(r.r_bracket));
            lemma_expr_uses_append(a, expression_tokens(r.expression));
            assert(expr_uses(a) + expr_uses(expression_tokens(r.expression)) =~= expr_uses(expression_tokens(r.expression)));
        }
        let ghost head = a + expression_tokens(r.expression);
        match &r.select {
            Some(x) => {
                self.resolve_expression(&x.expression, scope, errors);
                proof {
                    let c = seq![ExprElement::Atom(x.colon)];
                    lemma_expr_uses_one(ExprElement::Atom(x.colon));
                    lemma_expr_uses_append(head, c);
                    lemma_expr_uses_append(head + c, expression_tokens(x.expression));
                    lemma_expr_uses_append(head + c + expression_tokens(x.expression), z);
                    lemma_expr_uses_append(expression_tokens(r.expression), expression_tokens(x.expression));
                    assert(expr_uses(head + c + expression_tokens(x.expression) + z) =~= expr_uses(expression_tokens(r.expression) + expression_tokens(x.expression)));
                    lemma_resolve_uses_append(
                        (s0.symbol_table.symbols(), error_views(e0)),
                        expr_uses(expression_tokens(r.expression)),
                        expr_uses(expression_tokens(x.expression)),
                        sc,
                        s0.symbol_table.defaults(),
                    );
                }
            },
            None => {
                proof {
                    lemma_expr_uses_append(head, z);
                    assert(expr_uses(head + z) =~= expr_uses(expression_tokens(r.expression)));
                }
            },
        }
    }

    /// Resolves one use of a name in `scope`.
    fn resolve_one(&mut self, t: &Token, scope: &Option<String>, errors: &mut Vec<AnalyzerError>)
        requires
            old(self).wf(),
        ensures
            final(self).wf(),
            final(self).symbol_table.defaults() == old(self).symbol_table.defaults(),
            (final(self).symbol_table.symbols(), error_views(final(errors)@)) == resolve_uses(
                (old(self).symbol_table.symbols(), error_views(old(errors)@)),
                seq![*t],
                scope_view(*scope),
                old(self).symbol_table.defaults(),
            ),
    {
        let ghost st = (self.symbol_table.symbols(), error_views(errors@));
        let ghost defaults = self.symbol_table.defaults();
        proof {
            assert(seq![*t].drop_last() =~= Seq::<Token>::empty());
            assert(seq![*t].last() == *t);
            assert(resolve_uses(st, seq![*t].drop_last(), scope_view(*scope), defaults) == st);
        }
        match self.symbol_table.resolve(&t.text, scope) {
            Some(id) => {
                self.symbol_table.record_reference(id, t.location);
            },
            None => {
                let ghost e0 = errors@;
                errors.push(AnalyzerError { kind: ErrorKind::UnresolvedReference, name: t.text.clone(), location: t.location });
                proof {
                    assert(error_views(errors@) =~= error_views(e0).push(error_at(ErrorKind::UnresolvedReference, *t)));
                }
            },
        }
    }
}

} // verus!
