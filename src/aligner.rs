use vstd::prelude::*;
use crate::align::{
    Align, GroupState, all_zero, close, initial_state, lemma_uniform_widths_pad_nothing, paddings,
    place, place_from, uniform,
};
use crate::location::{Additions, Location, add_maps, bump, sat_add};
use crate::syntax::{
    Declaration, Direction, ExprElement, Expression, Expression1, Factor, Range, Token, Type, Veryl,
    Width, expression1_tokens, expression_tokens, factor_tokens, item_tokens, items_tokens, prefix_tokens, lemma_expression_tokens_nonempty,
    lemma_measure_append, lemma_measure_one, measure_element, measure_expr, measure_width,
    measure_widths, range_tokens, ranges_tokens, tails_tokens,
};

verus! {

/// The four independent alignment kinds.
pub enum AlignKind {
    Identifier,
    Type,
    Expression,
    Width,
}

/// The item of a declared name: its location and its length.
pub open spec fn name_cell(t: Token) -> (Location, usize) {
    (t.location, t.location.length)
}

/// The item of a type in the type column.
pub open spec fn type_cell(t: Type) -> (Location, usize) {
    (t.name.location, t.name.location.length)
}

/// The item of a type in the width column: a zero-width slot at the type name when it has
/// no width annotation, else the measured annotations ending at the last closing bracket.
pub open spec fn width_cell(t: Type) -> (Location, usize) {
    if t.widths@.len() == 0 {
        (t.name.location, 0)
    } else {
        (t.widths@.last().r_bracket.location, measure_widths(0, t.widths@))
    }
}

/// The item of a parameter's value in the expression column.
pub open spec fn expression_cell(e: Expression) -> (Location, usize) {
    (expression_tokens(e).last().token().location, measure_expr(0, expression_tokens(e)))
}

/// The item that `d` adds to kind `k`, if any.
pub open spec fn declaration_cell(d: Declaration, k: AlignKind) -> Option<(Location, usize)> {
    match d {
        Declaration::Variable { name, ty, .. } | Declaration::Parameter { name, ty, .. }
        | Declaration::Localparam { name, ty, .. } | Declaration::Port { name, ty, .. } => match k {
            AlignKind::Identifier => Some(name_cell(name)),
            AlignKind::Type => Some(type_cell(ty)),
            AlignKind::Width => Some(width_cell(ty)),
            AlignKind::Expression => None,
        },
        Declaration::WithParameter { name, ty, value, .. } => match k {
            AlignKind::Identifier => Some(name_cell(name)),
            AlignKind::Type => Some(type_cell(ty)),
            AlignKind::Width => Some(width_cell(ty)),
            AlignKind::Expression => Some(expression_cell(value)),
        },
        Declaration::Assignment { target, .. } => match k {
            AlignKind::Identifier => Some(name_cell(target)),
            _ => None,
        },
        _ => None,
    }
}

/// The items of kind `k` that the declarations `ds` produce, in order.
pub open spec fn kind_cells(ds: Seq<Declaration>, k: AlignKind) -> Seq<(Location, usize)>
    decreases ds.len(),
{
    if ds.len() == 0 {
        Seq::empty()
    } else {
        match declaration_cell(ds.last(), k) {
            Some(c) => kind_cells(ds.drop_last(), k).push(c),
            None => kind_cells(ds.drop_last(), k),
        }
    }
}

/// The keyword that earns `d` one column of padding: `parameter`, `input` and `inout`
/// are one column narrower than `localparam`'s slot and `output`.
pub open spec fn declaration_credit(d: Declaration) -> Option<Location> {
    match d {
        Declaration::Parameter { keyword, .. } => Some(keyword.location),
        Declaration::WithParameter { parameter, .. } => match parameter {
            Some(t) => Some(t.location),
            None => None,
        },
        Declaration::Port { direction, .. } => match direction {
            Direction::Input(t) => Some(t.location),
            Direction::Output(_) => None,
            Direction::Inout(t) => Some(t.location),
        },
        _ => None,
    }
}

/// `m` with one column added at each keyword credit of `ds`.
pub open spec fn add_credits(m: Map<Location, usize>, ds: Seq<Declaration>) -> Map<Location, usize>
    decreases ds.len(),
{
    if ds.len() == 0 {
        m
    } else {
        let m0 = add_credits(m, ds.drop_last());
        match declaration_credit(ds.last()) {
            Some(l) => bump(m0, l, 1),
            None => m0,
        }
    }
}

/// The settled state of kind `k` after the declarations `ds`, starting from `s`.
pub open spec fn kind_state(s: GroupState, ds: Seq<Declaration>, k: AlignKind) -> GroupState {
    place_from(s, kind_cells(ds, k))
}

/// The padding map of a fresh aligner run over `ds`: the keyword credits plus the
/// paddings of the four kinds, summed where they meet.
pub open spec fn aligned(ds: Seq<Declaration>) -> Map<Location, usize> {
    add_maps(
        add_maps(
            add_maps(
                add_maps(
                    add_credits(Map::empty(), ds),
                    close(kind_state(initial_state(), ds, AlignKind::Identifier)).out,
                ),
                close(kind_state(initial_state(), ds, AlignKind::Type)).out,
            ),
            close(kind_state(initial_state(), ds, AlignKind::Expression)).out,
        ),
        close(kind_state(initial_state(), ds, AlignKind::Width)).out,
    )
}

/// The kinds align independently: the paddings of kind `k` are a function of that kind's
/// own items, so when those all have one width the kind pads nothing, whatever widths the
/// other kinds see.
pub proof fn lemma_kinds_independent(ds: Seq<Declaration>, k: AlignKind, w: usize)
    requires
        uniform(kind_cells(ds, k), w),
    ensures
        close(kind_state(initial_state(), ds, k)).out == paddings(kind_cells(ds, k)),
        all_zero(close(kind_state(initial_state(), ds, k)).out),
{
    lemma_uniform_widths_pad_nothing(kind_cells(ds, k), w);
}

/// Computes the column-alignment padding of a source file.
pub struct Aligner {
    pub additions: Additions,
    identifier: Align,
    ty: Align,
    expression: Align,
    width: Align,
}

impl Aligner {
    pub closed spec fn wf(&self) -> bool {
        &&& self.additions.wf()
        &&& self.identifier.wf()
        &&& self.ty.wf()
        &&& self.expression.wf()
        &&& self.width.wf()
    }

    /// The padding computed so far.
    pub closed spec fn padding(&self) -> Map<Location, usize> {
        self.additions@
    }

    /// The state that `new` returns.
    pub open spec fn is_fresh(&self) -> bool {
        &&& self.padding() == Map::<Location, usize>::empty()
        &&& forall|k: AlignKind| #[trigger] self.cursor(k).state() == initial_state()
    }

    /// The padding map, as `padding` describes it.
    pub fn additions(&self) -> (r: &Additions)
        requires
            self.wf(),
        ensures
            r.wf(),
            r@ == self.padding(),
    {
        &self.additions
    }

    /// The cursor of kind `k`.
    pub closed spec fn cursor(&self, k: AlignKind) -> Align {
        match k {
            AlignKind::Identifier => self.identifier,
            AlignKind::Type => self.ty,
            AlignKind::Expression => self.expression,
            AlignKind::Width => self.width,
        }
    }

    pub fn new() -> (r: Aligner)
        ensures
            r.wf(),
            r.is_fresh(),
    {
        Aligner {
            additions: Additions::new(),
            identifier: Align::new(),
            ty: Align::new(),
            expression: Align::new(),
            width: Align::new(),
        }
    }

    /// Computes the padding of every location of `input` that needs some into `additions`.
    /// It starts from a clean state, so what the aligner held before does not matter: running
    /// it again on the same tree gives the same map. Every kind's last group is closed.
    pub fn align(&mut self, input: &Veryl)
        ensures
            final(self).wf(),
            final(self).padding() == aligned(input.declarations@),
            forall|k: AlignKind| #[trigger] final(self).cursor(k).state() == close(
                kind_state(initial_state(), input.declarations@, k),
            ),
    {
        *self = Aligner::new();
        let ghost s0 = *self;
        let ghost ds = input.declarations@;
        let mut i: usize = 0;
        while i < input.declarations.len()
            invariant
                self.wf(),
                ds == input.declarations@,
                i <= ds.len(),
                self.additions@ == add_credits(s0.additions@, ds.subrange(0, i as int)),
                forall|k: AlignKind| #[trigger] self.cursor(k).state() == kind_state(
                    s0.cursor(k).state(),
                    ds.subrange(0, i as int),
                    k,
                ),
            decreases ds.len() - i,
        {
            self.declaration(&input.declarations[i]);
            proof {
                let pre = ds.subrange(0, i as int);
                let post = ds.subrange(0, i + 1);
                assert(post.drop_last() =~= pre);
                assert(post.last() == ds[i as int]);
                assert forall|k: AlignKind| #[trigger] self.cursor(k).state() == kind_state(
                    s0.cursor(k).state(),
                    post,
                    k,
                ) by {
                    match declaration_cell(ds[i as int], k) {
                        Some(c) => {
                            assert(kind_cells(post, k).drop_last() =~= kind_cells(pre, k));
                        },
                        None => {},
                    }
                }
            }
            i = i + 1;
        }
        proof {
            assert(ds.subrange(0, i as int) =~= ds);
        }
        self.finish_group();
        assert(self.identifier.state() == self.cursor(AlignKind::Identifier).state());
        assert(self.ty.state() == self.cursor(AlignKind::Type).state());
        assert(self.expression.state() == self.cursor(AlignKind::Expression).state());
        assert(self.width.state() == self.cursor(AlignKind::Width).state());
        assert(s0.identifier.state() == s0.cursor(AlignKind::Identifier).state());
        let mut merged = Additions::new();
        proof {
            assert(merged@ == Map::<Location, usize>::empty());
        }
        merged.merge(&self.additions);
        assert(merged@ =~= self.additions@);
        merged.merge(self.identifier.additions());
        merged.merge(self.ty.additions());
        merged.merge(self.expression.additions());
        merged.merge(self.width.additions());
        self.additions = merged;
    }

    fn finish_group(&mut self)
        requires
            old(self).wf(),
        ensures
            final(self).wf(),
            final(self).padding() == old(self).padding(),
            forall|k: AlignKind| #[trigger] final(self).cursor(k).state() == close(old(self).cursor(k).state()),
    {
        self.identifier.finish_group();
        self.ty.finish_group();
        self.expression.finish_group();
        self.width.finish_group();
    }

    fn insert(&mut self, token: &Token, width: usize)
        requires
            old(self).wf(),
        ensures
            final(self).wf(),
            final(self).padding() == bump(old(self).padding(), token.location, width),
            final(self).identifier == old(self).identifier,
            final(self).ty == old(self).ty,
            final(self).expression == old(self).expression,
            final(self).width == old(self).width,
    {
        self.additions.add(token.location, width);
    }

    fn identifier(&mut self, t: &Token)
        requires
            old(self).wf(),
        ensures
            final(self).wf(),
            final(self).padding() == old(self).padding(),
            final(self).identifier.state() == place(old(self).identifier.state(), name_cell(*t)),
            final(self).ty == old(self).ty,
            final(self).expression == old(self).expression,
            final(self).width == old(self).width,
    {
        self.identifier.start_item();
        self.identifier.token(&t.location);
        self.identifier.finish_item();
    }

    /// The expression and width columns have measured `done` since `s`; the rest is as in `s`.
    spec fn measured_since(&self, s: Aligner, done: Seq<ExprElement>) -> bool {
        &&& self.wf()
        &&& self.padding() == s.padding()
        &&& self.identifier == s.identifier
        &&& self.ty == s.ty
        &&& self.expression.state() == s.expression.state()
        &&& self.width.state() == s.width.state()
        &&& self.expression.item_width() == measure_expr(s.expression.item_width(), done)
        &&& self.width.item_width() == measure_expr(s.width.item_width(), done)
        &&& done.len() > 0 ==> self.expression.item_last() == Some(done.last().token().location)
        &&& done.len() > 0 ==> self.width.item_last() == Some(done.last().token().location)
        &&& done.len() == 0 ==> self.expression.item_last() == s.expression.item_last()
        &&& done.len() == 0 ==> self.width.item_last() == s.width.item_last()
    }

    proof fn lemma_measured_start(&self)
        requires
            self.wf(),
        ensures
            self.measured_since(*self, Seq::empty()),
    {
    }

    proof fn lemma_measured_chain(a: Aligner, b: Aligner, c: Aligner, x: Seq<ExprElement>, y: Seq<ExprElement>)
        requires
            b.measured_since(a, x),
            c.measured_since(b, y),
        ensures
            c.measured_since(a, x + y),
    {
        lemma_measure_append(a.expression.item_width(), x, y);
        lemma_measure_append(a.width.item_width(), x, y);
        if y.len() == 0 {
            assert(x + y =~= x);
        } else {
            assert((x + y).last() == y.last());
        }
    }

    /// Measures one token into the expression and width columns.
    fn token_into(&mut self, t: &Token, spaced: bool, Ghost(x): Ghost<ExprElement>)
        requires
            old(self).wf(),
            x.token() == *t,
            spaced == (x is Operator),
        ensures
            final(self).measured_since(*old(self), seq![x]),
    {
        proof {
            lemma_measure_one(self.expression.item_width(), x);
            lemma_measure_one(self.width.item_width(), x);
        }
        if spaced {
            self.expression.space(1);
            self.width.space(1);
            self.expression.token(&t.location);
            self.width.token(&t.location);
            self.expression.space(1);
            self.width.space(1);
        } else {
            self.expression.token(&t.location);
            self.width.token(&t.location);
        }
    }

    fn expression(&mut self, e: &Expression)
        requires
            old(self).wf(),
        ensures
            final(self).measured_since(*old(self), expression_tokens(*e)),
        decreases e,
    {
        let ghost s0 = *self;
        self.expression1(&e.first);
        let mut i: usize = 0;
        while i < e.rest.len()
            invariant
                i <= e.rest@.len(),
                self.measured_since(s0, expression1_tokens(e.first) + tails_tokens(e.rest@.subrange(0, i as int))),
            decreases e.rest@.len() - i,
        {
            let ghost s1 = *self;
            let ghost done = expression1_tokens(e.first) + tails_tokens(e.rest@.subrange(0, i as int));
            let ghost op = seq![ExprElement::Operator(e.rest@[i as int].operator)];
            self.token_into(&e.rest[i].operator, true, Ghost(ExprElement::Operator(e.rest@[i as int].operator)));
            let ghost s2 = *self;
            self.expression1(&e.rest[i].operand);
            proof {
                Self::lemma_measured_chain(s0, s1, s2, done, op);
                Self::lemma_measured_chain(s0, s2, *self, done + op, expression1_tokens(e.rest@[i as int].operand));
                let post = e.rest@.subrange(0, i + 1);
                assert(post.drop_last() =~= e.rest@.subrange(0, i as int));
                assert(post.last() == e.rest@[i as int]);
                assert(done + op + expression1_tokens(e.rest@[i as int].operand) =~= expression1_tokens(e.first)
                    + tails_tokens(post));
            }
            i = i + 1;
        }
        proof {
            assert(e.rest@.subrange(0, i as int) =~= e.rest@);
        }
    }

    fn expression1(&mut self, x: &Expression1)
        requires
            old(self).wf(),
        ensures
            final(self).measured_since(*old(self), expression1_tokens(*x)),
        decreases x,
    {
        let ghost s0 = *self;
        proof {
            s0.lemma_measured_start();
        }
        let mut i: usize = 0;
        while i < x.unary.len()
            invariant
                i <= x.unary@.len(),
                self.measured_since(s0, prefix_tokens(x.unary@.subrange(0, i as int))),
            decreases x.unary@.len() - i,
        {
            let ghost s1 = *self;
            let ghost done = prefix_tokens(x.unary@.subrange(0, i as int));
            self.token_into(&x.unary[i], false, Ghost(ExprElement::Atom(x.unary@[i as int])));
            proof {
                Self::lemma_measured_chain(s0, s1, *self, done, seq![ExprElement::Atom(x.unary@[i as int])]);
                let post = x.unary@.subrange(0, i + 1);
                assert(post.drop_last() =~= x.unary@.subrange(0, i as int));
                assert(done + seq![ExprElement::Atom(x.unary@[i as int])] =~= prefix_tokens(post));
            }
            i = i + 1;
        }
        proof {
            assert(x.unary@.subrange(0, i as int) =~= x.unary@);
        }
        let ghost s1 = *self;
        self.factor(&x.factor);
        proof {
            Self::lemma_measured_chain(s0, s1, *self, prefix_tokens(x.unary@), factor_tokens(x.factor));
        }
    }

    fn factor(&mut self, f: &Factor)
        requires
            old(self).wf(),
        ensures
            final(self).measured_since(*old(self), factor_tokens(*f)),
        decreases f,
    {
        let ghost s0 = *self;
        match f {
            Factor::Number(t) => {
                self.token_into(t, false, Ghost(ExprElement::Atom(*t)));
            },
            Factor::Identifier { name, ranges } => {
                self.token_into(name, false, Ghost(ExprElement::Reference(*name)));
                let ghost head = seq![ExprElement::Reference(*name)];
                let mut i: usize = 0;
                while i < ranges.len()
                    invariant
                        *f is Identifier,
                        *ranges == f->ranges,
                        head == seq![ExprElement::Reference(f->name)],
                        i <= ranges@.len(),
                        self.measured_since(s0, head + ranges_tokens(ranges@.subrange(0, i as int))),
                    decreases ranges@.len() - i,
                {
                    let ghost s1 = *self;
                    let ghost done = head + ranges_tokens(ranges@.subrange(0, i as int));
                    self.range(&ranges[i]);
                    proof {
                        Self::lemma_measured_chain(s0, s1, *self, done, range_tokens(ranges@[i as int]));
                        let post = ranges@.subrange(0, i + 1);
                        assert(post.drop_last() =~= ranges@.subrange(0, i as int));
                        assert(post.last() == ranges@[i as int]);
                        assert(done + range_tokens(ranges@[i as int]) =~= head + ranges_tokens(post));
                    }
                    i = i + 1;
                }
                proof {
                    assert(ranges@.subrange(0, i as int) =~= ranges@);
                }
            },
            Factor::Paren { l_paren, expression, r_paren } => {
                self.token_into(l_paren, false, Ghost(ExprElement::Atom(*l_paren)));
                let ghost s1 = *self;
                self.expression(expression);
                let ghost s2 = *self;
                self.token_into(r_paren, false, Ghost(ExprElement::Atom(*r_paren)));
                proof {
                    let a = seq![ExprElement::Atom(*l_paren)];
                    let b = expression_tokens(**expression);
                    let c = seq![ExprElement::Atom(*r_paren)];
                    Self::lemma_measured_chain(s0, s1, s2, a, b);
                    Self::lemma_measured_chain(s0, s2, *self, a + b, c);
                }
            },
            Factor::Concatenation { l_brace, items, r_brace } => {
                self.token_into(l_brace, false, Ghost(ExprElement::Atom(*l_brace)));
                let ghost head = seq![ExprElement::Atom(*l_brace)];
                let mut i: usize = 0;
                while i < items.len()
                    invariant
                        *f is Concatenation,
                        *items == f->items,
                        head == seq![ExprElement::Atom(f->l_brace)],
                        i <= items@.len(),
                        self.measured_since(s0, head + items_tokens(items@.subrange(0, i as int))),
                    decreases items@.len() - i,
                {
                    let ghost s1 = *self;
                    let ghost done = head + items_tokens(items@.subrange(0, i as int));
                    let item = &items[i];
                    self.expression(&item.expression);
                    let ghost s2 = *self;
                    let ghost et = expression_tokens(item.expression);
                    proof {
                        Self::lemma_measured_chain(s0, s1, s2, done, et);
                    }
                    match &item.comma {
                        Some(c) => {
                            self.token_into(c, false, Ghost(ExprElement::Atom(*c)));
                            proof {
                                Self::lemma_measured_chain(s0, s2, *self, done + et, seq![ExprElement::Atom(*c)]);
                                assert(done + et + seq![ExprElement::Atom(*c)] =~= done + item_tokens(*item));
                            }
                        },
                        None => {},
                    }
                    proof {
                        let post = items@.subrange(0, i + 1);
                        assert(post.drop_last() =~= items@.subrange(0, i as int));
                        assert(post.last() == items@[i as int]);
                        assert(done + item_tokens(items@[i as int]) =~= head + items_tokens(post));
                    }
                    i = i + 1;
                }
                proof {
                    assert(items@.subrange(0, i as int) =~= items@);
                }
                let ghost s3 = *self;
                self.token_into(r_brace, false, Ghost(ExprElement::Atom(*r_brace)));
                proof {
                    Self::lemma_measured_chain(s0, s3, *self, head + items_tokens(items@), seq![ExprElement::Atom(*r_brace)]);
                }
            },
        }
    }

    fn range(&mut self, r: &Range)
        requires
            old(self).wf(),
        ensures
            final(self).measured_since(*old(self), range_tokens(*r)),
        decreases r,
    {
        let ghost s0 = *self;
        self.token_into(&r.l_bracket, false, Ghost(ExprElement::Atom(r.l_bracket)));
        let ghost s1 = *self;
        self.expression(&r.expression);
        let ghost a = seq![ExprElement::Atom(r.l_bracket)];
        let ghost head = a + expression_tokens(r.expression);
        proof {
            Self::lemma_measured_chain(s0, s1, *self, a, expression_tokens(r.expression));
        }
        let ghost s2 = *self;
        match &r.select {
            Some(x) => {
                self.token_into(&x.colon, false, Ghost(ExprElement::Atom(x.colon)));
                let ghost s3 = *self;
                self.expression(&x.expression);
                proof {
                    let c = seq![ExprElement::Atom(x.colon)];
                    Self::lemma_measured_chain(s0, s2, s3, head, c);
                    Self::lemma_measured_chain(s0, s3, *self, head + c, expression_tokens(x.expression));
                }
            },
            None => {
                proof {
                    s2.lemma_measured_start();
                    Self::lemma_measured_chain(s0, s2, *self, head, Seq::empty());
                    assert(head + Seq::<ExprElement>::empty() =~= head);
                }
            },
        }
        let ghost body = match &r.select {
            Some(x) => head + seq![ExprElement::Atom(x.colon)] + expression_tokens(x.expression),
            None => head,
        };
        let ghost s4 = *self;
        self.token_into(&r.r_bracket, false, Ghost(ExprElement::Atom(r.r_bracket)));
        proof {
            Self::lemma_measured_chain(s0, s4, *self, body, seq![ExprElement::Atom(r.r_bracket)]);
        }
    }

    fn width(&mut self, x: &Width)
        requires
            old(self).wf(),
        ensures
            final(self).wf(),
            final(self).padding() == old(self).padding(),
            final(self).identifier == old(self).identifier,
            final(self).ty == old(self).ty,
            final(self).expression.state() == old(self).expression.state(),
            final(self).width.state() == old(self).width.state(),
            final(self).expression.item_width() == measure_width(old(self).expression.item_width(), *x),
            final(self).width.item_width() == measure_width(old(self).width.item_width(), *x),
            final(self).expression.item_last() == Some(x.r_bracket.location),
            final(self).width.item_last() == Some(x.r_bracket.location),
    {
        self.expression.token(&x.l_bracket.location);
        self.width.token(&x.l_bracket.location);
        self.expression(&x.expression);
        proof {
            lemma_expression_tokens_nonempty(x.expression);
        }
        self.expression.space(4);
        self.width.space(4);
        self.expression.token(&x.r_bracket.location);
        self.width.token(&x.r_bracket.location);
    }

    fn type_(&mut self, t: &Type)
        requires
            old(self).wf(),
        ensures
            final(self).wf(),
            final(self).padding() == old(self).padding(),
            final(self).identifier == old(self).identifier,
            final(self).ty.state() == place(old(self).ty.state(), type_cell(*t)),
            final(self).expression.state() == old(self).expression.state(),
            final(self).width.state() == place(old(self).width.state(), width_cell(*t)),
    {
        self.ty.start_item();
        self.ty.token(&t.name.location);
        self.ty.finish_item();
        if t.widths.len() == 0 {
            self.width.start_item();
            self.width.dummy_token(&t.name.location);
            self.width.finish_item();
        } else {
            self.width.start_item();
            let ghost s0 = *self;
            let mut i: usize = 0;
            while i < t.widths.len()
                invariant
                    self.wf(),
                    0 < t.widths@.len(),
                    i <= t.widths@.len(),
                    self.padding() == s0.padding(),
                    self.identifier == s0.identifier,
                    self.ty == s0.ty,
                    self.expression.state() == s0.expression.state(),
                    self.width.state() == s0.width.state(),
                    self.width.item_width() == measure_widths(0, t.widths@.subrange(0, i as int)),
                    i > 0 ==> self.width.item_last() == Some(t.widths@[i - 1].r_bracket.location),
                decreases t.widths@.len() - i,
            {
                self.width(&t.widths[i]);
                proof {
                    assert(t.widths@.subrange(0, i + 1).drop_last() =~= t.widths@.subrange(0, i as int));
                }
                i = i + 1;
            }
            proof {
                assert(t.widths@.subrange(0, i as int) =~= t.widths@);
            }
            self.width.finish_item();
        }
    }

    fn direction(&mut self, d: &Direction)
        requires
            old(self).wf(),
        ensures
            final(self).wf(),
            final(self).identifier == old(self).identifier,
            final(self).ty == old(self).ty,
            final(self).expression == old(self).expression,
            final(self).width == old(self).width,
            final(self).padding() == match *d {
                Direction::Input(t) => bump(old(self).padding(), t.location, 1),
                Direction::Output(_) => old(self).padding(),
                Direction::Inout(t) => bump(old(self).padding(), t.location, 1),
            },
    {
        match d {
            Direction::Input(t) => self.insert(t, 1),
            Direction::Output(_) => {},
            Direction::Inout(t) => self.insert(t, 1),
        }
    }

    fn declaration(&mut self, d: &Declaration)
        requires
            old(self).wf(),
        ensures
            final(self).wf(),
            final(self).padding() == match declaration_credit(*d) {
                Some(l) => bump(old(self).padding(), l, 1),
                None => old(self).padding(),
            },
            forall|k: AlignKind| #[trigger] final(self).cursor(k).state() == match declaration_cell(*d, k) {
                Some(c) => place(old(self).cursor(k).state(), c),
                None => old(self).cursor(k).state(),
            },
    {
        match d {
            Declaration::Module { .. } | Declaration::Interface { .. } => {},
            Declaration::Variable { name, ty, .. } | Declaration::Localparam { name, ty, .. } => {
                self.identifier(name);
                self.type_(ty);
            },
            Declaration::Parameter { keyword, name, ty, .. } => {
                self.insert(keyword, 1);
                self.identifier(name);
                self.type_(ty);
            },
            Declaration::WithParameter { parameter, name, ty, value } => {
                match parameter {
                    Some(k) => self.insert(k, 1),
                    None => {},
                }
                self.identifier(name);
                self.type_(ty);
                self.expression.start_item();
                self.expression(value);
                proof {
                    lemma_expression_tokens_nonempty(*value);
                }
                self.expression.finish_item();
            },
            Declaration::Port { name, direction, ty } => {
                self.identifier(name);
                self.direction(direction);
                self.type_(ty);
            },
            Declaration::Assignment { target, .. } => {
                self.identifier(target);
            },
            Declaration::Statement { .. } => {},
        }
        proof {
            let ki = AlignKind::Identifier;
            let kt = AlignKind::Type;
            let ke = AlignKind::Expression;
            let kw = AlignKind::Width;
            assert(self.cursor(ki).state() == match declaration_cell(*d, ki) {
                Some(c) => place(old(self).cursor(ki).state(), c),
                None => old(self).cursor(ki).state(),
            });
            assert(self.cursor(kt).state() == match declaration_cell(*d, kt) {
                Some(c) => place(old(self).cursor(kt).state(), c),
                None => old(self).cursor(kt).state(),
            });
            assert(self.cursor(ke).state() == match declaration_cell(*d, ke) {
                Some(c) => place(old(self).cursor(ke).state(), c),
                None => old(self).cursor(ke).state(),
            });
            assert(self.cursor(kw).state() == match declaration_cell(*d, kw) {
                Some(c) => place(old(self).cursor(kw).state(), c),
                None => old(self).cursor(kw).state(),
            });
        }
    }
}

} // verus!
