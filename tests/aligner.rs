use veryl_core::aligner::Aligner;
use veryl_core::location::{Additions, Location};
use veryl_core::syntax::{
    builtin_type_text, BuiltinType, ConcatenationItem, Declaration, Direction, Expression, Expression1, ExpressionTail, Factor, Range, RangeSelect, Token, Type,
    Veryl, Width,
};

fn tok(line: usize, column: usize, text: &str) -> Token {
    Token {
        location: Location { line, column, length: text.len() },
        text: text.to_string(),
    }
}

fn operand(factor: Factor) -> Expression1 {
    Expression1 { unary: Vec::new(), factor }
}

fn number(line: usize, column: usize, text: &str) -> Expression {
    Expression { first: operand(Factor::Number(tok(line, column, text))), rest: Vec::new() }
}

fn logic(line: usize, column: usize) -> Type {
    Type { name: tok(line, column, "logic"), widths: Vec::new() }
}

fn var(line: usize, name: &str) -> Declaration {
    Declaration::Variable { name: tok(line, 5, name), ty: logic(line, 20), allow_unused: false }
}

fn run(declarations: Vec<Declaration>) -> Additions {
    let mut aligner = Aligner::new();
    aligner.align(&Veryl { declarations });
    aligner.additions
}

fn pad(a: &Additions, line: usize, column: usize, length: usize) -> Option<usize> {
    a.get(&Location { line, column, length })
}

#[test]
fn consecutive_identifiers_align_to_the_widest() {
    let a = run(vec![var(1, "abc"), var(2, "abcdefg")]);
    assert_eq!(pad(&a, 1, 5, 3), Some(4));
    assert_eq!(pad(&a, 2, 5, 7), Some(0));
}

#[test]
fn blank_line_separates_groups() {
    let a = run(vec![var(1, "abc"), var(3, "abcdefg")]);
    assert_eq!(pad(&a, 1, 5, 3), Some(0));
    assert_eq!(pad(&a, 3, 5, 7), Some(0));
}

fn width_of(line: usize, column: usize, digits: &str) -> Width {
    Width {
        l_bracket: tok(line, column, "["),
        expression: number(line, column + 1, digits),
        r_bracket: tok(line, column + 1 + digits.len(), "]"),
    }
}

#[test]
fn kinds_align_independently() {
    let d1 = Declaration::Variable {
        name: tok(1, 5, "aa"),
        ty: Type { name: tok(1, 10, "logic"), widths: vec![width_of(1, 15, "8")] },
        allow_unused: false,
    };
    let d2 = Declaration::Variable {
        name: tok(2, 5, "bb"),
        ty: Type { name: tok(2, 10, "logic"), widths: vec![width_of(2, 15, "128")] },
        allow_unused: false,
    };
    let a = run(vec![d1, d2]);
    assert_eq!(pad(&a, 1, 5, 2), Some(0));
    assert_eq!(pad(&a, 2, 5, 2), Some(0));
    assert_eq!(pad(&a, 1, 10, 5), Some(0));
    assert_eq!(pad(&a, 2, 10, 5), Some(0));
    // "[8]" measures 1 + 1 + 4 + 1 = 7, "[128]" measures 9.
    assert_eq!(pad(&a, 1, 17, 1), Some(2));
    assert_eq!(pad(&a, 2, 19, 1), Some(0));
}

#[test]
fn type_without_width_reserves_an_empty_slot() {
    let d1 = Declaration::Variable { name: tok(1, 5, "a"), ty: logic(1, 10), allow_unused: false };
    let d2 = Declaration::Variable {
        name: tok(2, 5, "b"),
        ty: Type { name: tok(2, 10, "logic"), widths: vec![width_of(2, 15, "8")] },
        allow_unused: false,
    };
    let a = run(vec![d1, d2]);
    assert_eq!(pad(&a, 1, 10, 5), Some(7));
    assert_eq!(pad(&a, 2, 17, 1), Some(0));
}

#[test]
fn parameter_and_direction_keywords_get_one_column() {
    let p = Declaration::Parameter {
        keyword: tok(1, 1, "parameter"),
        name: tok(1, 11, "W"),
        ty: logic(1, 14),
        value: number(1, 22, "1"),
    };
    let i = Declaration::Port { name: tok(5, 5, "i"), direction: Direction::Input(tok(5, 8, "input")), ty: logic(5, 14) };
    let o = Declaration::Port { name: tok(6, 5, "o"), direction: Direction::Output(tok(6, 8, "output")), ty: logic(6, 15) };
    let a = run(vec![p, i, o]);
    assert_eq!(pad(&a, 1, 1, 9), Some(1));
    assert_eq!(pad(&a, 5, 8, 5), Some(1));
    assert_eq!(pad(&a, 6, 8, 6), None);
}

#[test]
fn parameter_values_align_with_spaced_operators() {
    let upper = Declaration::WithParameter {
        parameter: Some(tok(1, 1, "parameter")),
        name: tok(1, 11, "A"),
        ty: logic(1, 14),
        value: Expression {
            first: operand(Factor::Number(tok(1, 22, "1"))),
            rest: vec![ExpressionTail { operator: tok(1, 24, "+"), operand: operand(Factor::Number(tok(1, 26, "22"))) }],
        },
    };
    let lower = Declaration::WithParameter {
        parameter: None,
        name: tok(2, 12, "B"),
        ty: logic(2, 15),
        value: number(2, 23, "3"),
    };
    let a = run(vec![upper, lower]);
    // "1 + 22" measures 6, "3" measures 1.
    assert_eq!(pad(&a, 1, 26, 2), Some(0));
    assert_eq!(pad(&a, 2, 23, 1), Some(5));
    assert_eq!(pad(&a, 1, 1, 9), Some(1));
}

#[test]
fn align_twice_gives_identical_maps() {
    let make = || vec![var(1, "abc"), var(2, "abcdefg"), var(4, "x")];
    let a = run(make());
    let b = run(make());
    assert_eq!(a.len(), b.len());
    for i in 0..a.len() {
        let (l, v) = a.entry(i);
        assert_eq!(b.get(&l), Some(v));
    }
}

#[test]
fn additions_add_sums_and_set_replaces() {
    let l = Location { line: 1, column: 2, length: 3 };
    let mut a = Additions::new();
    a.add(l, 2);
    a.add(l, 3);
    assert_eq!(a.get(&l), Some(5));
    a.set(l, 1);
    assert_eq!(a.get(&l), Some(1));
    let mut b = Additions::new();
    b.add(l, 4);
    b.add(Location { line: 9, column: 9, length: 9 }, 7);
    a.merge(&b);
    assert_eq!(a.get(&l), Some(5));
    assert_eq!(a.len(), 2);
}

#[test]
fn selects_parentheses_and_unary_operators_are_measured() {
    // -(a[7:0]) measures 1 + 1 + 1 + 1 + 1 + 1 + 1 + 1 + 1 = 9 columns.
    let select = Range {
        l_bracket: tok(1, 25, "["),
        expression: number(1, 26, "7"),
        select: Some(RangeSelect { colon: tok(1, 27, ":"), expression: number(1, 28, "0") }),
        r_bracket: tok(1, 29, "]"),
    };
    let inner = Expression {
        first: operand(Factor::Identifier { name: tok(1, 24, "a"), ranges: vec![select] }),
        rest: Vec::new(),
    };
    let value = Expression {
        first: Expression1 {
            unary: vec![tok(1, 22, "-")],
            factor: Factor::Paren { l_paren: tok(1, 23, "("), expression: Box::new(inner), r_paren: tok(1, 30, ")") },
        },
        rest: Vec::new(),
    };
    let upper = Declaration::WithParameter { parameter: None, name: tok(1, 12, "A"), ty: logic(1, 15), value };
    let lower = Declaration::WithParameter { parameter: None, name: tok(2, 12, "B"), ty: logic(2, 15), value: number(2, 22, "1") };
    let a = run(vec![upper, lower]);
    assert_eq!(pad(&a, 1, 30, 1), Some(0));
    assert_eq!(pad(&a, 2, 22, 1), Some(8));
}

#[test]
fn align_twice_on_one_aligner_gives_the_same_map() {
    let tree = Veryl {
        declarations: vec![
            Declaration::Parameter {
                keyword: tok(1, 1, "parameter"),
                name: tok(1, 11, "W"),
                ty: logic(1, 14),
                value: number(1, 22, "1"),
            },
            Declaration::Port { name: tok(2, 5, "i"), direction: Direction::Input(tok(2, 8, "input")), ty: logic(2, 14) },
            var(3, "abc"),
        ],
    };
    let mut aligner = Aligner::new();
    aligner.align(&tree);
    let first: Vec<(Location, usize)> = (0..aligner.additions.len()).map(|i| aligner.additions.entry(i)).collect();
    aligner.align(&tree);
    assert_eq!(aligner.additions.len(), first.len());
    for (l, v) in first {
        assert_eq!(aligner.additions.get(&l), Some(v));
    }
    assert_eq!(aligner.additions().get(&Location { line: 1, column: 1, length: 9 }), Some(1));
    assert_eq!(aligner.additions().get(&Location { line: 2, column: 8, length: 5 }), Some(1));
}

#[test]
fn concatenations_and_stacked_prefixes_are_measured() {
    // {a, b} measures 1 + 1 + 1 + 1 + 1 = 5; ~-c measures 3.
    let item = |column: usize, name: &str, comma: Option<Token>| ConcatenationItem {
        expression: Expression { first: operand(Factor::Identifier { name: tok(1, column, name), ranges: Vec::new() }), rest: Vec::new() },
        comma,
    };
    let concat = Expression {
        first: operand(Factor::Concatenation {
            l_brace: tok(1, 22, "{"),
            items: vec![item(23, "a", Some(tok(1, 24, ","))), item(25, "b", None)],
            r_brace: tok(1, 26, "}"),
        }),
        rest: Vec::new(),
    };
    let prefixed = Expression {
        first: Expression1 {
            unary: vec![tok(2, 22, "~"), tok(2, 23, "-")],
            factor: Factor::Identifier { name: tok(2, 24, "c"), ranges: Vec::new() },
        },
        rest: Vec::new(),
    };
    let upper = Declaration::WithParameter { parameter: None, name: tok(1, 12, "A"), ty: logic(1, 15), value: concat };
    let lower = Declaration::WithParameter { parameter: None, name: tok(2, 12, "B"), ty: logic(2, 15), value: prefixed };
    let a = run(vec![upper, lower]);
    assert_eq!(pad(&a, 1, 26, 1), Some(0));
    assert_eq!(pad(&a, 2, 24, 1), Some(2));
}

#[test]
fn statements_are_not_aligned() {
    let s = Declaration::Statement { assigned: Some(tok(2, 5, "abcdefg")), value: number(2, 16, "1") };
    let a = run(vec![var(1, "abc"), s]);
    assert_eq!(pad(&a, 1, 5, 3), Some(0));
    assert_eq!(pad(&a, 2, 5, 7), None);
}

#[test]
fn builtin_types_print_in_the_target_language() {
    assert_eq!(builtin_type_text(BuiltinType::Logic), "logic");
    assert_eq!(builtin_type_text(BuiltinType::U32), "unsigned int");
    assert_eq!(builtin_type_text(BuiltinType::I64), "signed longint");
    assert_eq!(builtin_type_text(BuiltinType::F64), "longreal");
}
