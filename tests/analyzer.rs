use veryl_core::analyzer::{Analyzer, ErrorKind};
use veryl_core::location::Location;
use veryl_core::syntax::{
    ConcatenationItem, Declaration, Expression, Expression1, ExpressionTail, Factor, Range, Token, Type, Veryl,
};

fn tok(line: usize, column: usize, text: &str) -> Token {
    Token {
        location: Location { line, column, length: text.len() },
        text: text.to_string(),
    }
}

fn logic(line: usize) -> Type {
    Type { name: tok(line, 20, "logic"), widths: Vec::new() }
}

fn module(line: usize, name: &str) -> Declaration {
    Declaration::Module { name: tok(line, 8, name) }
}

fn var(line: usize, name: &str, allow_unused: bool) -> Declaration {
    Declaration::Variable { name: tok(line, 5, name), ty: logic(line), allow_unused }
}

fn assign(line: usize, target: &str, used: &str) -> Declaration {
    Declaration::Assignment {
        target: tok(line, 12, target),
        value: reference(line, 20, used),
    }
}

fn reference(line: usize, column: usize, name: &str) -> Expression {
    Expression {
        first: Expression1 { unary: Vec::new(), factor: Factor::Identifier { name: tok(line, column, name), ranges: Vec::new() } },
        rest: Vec::new(),
    }
}

fn all_passes(files: &[(&str, Veryl)]) -> (Analyzer, Vec<Vec<ErrorKind>>) {
    let mut analyzer = Analyzer::new(&vec!["project".to_string()]);
    let mut out = Vec::new();
    for (path, tree) in files {
        let e = analyzer.analyze_pass1(&path.to_string(), tree);
        out.push(e.iter().map(|x| x.kind).collect());
    }
    for (path, tree) in files {
        let e = analyzer.analyze_pass2(&path.to_string(), tree);
        out.push(e.iter().map(|x| x.kind).collect());
    }
    for (path, _) in files {
        let e = analyzer.analyze_pass3(&path.to_string());
        out.push(e.iter().map(|x| x.kind).collect());
    }
    (analyzer, out)
}

#[test]
fn unused_variable_is_reported_once() {
    let tree = Veryl { declarations: vec![module(1, "top"), var(2, "a", false)] };
    let mut analyzer = Analyzer::new(&Vec::new());
    assert!(analyzer.analyze_pass1(&"a.veryl".to_string(), &tree).is_empty());
    assert!(analyzer.analyze_pass2(&"a.veryl".to_string(), &tree).is_empty());
    let e = analyzer.analyze_pass3(&"a.veryl".to_string());
    assert_eq!(e.len(), 1);
    assert_eq!(e[0].kind, ErrorKind::UnusedVariable);
    assert_eq!(e[0].name, "a");
    assert_eq!(e[0].location, Location { line: 2, column: 5, length: 1 });
}

#[test]
fn used_flagged_or_underscored_variables_are_not_reported() {
    let tree = Veryl {
        declarations: vec![
            module(1, "top"),
            var(2, "used", false),
            var(3, "flagged", true),
            var(4, "_tmp", false),
            var(5, "out", false),
            assign(6, "out", "used"),
        ],
    };
    let (_, errors) = all_passes(&[("a.veryl", tree)]);
    for e in errors {
        assert!(e.is_empty());
    }
}

#[test]
fn unused_check_is_per_file() {
    let a = Veryl { declarations: vec![module(1, "top"), var(2, "a", false)] };
    let b = Veryl { declarations: vec![module(1, "sub"), var(2, "b", false), var(3, "c", false)] };
    let (_, errors) = all_passes(&[("a.veryl", a), ("b.veryl", b)]);
    assert_eq!(errors[4], vec![ErrorKind::UnusedVariable]);
    assert_eq!(errors[5], vec![ErrorKind::UnusedVariable, ErrorKind::UnusedVariable]);
}

#[test]
fn reference_count_matches_uses_and_is_reproduced_after_reset() {
    let tree = Veryl {
        declarations: vec![
            module(1, "top"),
            var(2, "a", false),
            var(3, "b", false),
            assign(4, "b", "a"),
            assign(5, "b", "a"),
        ],
    };
    let path = "a.veryl".to_string();
    let mut analyzer = Analyzer::new(&Vec::new());
    analyzer.analyze_pass1(&path, &tree);
    analyzer.analyze_pass2(&path, &tree);
    assert_eq!(analyzer.symbol_table.get(1).references.len(), 2);
    assert_eq!(analyzer.symbol_table.get(2).references.len(), 2);
    analyzer.symbol_table.reset();
    assert_eq!(analyzer.symbol_table.len(), 0);
    analyzer.analyze_pass1(&path, &tree);
    analyzer.analyze_pass2(&path, &tree);
    assert_eq!(analyzer.symbol_table.get(1).references.len(), 2);
    assert_eq!(analyzer.symbol_table.get(2).references.len(), 2);
}

#[test]
fn resolving_before_every_declaring_pass_misses_forward_references() {
    let a = Veryl { declarations: vec![module(1, "top"), var(2, "x", false), assign(3, "x", "sub")] };
    let b = Veryl { declarations: vec![module(1, "sub")] };
    let pa = "a.veryl".to_string();
    let pb = "b.veryl".to_string();

    let mut early = Analyzer::new(&Vec::new());
    early.analyze_pass1(&pa, &a);
    let e = early.analyze_pass2(&pa, &a);
    assert_eq!(e.len(), 1);
    assert_eq!(e[0].kind, ErrorKind::UnresolvedReference);
    assert_eq!(e[0].name, "sub");

    let mut ordered = Analyzer::new(&Vec::new());
    ordered.analyze_pass1(&pa, &a);
    ordered.analyze_pass1(&pb, &b);
    assert!(ordered.analyze_pass2(&pa, &a).is_empty());
    assert!(ordered.analyze_pass2(&pb, &b).is_empty());
}

#[test]
fn duplicate_declaration_is_reported() {
    let tree = Veryl { declarations: vec![module(1, "top"), var(2, "a", false), var(3, "a", false)] };
    let mut analyzer = Analyzer::new(&Vec::new());
    let e = analyzer.analyze_pass1(&"a.veryl".to_string(), &tree);
    assert_eq!(e.len(), 1);
    assert_eq!(e[0].kind, ErrorKind::DuplicateDeclaration);
    assert_eq!(e[0].location, Location { line: 3, column: 5, length: 1 });
    assert_eq!(analyzer.symbol_table.len(), 2);
}

#[test]
fn same_name_in_two_modules_is_no_duplicate() {
    let tree = Veryl {
        declarations: vec![module(1, "top"), var(2, "a", false), module(4, "sub"), var(5, "a", false)],
    };
    let mut analyzer = Analyzer::new(&Vec::new());
    assert!(analyzer.analyze_pass1(&"a.veryl".to_string(), &tree).is_empty());
    assert_eq!(analyzer.symbol_table.len(), 4);
}

#[test]
fn default_namespaces_are_searched_last() {
    let pkg = Veryl { declarations: vec![module(1, "pkg"), var(2, "w", true)] };
    let user = Veryl { declarations: vec![module(1, "top"), var(2, "x", false), assign(3, "x", "w")] };
    let mut analyzer = Analyzer::new(&vec!["pkg".to_string()]);
    analyzer.analyze_pass1(&"p.veryl".to_string(), &pkg);
    analyzer.analyze_pass1(&"u.veryl".to_string(), &user);
    assert!(analyzer.analyze_pass2(&"u.veryl".to_string(), &user).is_empty());
    assert_eq!(analyzer.symbol_table.get(1).references.len(), 1);

    let mut plain = Analyzer::new(&Vec::new());
    plain.analyze_pass1(&"p.veryl".to_string(), &pkg);
    plain.analyze_pass1(&"u.veryl".to_string(), &user);
    let e = plain.analyze_pass2(&"u.veryl".to_string(), &user);
    assert_eq!(e.len(), 1);
    assert_eq!(e[0].kind, ErrorKind::UnresolvedReference);
}

#[test]
fn symbols_can_be_listed_by_file() {
    let a = Veryl { declarations: vec![module(1, "top"), var(2, "x", false)] };
    let b = Veryl { declarations: vec![module(1, "sub"), var(2, "y", false), var(3, "z", false)] };
    let mut analyzer = Analyzer::new(&Vec::new());
    analyzer.analyze_pass1(&"a.veryl".to_string(), &a);
    analyzer.analyze_pass1(&"b.veryl".to_string(), &b);
    assert_eq!(analyzer.symbol_table.get_by_file(&"a.veryl".to_string()), vec![0, 1]);
    assert_eq!(analyzer.symbol_table.get_by_file(&"b.veryl".to_string()), vec![2, 3, 4]);
    assert!(analyzer.symbol_table.get_by_file(&"c.veryl".to_string()).is_empty());
    assert_eq!(analyzer.symbol_table.get_all().len(), 5);
}

#[test]
fn names_inside_selects_and_operands_are_resolved() {
    // y = x[i] + j; with j declared nowhere
    let index = Range { l_bracket: tok(6, 21, "["), expression: reference(6, 22, "i"), select: None, r_bracket: tok(6, 23, "]") };
    let value = Expression {
        first: Expression1 { unary: Vec::new(), factor: Factor::Identifier { name: tok(6, 20, "x"), ranges: vec![index] } },
        rest: vec![ExpressionTail {
            operator: tok(6, 25, "+"),
            operand: Expression1 { unary: Vec::new(), factor: Factor::Identifier { name: tok(6, 27, "j"), ranges: Vec::new() } },
        }],
    };
    let tree = Veryl {
        declarations: vec![
            module(1, "top"),
            var(2, "x", false),
            var(3, "i", false),
            var(4, "y", false),
            Declaration::Assignment { target: tok(6, 12, "y"), value },
        ],
    };
    let (analyzer, errors) = all_passes(&[("a.veryl", tree)]);
    assert!(errors[0].is_empty());
    assert_eq!(errors[1], vec![ErrorKind::UnresolvedReference]);
    assert!(errors[2].is_empty());
    assert_eq!(analyzer.symbol_table.get(1).references.len(), 1);
    assert_eq!(analyzer.symbol_table.get(2).references.len(), 1);
    assert_eq!(analyzer.symbol_table.get(3).references.len(), 1);
}

#[test]
fn names_in_statements_and_concatenations_are_resolved() {
    // if c { y = {a, b}; }
    let concat = Expression {
        first: Expression1 {
            unary: Vec::new(),
            factor: Factor::Concatenation {
                l_brace: tok(7, 20, "{"),
                items: vec![
                    ConcatenationItem { expression: reference(7, 21, "a"), comma: Some(tok(7, 22, ",")) },
                    ConcatenationItem { expression: reference(7, 24, "b"), comma: None },
                ],
                r_brace: tok(7, 25, "}"),
            },
        },
        rest: Vec::new(),
    };
    let tree = Veryl {
        declarations: vec![
            module(1, "top"),
            var(2, "a", false),
            var(3, "b", false),
            var(4, "c", false),
            var(5, "y", false),
            Declaration::Statement { assigned: None, value: reference(6, 8, "c") },
            Declaration::Statement { assigned: Some(tok(7, 12, "y")), value: concat },
        ],
    };
    let (analyzer, errors) = all_passes(&[("a.veryl", tree)]);
    for e in &errors {
        assert!(e.is_empty());
    }
    for id in 1..5 {
        assert_eq!(analyzer.symbol_table.get(id).references.len(), 1);
    }
}
