use mcml::error::CompileError;
use mcml::parse as prev;
use mcml::uniquify::{uniquify, Definition, Expr, Statement};

fn let_x() -> prev::Statement {
    prev::Statement::Let { variable_name: "x".to_owned(), expr: prev::Expr::LitBool(true) }
}

fn assert_x() -> prev::Statement {
    prev::Statement::Assert { expr: prev::Expr::Variable("x".to_owned()) }
}

#[test]
fn simple() {
    let defs = vec![prev::Definition::Test { name: "test".to_owned(), stmts: vec![let_x(), assert_x()] }];
    let program = uniquify(defs).unwrap();
    let Definition::Test { stmts, .. } = &program.defs[0];
    let x1 = if let Statement::Let { var, expr: _ } = &stmts[0] {
        var
    } else {
        panic!("Expected let statement");
    };
    if let Statement::Assert { expr: Expr::Variable(x2) } = &stmts[1] {
        assert_eq!(x1, x2);
    }
}

#[test]
fn shadowing() {
    let defs = vec![prev::Definition::Test {
        name: "test".to_owned(),
        stmts: vec![let_x(), assert_x(), let_x(), assert_x()],
    }];
    let program = uniquify(defs).unwrap();
    let Definition::Test { stmts, .. } = &program.defs[0];
    let x1 = if let Statement::Let { var, expr: _ } = &stmts[0] {
        var
    } else {
        panic!("Expected let statement");
    };
    if let Statement::Assert { expr: Expr::Variable(x2) } = &stmts[1] {
        assert_eq!(x1, x2);
    }
    let x3 = if let Statement::Let { var, expr: _ } = &stmts[2] {
        var
    } else {
        panic!("Expected let statement");
    };
    if let Statement::Assert { expr: Expr::Variable(x4) } = &stmts[3] {
        assert_eq!(x3, x4);
        assert_ne!(x1, x3);
    }
}

#[test]
fn unbound_variable_is_an_error() {
    let defs = vec![prev::Definition::Test { name: "test".to_owned(), stmts: vec![assert_x()] }];
    assert!(matches!(uniquify(defs), Err(CompileError::UnboundVariable(n)) if n == "x"));
}

#[test]
fn binding_ids_are_distinct_across_tests() {
    let defs = vec![
        prev::Definition::Test { name: "a".to_owned(), stmts: vec![let_x(), let_x()] },
        prev::Definition::Test { name: "b".to_owned(), stmts: vec![let_x()] },
    ];
    let program = uniquify(defs).unwrap();
    let mut ids = Vec::new();
    for def in &program.defs {
        let Definition::Test { stmts, .. } = def;
        for s in stmts {
            if let Statement::Let { var, .. } = s {
                ids.push(var.id);
            }
        }
    }
    assert_eq!(vec![0, 1, 2], ids);
}

#[test]
fn a_test_cannot_use_another_tests_binding() {
    let defs = vec![
        prev::Definition::Test { name: "a".to_owned(), stmts: vec![let_x()] },
        prev::Definition::Test { name: "b".to_owned(), stmts: vec![assert_x()] },
    ];
    assert!(uniquify(defs).is_err());
}
