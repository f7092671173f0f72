use mcml::desugar_asserts::{desugar_asserts, Definition, Expr, Statement};
use mcml::uniquify as prev;
use mcml::var::VarFactory;

#[test]
fn no_asserts() {
    let mut var_factory = VarFactory::new();
    let x = var_factory.named("x".to_owned());
    let program = prev::Program {
        defs: vec![prev::Definition::Test {
            name: "test".to_owned(),
            stmts: vec![
                prev::Statement::Let { var: x.clone(), expr: prev::Expr::LitBool(false) },
                prev::Statement::Command { text: "text".to_owned() },
            ],
        }],
        var_factory: VarFactory::new(),
    };
    let program = desugar_asserts(program);
    let Definition::Test { stmts, .. } = &program.defs[0];
    assert_eq!(stmts[0], Statement::Let { var: x, expr: Expr::LitBool(false) });
    assert_eq!(stmts[1], Statement::Command { text: "text".to_owned() });
    assert_eq!(stmts[2], Statement::TellOk { test_name: "test".to_owned() });
}

fn guarded(stmt: &Statement, cond_expected: Expr) -> &Vec<Statement> {
    if let Statement::Expr(Expr::If { cond, thn, els }) = stmt {
        assert_eq!(**cond, cond_expected);
        assert_eq!(
            **els,
            Expr::Bundle {
                stmts: vec![Statement::TellNotOk { test_name: "test".to_owned() }],
                expr: Box::new(Expr::LitUnit)
            }
        );
        if let Expr::Bundle { stmts, expr } = &**thn {
            assert_eq!(**expr, Expr::LitUnit);
            stmts
        } else {
            panic!()
        }
    } else {
        panic!()
    }
}

#[test]
fn multi_asserts() {
    let mut var_factory = VarFactory::new();
    let x = var_factory.named("x".to_owned());
    let y = var_factory.named("y".to_owned());
    let z = var_factory.named("z".to_owned());
    let program = prev::Program {
        defs: vec![prev::Definition::Test {
            name: "test".to_owned(),
            stmts: vec![
                prev::Statement::Let { var: x.clone(), expr: prev::Expr::LitBool(false) },
                prev::Statement::Assert { expr: prev::Expr::LitBool(true) },
                prev::Statement::Let { var: y.clone(), expr: prev::Expr::LitBool(false) },
                prev::Statement::Assert { expr: prev::Expr::LitBool(false) },
                prev::Statement::Let { var: z.clone(), expr: prev::Expr::LitBool(false) },
            ],
        }],
        var_factory: VarFactory::new(),
    };
    let program = desugar_asserts(program);
    let Definition::Test { stmts, .. } = &program.defs[0];
    assert_eq!(stmts[0], Statement::Let { var: x, expr: Expr::LitBool(false) });
    let stmts = guarded(&stmts[1], Expr::LitBool(true));
    assert_eq!(stmts[0], Statement::Let { var: y, expr: Expr::LitBool(false) });
    let stmts = guarded(&stmts[1], Expr::LitBool(false));
    assert_eq!(stmts[0], Statement::Let { var: z, expr: Expr::LitBool(false) });
    assert_eq!(stmts[1], Statement::TellOk { test_name: "test".to_owned() });
}

#[test]
fn asserteq_becomes_an_equality_test() {
    let program = prev::Program {
        defs: vec![prev::Definition::Test {
            name: "test".to_owned(),
            stmts: vec![prev::Statement::AssertEq { left: prev::Expr::LitInt(1), right: prev::Expr::LitInt(2) }],
        }],
        var_factory: VarFactory::new(),
    };
    let program = desugar_asserts(program);
    let Definition::Test { stmts, .. } = &program.defs[0];
    assert_eq!(stmts.len(), 1);
    let rest = guarded(
        &stmts[0],
        Expr::Eq { left: Box::new(Expr::LitInt(1)), right: Box::new(Expr::LitInt(2)) },
    );
    assert_eq!(rest, &vec![Statement::TellOk { test_name: "test".to_owned() }]);
}
