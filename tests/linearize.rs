use mcml::cfg::Edge;
use mcml::desugar_asserts as prev;
use mcml::linearize::{linearize, Atom, Block, Cfg, Condition, Expr, Jmp, Op, Statement};
use mcml::var::VarFactory;

fn one_test(stmts: Vec<prev::Statement>, var_factory: VarFactory) -> mcml::linearize::Program {
    let def = prev::Definition::Test { name: "test".to_owned(), stmts };
    linearize(prev::Program { defs: vec![def], var_factory }).unwrap()
}

/// The edges leaving block `b`, the latest added first.
fn out_edges(g: &Cfg, b: usize) -> Vec<&Edge<Jmp>> {
    g.edges.iter().rev().filter(|e| e.source == b).collect()
}

#[test]
fn command() {
    let program = one_test(vec![prev::Statement::Command { text: "command text".to_owned() }], VarFactory::new());
    let block = program.blocks.nodes[program.tests.first().unwrap().block].clone();
    assert_eq!(Block { stmts: vec![Statement::Command { text: "command text".to_owned() }] }, block);
}

#[test]
fn reduce_complex_expression() {
    // (+ (* 1 (- 2 3)) (/ 4 5))
    let expr = prev::Expr::Plus {
        left: Box::new(prev::Expr::Times {
            left: Box::new(prev::Expr::LitInt(1)),
            right: Box::new(prev::Expr::Minus {
                left: Box::new(prev::Expr::LitInt(2)),
                right: Box::new(prev::Expr::LitInt(3)),
            }),
        }),
        right: Box::new(prev::Expr::Divide {
            left: Box::new(prev::Expr::LitInt(4)),
            right: Box::new(prev::Expr::LitInt(5)),
        }),
    };
    let program = one_test(vec![prev::Statement::Expr(expr)], VarFactory::new());
    let stmts = program.blocks.nodes[program.tests.first().unwrap().block].stmts.clone();

    let tmp1 = if let Statement::Assign { var: tmp1, expr: Expr::Binary { left, right, op: Op::Minus } } = &stmts[0] {
        assert_eq!(left, &Atom::LitInt(2));
        assert_eq!(right, &Atom::LitInt(3));
        tmp1.clone()
    } else {
        panic!("Expected tmp1 = (- 2 3)");
    };
    let tmp2 = if let Statement::Assign { var: tmp2, expr: Expr::Binary { left, right, op: Op::Times } } = &stmts[1] {
        assert_eq!(left, &Atom::LitInt(1));
        assert_eq!(right, &Atom::Var(tmp1));
        tmp2.clone()
    } else {
        panic!("Expected tmp2 = (* 1 tmp1)");
    };
    let tmp3 = if let Statement::Assign { var: tmp3, expr: Expr::Binary { left, right, op: Op::Divide } } = &stmts[2] {
        assert_eq!(left, &Atom::LitInt(4));
        assert_eq!(right, &Atom::LitInt(5));
        tmp3.clone()
    } else {
        panic!("Expected tmp3 = (/ 4 5)");
    };
    if let Statement::Assign { var: _, expr: Expr::Binary { left, right, op: Op::Plus } } = &stmts[3] {
        assert_eq!(left, &Atom::Var(tmp2));
        assert_eq!(right, &Atom::Var(tmp3));
    } else {
        panic!("Expected tmp2 = (+ tmp2 tmp3)");
    };
    assert_eq!(stmts.len(), 4);
}

#[test]
fn let_stmt() {
    let mut var_factory = VarFactory::new();
    // (let (x 2)) (+ x 1)
    let x = var_factory.named("x".to_owned());
    let program = one_test(
        vec![
            prev::Statement::Let { var: x.clone(), expr: prev::Expr::LitInt(2) },
            prev::Statement::Expr(prev::Expr::Plus {
                left: Box::new(prev::Expr::Variable(x.clone())),
                right: Box::new(prev::Expr::LitInt(1)),
            }),
        ],
        var_factory,
    );
    let stmts = program.blocks.nodes[program.tests.first().unwrap().block].stmts.clone();
    if let Statement::Assign { var, expr: Expr::Atom(Atom::LitInt(2)) } = &stmts[0] {
        assert_eq!(var, &x);
    } else {
        panic!("Expected x = 2");
    };
    if let Statement::Assign { var: _, expr: Expr::Binary { left, right, op: Op::Plus } } = &stmts[1] {
        assert_eq!(left, &Atom::Var(x));
        assert_eq!(right, &Atom::LitInt(1));
    } else {
        panic!("Expected tmp1 = (+ x 1)");
    };
    assert_eq!(stmts.len(), 2);
}

#[test]
fn if_expr() {
    // (if true false true)
    let program = one_test(
        vec![prev::Statement::Expr(prev::Expr::If {
            cond: Box::new(prev::Expr::LitBool(true)),
            thn: Box::new(prev::Expr::LitBool(false)),
            els: Box::new(prev::Expr::LitBool(true)),
        })],
        VarFactory::new(),
    );
    let test = program.tests.first().unwrap().block;
    let stmts = program.blocks.nodes[test].stmts.clone();
    let edges = out_edges(&program.blocks, test);

    assert!(stmts.is_empty());
    assert_eq!(edges[1].weight.clone(), Jmp::If(Condition::Atm(Atom::LitBool(true))));
    assert_eq!(edges[0].weight.clone(), Jmp::Unless(Condition::Atm(Atom::LitBool(true))));

    let thn_stmts = program.blocks.nodes[edges[1].target].stmts.clone();
    let Statement::Assign { var: tmp, expr: Expr::Atom(Atom::LitBool(false)) } = thn_stmts[0].clone() else {
        panic!();
    };
    let after_thn = out_edges(&program.blocks, edges[0].target)[0];
    let els_stmts = program.blocks.nodes[edges[0].target].stmts.clone();
    let Statement::Assign { var: tmp_prime, expr: Expr::Atom(Atom::LitBool(true)) } = els_stmts[0].clone() else {
        panic!();
    };
    let after_els = out_edges(&program.blocks, edges[1].target)[0];

    assert_eq!(tmp, tmp_prime);
    assert_eq!(after_thn.target, after_els.target);
    assert_eq!(after_thn.weight.clone(), Jmp::Unconditional);
    let after_stmts = program.blocks.nodes[after_thn.target].stmts.clone();
    assert_eq!(after_stmts.len(), 0);
}

#[test]
fn branches_have_complementary_labels_and_forward_edges() {
    // (if (= 1 2) (if true 1 2) 3)
    let inner = prev::Expr::If {
        cond: Box::new(prev::Expr::LitBool(true)),
        thn: Box::new(prev::Expr::LitInt(1)),
        els: Box::new(prev::Expr::LitInt(2)),
    };
    let program = one_test(
        vec![prev::Statement::Expr(prev::Expr::If {
            cond: Box::new(prev::Expr::Eq { left: Box::new(prev::Expr::LitInt(1)), right: Box::new(prev::Expr::LitInt(2)) }),
            thn: Box::new(inner),
            els: Box::new(prev::Expr::LitInt(3)),
        })],
        VarFactory::new(),
    );
    let edges = &program.blocks.edges;
    assert_eq!(edges.len(), 8);
    for (i, e) in edges.iter().enumerate() {
        assert!(e.source < e.target);
        if let Jmp::If(c) = &e.weight {
            assert_eq!(edges[i + 1].source, e.source);
            assert_eq!(edges[i + 1].weight, Jmp::Unless(c.clone()));
        }
    }
}
