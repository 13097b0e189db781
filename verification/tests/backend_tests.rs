use seb::ast::{Ast, Expr};
use seb::backend::{AVRBackend, BackendError, compile};

#[test]
fn backend_backend_test0() {
    let ast = Ast {
        /*
        int main() {
            int x = 10;
            int y = 20;
            return x + y;
        }
        */
        root: vec![Expr::Function(
            "main".to_string(),
            "int".to_string(),
            vec![],
            Box::new(Expr::Block(vec![Expr::Call(
                "main".to_string(),
                vec![Expr::Number(10)],
            )])),
        )],
    };

    let _ = compile(ast);
}

#[test]
fn lib_backend_test0() {
    let tast = Ast {
        /*
        int main() {
            int x = 10;
            int y = 20;
            return x + y;
        }
        */
        root: vec![Expr::Function(
            "main".to_string(),
            "int".to_string(),
            vec![],
            Box::new(Expr::Block(vec![
                Expr::Decl(
                    "x".to_string(),
                    "int".to_string(),
                    Box::new(Expr::Number(3)),
                ),
                Expr::Decl(
                    "y".to_string(),
                    "int".to_string(),
                    Box::new(Expr::Number(4)),
                ),
                Expr::Return(Box::new(Expr::Add(
                    Box::new(Expr::Add(
                        Box::new(Expr::Number(3)),
                        Box::new(Expr::Var("y".to_string())),
                    )),
                    Box::new(Expr::Add(
                        Box::new(Expr::Number(2)),
                        Box::new(Expr::Var("x".to_string())),
                    )),
                ))),
            ])),
        )],
    };
    let _ = compile(tast);
}

fn main_with_body(body: Vec<Expr>) -> Ast {
    Ast {
        root: vec![Expr::Function(
            "main".to_string(),
            "int".to_string(),
            vec![],
            Box::new(Expr::Block(body)),
        )],
    }
}

/// A self-call resolves, because a function's symbol is registered before
/// its body is generated.
#[test]
fn self_call_resolves() {
    let ast = main_with_body(vec![Expr::Call("main".to_string(), vec![Expr::Number(10)])]);
    let out = compile(ast);
    assert!(out.is_ok());
}

/// The declare-declare-add scenario, checked against the exact rendering.
#[test]
fn two_locals_and_an_addition() {
    let ast = main_with_body(vec![
        Expr::Decl(
            "x".to_string(),
            "int".to_string(),
            Box::new(Expr::Number(10)),
        ),
        Expr::Decl(
            "y".to_string(),
            "int".to_string(),
            Box::new(Expr::Number(20)),
        ),
        Expr::Return(Box::new(Expr::Add(
            Box::new(Expr::Var("x".to_string())),
            Box::new(Expr::Var("y".to_string())),
        ))),
    ]);
    let out = compile(ast).unwrap();
    let mut expected = String::from(".global main\n.section .data\n.section .text\nmain:\n");
    let body_lines = [
        "push R28",
        "push R29",
        "rcall .+0",
        "rcall .+0",
        "in R28, 61",
        "in R29, 62",
        "ldi R24, 10",
        "ldi R25, 0",
        "std Y+1, R24",
        "std Y+2, R25",
        "ldi R24, 20",
        "ldi R25, 0",
        "std Y+3, R24",
        "std Y+4, R25",
        "ldd R24, Y+1",
        "ldd R25, Y+2",
        "ldd R18, Y+3",
        "ldd R19, Y+4",
        "add R24, R18",
        "adc R25, R19",
        "pop R0",
        "pop R0",
        "pop R0",
        "pop R0",
        "pop R29",
        "pop R28",
        "ret",
    ];
    for line in body_lines {
        expected.push_str("    ");
        expected.push_str(line);
        expected.push_str("\n");
    }
    assert_eq!(out, expected);
}

/// A 16-bit literal is split into a low and a high immediate byte that
/// recombine to its two's-complement pattern.
#[test]
fn negative_literal_bytes() {
    let ast = main_with_body(vec![Expr::Decl(
        "x".to_string(),
        "int".to_string(),
        Box::new(Expr::Number(-1)),
    )]);
    let out = compile(ast).unwrap();
    assert!(out.contains("    ldi R24, 255\n    ldi R25, 255\n"));

    let ast2 = main_with_body(vec![Expr::Decl(
        "x".to_string(),
        "int".to_string(),
        Box::new(Expr::Number(0x1234)),
    )]);
    let out2 = compile(ast2).unwrap();
    // 0x1234 = low 0x34 = 52, high 0x12 = 18
    assert!(out2.contains("    ldi R24, 52\n    ldi R25, 18\n"));
    assert_eq!((52u16) | (18u16 << 8), 0x1234);
}

/// Frame layout: a 1-byte local then a 4-byte local get offsets 1 and
/// 2..=5, and a reference reads the same cells back in the same order.
#[test]
fn frame_offsets_in_order() {
    let ast = main_with_body(vec![
        Expr::Decl(
            "a".to_string(),
            "char".to_string(),
            Box::new(Expr::Number(1)),
        ),
        Expr::Decl(
            "b".to_string(),
            "long".to_string(),
            Box::new(Expr::Number(2)),
        ),
        Expr::Return(Box::new(Expr::Var("b".to_string()))),
    ]);
    let out = compile(ast).unwrap();
    assert!(out.contains("    std Y+1, R24\n"));
    assert!(out.contains("    std Y+2, R24\n    std Y+3, R25\n    std Y+4, R26\n    std Y+5, R27\n"));
    assert!(out.contains("    ldd R24, Y+2\n    ldd R25, Y+3\n    ldd R26, Y+4\n    ldd R27, Y+5\n"));
}

/// An equal-width addition of two long locals ripples: one add, then
/// three add-with-carry lines, low byte to high.
#[test]
fn ripple_carry_chain_width_four() {
    let ast = main_with_body(vec![
        Expr::Decl(
            "x".to_string(),
            "long".to_string(),
            Box::new(Expr::Number(1)),
        ),
        Expr::Decl(
            "y".to_string(),
            "long".to_string(),
            Box::new(Expr::Number(2)),
        ),
        Expr::Return(Box::new(Expr::Add(
            Box::new(Expr::Var("x".to_string())),
            Box::new(Expr::Var("y".to_string())),
        ))),
    ]);
    let out = compile(ast).unwrap();
    assert!(out.contains("    add R24, R18\n    adc R25, R19\n    adc R26, R20\n    adc R27, R21\n"));
    assert_eq!(out.matches("\n    add ").count(), 1);
    assert_eq!(out.matches("\n    adc ").count(), 3);
}

/// Type sizes resolve for the three known names and fail for anything
/// else.
#[test]
fn type_size_resolution() {
    let nodes: Vec<Expr> = vec![];
    let backend = AVRBackend::new(&nodes);
    assert_eq!(backend.resolve_size("char"), Ok(1));
    assert_eq!(backend.resolve_size("int"), Ok(2));
    assert_eq!(backend.resolve_size("long"), Ok(4));
    assert_eq!(
        backend.resolve_size("bool"),
        Err(BackendError::AssemblerError)
    );
}

/// A declaration of an unknown type fails with a resolution error.
#[test]
fn unknown_type_fails() {
    let ast = main_with_body(vec![Expr::Decl(
        "z".to_string(),
        "bool".to_string(),
        Box::new(Expr::Number(0)),
    )]);
    assert_eq!(compile(ast), Err(BackendError::AssemblerError));
}

/// A reference to an undeclared variable fails with a resolution error.
#[test]
fn unknown_variable_fails() {
    let ast = main_with_body(vec![Expr::Return(Box::new(Expr::Var("z".to_string())))]);
    assert_eq!(compile(ast), Err(BackendError::AssemblerError));
}

/// A call to a function declared later does not resolve.
#[test]
fn forward_reference_fails() {
    let ast = Ast {
        root: vec![
            Expr::Function(
                "main".to_string(),
                "int".to_string(),
                vec![],
                Box::new(Expr::Block(vec![Expr::Call("g".to_string(), vec![])])),
            ),
            Expr::Function(
                "g".to_string(),
                "int".to_string(),
                vec![],
                Box::new(Expr::Block(vec![])),
            ),
        ],
    };
    assert_eq!(compile(ast), Err(BackendError::CannotResolveFunction));
}

/// When the operands of an addition do not land in two distinct windows,
/// placement is a hard allocation failure.
#[test]
fn placement_failure_is_reported() {
    let ast = Ast {
        root: vec![
            Expr::Function(
                "f".to_string(),
                "int".to_string(),
                vec![],
                Box::new(Expr::Block(vec![])),
            ),
            Expr::Function(
                "main".to_string(),
                "int".to_string(),
                vec![],
                Box::new(Expr::Block(vec![Expr::Return(Box::new(Expr::Add(
                    Box::new(Expr::Number(5)),
                    Box::new(Expr::Call("f".to_string(), vec![])),
                )))])),
            ),
        ],
    };
    assert_eq!(compile(ast), Err(BackendError::RanOutOfRegisters));
}

/// Subtraction is recognized but unimplemented, and fails loudly.
#[test]
fn subtraction_fails_loudly() {
    let ast = main_with_body(vec![Expr::Return(Box::new(Expr::Sub(
        Box::new(Expr::Number(1)),
        Box::new(Expr::Number(2)),
    )))]);
    assert_eq!(compile(ast), Err(BackendError::UnsupportedBinaryOperation));
}

/// A top-level declaration that is not a function is a fatal unsupported
/// condition.
#[test]
fn non_function_toplevel_fails() {
    let ast = Ast { root: vec![Expr::Number(1)] };
    assert_eq!(compile(ast), Err(BackendError::UnsupportedValue));
}

/// An unsupported statement shape fails loudly instead of passing
/// silently.
#[test]
fn unsupported_statement_fails() {
    let ast = main_with_body(vec![Expr::If(
        Box::new(Expr::Number(1)),
        Box::new(Expr::Empty),
        Box::new(Expr::Empty),
    )]);
    assert_eq!(compile(ast), Err(BackendError::UnsupportedValue));
}

/// Call arguments are generated into the running argument window.
#[test]
fn call_arguments_land_in_argument_windows() {
    let ast = Ast {
        root: vec![
            Expr::Function(
                "f".to_string(),
                "int".to_string(),
                vec![("a".to_string(), "int".to_string())],
                Box::new(Expr::Block(vec![])),
            ),
            Expr::Function(
                "main".to_string(),
                "int".to_string(),
                vec![],
                Box::new(Expr::Block(vec![Expr::Call(
                    "f".to_string(),
                    vec![Expr::Number(7)],
                )])),
            ),
        ],
    };
    let out = compile(ast).unwrap();
    assert!(out.contains("    ldi R16, 7\n    ldi R17, 0\n"));
}
