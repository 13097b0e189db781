use seb::asm_writer::{AVRWriter, Registers, reg_name_str};
use seb::ast::{Ast, Expr, Spanned};
use seb::numtext::{dec_i16, dec_u32};

#[test]
fn test_add_ast() {
    let tast = Ast {
        /*
        int main() {
            int x = 10;
            int y = 20;
            return x + y;
        }
        */
        root: vec![Expr::Function(
            "main".to_string(),
            "int".to_string(),
            vec![],
            Box::new(Expr::Block(vec![
                Expr::Decl(
                    "x".to_string(),
                    "int".to_string(),
                    Box::new(Expr::Number(5)),
                ),
                Expr::Decl(
                    "y".to_string(),
                    "int".to_string(),
                    Box::new(Expr::Number(8)),
                ),
            ])),
        )],
    };
    let _ = tast;
}

#[test]
fn spanned_map_keeps_span() {
    let s = Spanned(2..5, 10i32);
    let t = s.map(|v| v + 1);
    assert_eq!(t.0, 2..5);
    assert_eq!(t.1, 11);
}

#[test]
fn register_index_and_add() {
    assert_eq!(Registers::index(0), Registers::R0);
    assert_eq!(Registers::index(24), Registers::R24);
    assert_eq!(Registers::index(32), Registers::Y);
    // positions outside the file fall back to R0
    assert_eq!(Registers::index(33), Registers::R0);
    assert_eq!(Registers::R24.add(2), Registers::R26);
    assert_eq!(Registers::R31.add(1), Registers::Y);
    assert_eq!(Registers::Y.add(1), Registers::R0);
    assert_eq!(reg_name_str(Registers::R17), "R17");
    assert_eq!(reg_name_str(Registers::Y), "Y");
}

#[test]
fn decimal_rendering() {
    assert_eq!(dec_u32(0), "0");
    assert_eq!(dec_u32(7), "7");
    assert_eq!(dec_u32(12345), "12345");
    assert_eq!(dec_i16(-5), "-5");
    assert_eq!(dec_i16(-32768), "-32768");
    assert_eq!(dec_i16(32767), "32767");
}

#[test]
fn writer_renders_in_order() {
    let mut w = AVRWriter::new();
    w.new_global("main");
    let data = w.create_section(".data");
    let text = w.create_section(".text");
    assert_eq!(data, 0);
    assert_eq!(text, 1);
    w.select_section(text);
    let l = w.create_label("main");
    w.select_label(l);
    w.push(Registers::R28);
    w.ldi(Registers::R24, 42);
    w.std_displaced(Registers::Y, 3, Registers::R24);
    w.ldd(Registers::R18, Registers::Y, 3);
    w.mov(Registers::R20, Registers::R24);
    w.ret();
    let out = w.repr();
    assert_eq!(
        out,
        ".global main\n.section .data\n.section .text\nmain:\n    push R28\n    ldi R24, 42\n    std Y+3, R24\n    ldd R18, Y+3\n    mov R20, R24\n    ret\n"
    );
}

#[test]
fn insert_and_append_after() {
    let mut w = AVRWriter::new();
    let s = w.create_section(".text");
    w.select_section(s);
    let l = w.create_label("f");
    w.select_label(l);
    w.append_instruction("one".to_string());
    w.append_instruction("three".to_string());
    w.insert_instruction("zero".to_string(), 0);
    w.append_after("two".to_string(), 1);
    let out = w.repr();
    assert_eq!(
        out,
        ".section .text\nf:\n    zero\n    one\n    two\n    three\n"
    );
}

/// Rendering is a pure function of the buffer: two renderings with no
/// mutation in between are identical.
#[test]
fn render_is_deterministic() {
    let mut w = AVRWriter::new();
    w.new_global("main");
    let s = w.create_section(".text");
    w.select_section(s);
    let l = w.create_label("main");
    w.select_label(l);
    w.function_prologue();
    w.function_epilogue();
    let first = w.repr();
    let second = w.repr();
    assert_eq!(first, second);
}
