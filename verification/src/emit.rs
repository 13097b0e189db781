//! The mathematical model of code generation.
//!
//! Every instruction sequence the code generator may emit is defined here as
//! a spec function over the expression tree and the generator's state: the
//! register-window mask, the target register, the local-variable table and
//! the function table.  The executable generator in `backend` is proved to
//! produce exactly these sequences, error for error and line for line.

use vstd::prelude::*;

use crate::asm_writer::{
    LabelView, Registers, SectionView, WriterView, epilogue_instrs, prologue_instrs, reg_idx,
    reg_of, s_adc, s_add, s_ldd, s_ldi, s_mov, s_pop, s_std, spec_render,
};
use crate::ast::Expr;

verus! {

/// Window bit for the primary group, `R24`-`R27`.
pub const WIN_PRIMARY: u32 = 1u32 << 2;

/// Window bit for the secondary group, `R18`-`R23`.
pub const WIN_SECONDARY: u32 = 2u32 << 2;

/// Window bit for the tertiary group, `R16`-`R17`, sized for short values.
pub const WIN_TERTIARY: u32 = 4u32 << 2;

/// The empty mask: no window claimed.
pub const WIN_NONE: u32 = 0u32 << 2;

/// Everything that can go wrong while generating code.
#[derive(Debug, Clone, Copy, PartialEq, Eq, Structural)]
pub enum BackendError {
    /// A name did not resolve: unknown type name, unknown variable, or a
    /// frame that outgrew its 16-bit offsets.
    AssemblerError,
    /// The binary-operation placement pattern found no two live windows.
    RanOutOfRegisters,
    /// A recognized but unimplemented operator, such as subtraction.
    UnsupportedBinaryOperation,
    /// An expression or statement shape outside the supported subset.
    UnsupportedValue,
    /// A call to a function that has not been declared yet.
    CannotResolveFunction,
}

/// Model of one local variable: name, byte size, frame offset.
#[verifier::ext_equal]
pub struct VarModel {
    pub name: Seq<char>,
    pub size: u16,
    pub offset: u16,
}

/// Model of one declared function: name, return type name, parameter type
/// names, and the label that holds its code.
#[verifier::ext_equal]
pub struct FnModel {
    pub name: Seq<char>,
    pub ret: Seq<char>,
    pub args: Seq<Seq<char>>,
    pub address: u16,
}

/// Result of emitting one expression: the window mask and target register
/// afterwards, the lines appended, and the byte width of the value built.
#[verifier::ext_equal]
pub struct EmitOut {
    pub mask: u32,
    pub target: Registers,
    pub instrs: Seq<Seq<char>>,
    pub width: u16,
}

/// Result of emitting one statement: the local table and stack offset
/// afterwards, along with the expression-level state.
#[verifier::ext_equal]
pub struct StmtOut {
    pub locals: Seq<VarModel>,
    pub stack: u16,
    pub mask: u32,
    pub target: Registers,
    pub instrs: Seq<Seq<char>>,
}

/// Result of emitting a run of top-level declarations: the function table,
/// the labels of the code section, and the trailing generator state.
#[verifier::ext_equal]
pub struct UnitOut {
    pub funcs: Seq<FnModel>,
    pub labels: Seq<LabelView>,
    pub mask: u32,
    pub target: Registers,
    pub label_cursor: int,
}

/// Every local's frame range fits the 16-bit offsets and spans at most the
/// four bytes a window can hold.
pub open spec fn locals_wf(ls: Seq<VarModel>) -> bool {
    forall|i: int|
        0 <= i < ls.len() ==> 1 <= #[trigger] ls[i].size <= 4 && ls[i].offset + ls[i].size
            <= u16::MAX
}

/// First-declared-wins lookup in the local-variable table.
pub open spec fn lookup_var(ls: Seq<VarModel>, name: Seq<char>) -> Option<VarModel>
    decreases ls,
{
    if ls.len() == 0 {
        None
    } else if ls[0].name == name {
        Some(ls[0])
    } else {
        lookup_var(ls.drop_first(), name)
    }
}

/// First-declared-wins lookup in the function table.
pub open spec fn lookup_fn(fs: Seq<FnModel>, name: Seq<char>) -> Option<FnModel>
    decreases fs,
{
    if fs.len() == 0 {
        None
    } else if fs[0].name == name {
        Some(fs[0])
    } else {
        lookup_fn(fs.drop_first(), name)
    }
}

/// The byte size of a type name: `char` is 1, `int` is 2, `long` is 4;
/// anything else does not resolve.
pub open spec fn spec_size(ty: Seq<char>) -> Option<u16> {
    if ty == "char"@ {
        Some(1u16)
    } else if ty == "int"@ {
        Some(2u16)
    } else if ty == "long"@ {
        Some(4u16)
    } else {
        None
    }
}

/// The reservation policy: primary, then secondary, then tertiary; when all
/// three are claimed, the secondary window is re-issued without a check.
/// That last step knowingly aliases a live value; it is kept as the
/// documented policy of this allocator.
pub open spec fn spec_reserve(mask: u32) -> (u32, Registers) {
    if mask & WIN_PRIMARY == 0 {
        (mask | WIN_PRIMARY, Registers::R24)
    } else if mask & WIN_SECONDARY == 0 {
        (mask | WIN_SECONDARY, Registers::R18)
    } else if mask & WIN_TERTIARY == 0 {
        (mask | WIN_TERTIARY, Registers::R16)
    } else {
        (mask | WIN_SECONDARY, Registers::R18)
    }
}

/// Where a value lands: the caller's target register, or a freshly reserved
/// window when the target is the `R0` sentinel meaning "allocator decides".
pub open spec fn spec_dest(mask: u32, target: Registers) -> (u32, Registers) {
    if target == Registers::R0 {
        spec_reserve(mask)
    } else {
        (mask, target)
    }
}

/// Low byte of a 16-bit literal.
pub open spec fn lo_byte(val: i16) -> i16 {
    val & 0xff
}

/// High byte of a 16-bit literal.
pub open spec fn hi_byte(val: i16) -> i16 {
    (val >> 8) & 0xff
}

/// The two load-immediate lines that materialize a 16-bit literal: low byte
/// into the window's first register, high byte into the next.
pub open spec fn load_const_instrs(dest: Registers, val: i16) -> Seq<Seq<char>> {
    seq![s_ldi(dest, lo_byte(val)), s_ldi(reg_of(reg_idx(dest) + 1), hi_byte(val))]
}

/// The displaced loads that read a local into consecutive registers: byte
/// `j` comes from frame offset `offset + 1 + j`.
pub open spec fn load_var_instrs(dest: Registers, offset: u16, size: u16) -> Seq<Seq<char>> {
    Seq::new(
        size as nat,
        |j: int| s_ldd(reg_of(reg_idx(dest) + j), Registers::Y, (offset + 1 + j) as u16),
    )
}

/// The displaced stores that spill the primary window into a local's frame
/// cells: byte `j` goes to frame offset `offset + 1 + j`.
pub open spec fn store_local_instrs(offset: u16, size: u16) -> Seq<Seq<char>> {
    Seq::new(
        size as nat,
        |j: int| s_std(Registers::Y, (offset + 1 + j) as u16, reg_of(24 + j)),
    )
}

/// The ripple-carry chain for a `width`-byte addition: one `add` for the
/// lowest byte, then an `adc` per further byte, low to high.
pub open spec fn add_chain_instrs(rd: Registers, rs: Registers, width: u16) -> Seq<Seq<char>> {
    seq![s_add(rd, rs)] + Seq::new(
        if width <= 1 {
            0nat
        } else {
            (width - 1) as nat
        },
        |j: int| s_adc(reg_of(reg_idx(rd) + j + 1), reg_of(reg_idx(rs) + j + 1)),
    )
}

/// The register-to-register moves that copy a call argument out of the
/// primary window into its argument window.
pub open spec fn mov_instrs(cur: Registers, size: u16) -> Seq<Seq<char>> {
    Seq::new(size as nat, |j: int| s_mov(reg_of(reg_idx(cur) + j), reg_of(24 + j)))
}

/// The wider of two operand widths.
pub open spec fn max_width(a: u16, b: u16) -> u16 {
    if a >= b {
        a
    } else {
        b
    }
}

/// Binary-operation result placement, applied after both operands stand in
/// windows: the current mask pattern picks the result window and frees the
/// source window; any other pattern is a hard allocation failure.  The
/// addition then ripples over the left operand's width; subtraction is
/// recognized but unimplemented and fails rather than passing silently.
pub open spec fn binop_place(is_add: bool, lo: EmitOut, ro: EmitOut) -> Result<
    EmitOut,
    BackendError,
> {
    let m = ro.mask;
    if m & WIN_PRIMARY != 0 && m & WIN_SECONDARY != 0 && m & WIN_TERTIARY == 0 {
        if is_add {
            Ok(
                EmitOut {
                    mask: m & !WIN_SECONDARY,
                    target: ro.target,
                    instrs: lo.instrs + ro.instrs + add_chain_instrs(
                        Registers::R24,
                        Registers::R18,
                        lo.width,
                    ),
                    width: max_width(lo.width, ro.width),
                },
            )
        } else {
            Err(BackendError::UnsupportedBinaryOperation)
        }
    } else if m & WIN_PRIMARY != 0 && m & WIN_SECONDARY != 0 && m & WIN_TERTIARY != 0 {
        if is_add {
            Ok(
                EmitOut {
                    mask: m & !WIN_TERTIARY,
                    target: ro.target,
                    instrs: lo.instrs + ro.instrs + add_chain_instrs(
                        Registers::R18,
                        Registers::R16,
                        lo.width,
                    ),
                    width: max_width(lo.width, ro.width),
                },
            )
        } else {
            Err(BackendError::UnsupportedBinaryOperation)
        }
    } else {
        Err(BackendError::RanOutOfRegisters)
    }
}

/// Placement applied to the right operand's outcome, once the left operand
/// succeeded.
pub open spec fn binop_after_lhs(is_add: bool, lo: EmitOut, rr: Result<EmitOut, BackendError>)
    -> Result<EmitOut, BackendError> {
    match rr {
        Err(e) => Err(e),
        Ok(ro) => binop_place(is_add, lo, ro),
    }
}

/// What one expression emits, and how it moves the generator's state.
///
/// A root evaluation clears the window mask first, marking the start of an
/// independent value computation.  The result records the mask and the
/// target register after the walk, the lines appended, and the width of the
/// value produced.
pub open spec fn emit_expr(
    e: Expr,
    locals: Seq<VarModel>,
    funcs: Seq<FnModel>,
    mask0: u32,
    target: Registers,
    root: bool,
) -> Result<EmitOut, BackendError>
    decreases e, 1int,
{
    let mask = if root {
        WIN_NONE
    } else {
        mask0
    };
    match e {
        Expr::Number(n) => {
            let (m2, dest) = spec_dest(mask, target);
            Ok(
                EmitOut {
                    mask: m2,
                    target,
                    instrs: load_const_instrs(dest, n as i16),
                    width: 2,
                },
            )
        },
        Expr::Var(name) => match lookup_var(locals, name@) {
            None => Err(BackendError::AssemblerError),
            Some(v) => {
                let (m2, dest) = spec_dest(mask, target);
                Ok(
                    EmitOut {
                        mask: m2,
                        target,
                        instrs: load_var_instrs(dest, v.offset, v.size),
                        width: v.size,
                    },
                )
            },
        },
        Expr::Add(l, r) => match emit_expr(*l, locals, funcs, mask, Registers::R0, false) {
            Err(e) => Err(e),
            Ok(lo) => binop_after_lhs(
                true,
                lo,
                emit_expr(*r, locals, funcs, lo.mask, Registers::R0, false),
            ),
        },
        Expr::Sub(l, r) => match emit_expr(*l, locals, funcs, mask, Registers::R0, false) {
            Err(e) => Err(e),
            Ok(lo) => binop_after_lhs(
                false,
                lo,
                emit_expr(*r, locals, funcs, lo.mask, Registers::R0, false),
            ),
        },
        Expr::Call(name, args) => match lookup_fn(funcs, name@) {
            None => Err(BackendError::CannotResolveFunction),
            Some(f) => match spec_size(f.ret) {
                None => Err(BackendError::AssemblerError),
                Some(rw) => match emit_args(
                    args@,
                    locals,
                    funcs,
                    mask,
                    target,
                    Registers::R16,
                ) {
                    Err(e) => Err(e),
                    Ok(a) => Ok(
                        EmitOut { mask: a.mask, target: a.target, instrs: a.instrs, width: rw },
                    ),
                },
            },
        },
        _ => Err(BackendError::UnsupportedValue),
    }
}

/// What a binary-operation node emits, given the mask as the operand walks
/// see it (the root clearing, if any, already applied).
pub open spec fn binop_spec(
    e: Expr,
    locals: Seq<VarModel>,
    funcs: Seq<FnModel>,
    mask: u32,
) -> Result<EmitOut, BackendError> {
    match e {
        Expr::Add(l, r) => match emit_expr(*l, locals, funcs, mask, Registers::R0, false) {
            Err(err) => Err(err),
            Ok(lo) => binop_after_lhs(
                true,
                lo,
                emit_expr(*r, locals, funcs, lo.mask, Registers::R0, false),
            ),
        },
        Expr::Sub(l, r) => match emit_expr(*l, locals, funcs, mask, Registers::R0, false) {
            Err(err) => Err(err),
            Ok(lo) => binop_after_lhs(
                false,
                lo,
                emit_expr(*r, locals, funcs, lo.mask, Registers::R0, false),
            ),
        },
        _ => Err(BackendError::UnsupportedValue),
    }
}

/// Running state of an argument walk: mask and target register, the next
/// argument window's first register, and the lines emitted so far.
#[verifier::ext_equal]
pub struct ArgsOut {
    pub mask: u32,
    pub target: Registers,
    pub cur: Registers,
    pub instrs: Seq<Seq<char>>,
}

/// What a call's argument list emits.  Each argument is generated as a root
/// evaluation targeted at the running argument window, which starts at the
/// tertiary window and advances by each argument's width; an argument whose
/// walk left the target sentinel in place is copied out of the primary
/// window into its argument window.
pub open spec fn emit_args(
    args: Seq<Expr>,
    locals: Seq<VarModel>,
    funcs: Seq<FnModel>,
    mask: u32,
    target: Registers,
    cur: Registers,
) -> Result<ArgsOut, BackendError>
    decreases args, 0int,
{
    if args.len() == 0 {
        Ok(ArgsOut { mask, target, cur, instrs: Seq::empty() })
    } else {
        match emit_expr(args[0], locals, funcs, mask, cur, true) {
            Err(e) => Err(e),
            Ok(a) => {
                let movs = if cur != Registers::R24 && a.target == Registers::R0 {
                    mov_instrs(cur, a.width)
                } else {
                    Seq::empty()
                };
                match emit_args(
                    args.drop_first(),
                    locals,
                    funcs,
                    a.mask,
                    a.target,
                    reg_of(reg_idx(cur) + a.width),
                ) {
                    Err(e) => Err(e),
                    Ok(rest) => Ok(
                        ArgsOut {
                            mask: rest.mask,
                            target: rest.target,
                            cur: rest.cur,
                            instrs: a.instrs + movs + rest.instrs,
                        },
                    ),
                }
            },
        }
    }
}

/// What one declaration emits: size the type, register the variable at the
/// current stack offset, generate the initializer into the primary window,
/// then spill it byte by byte into the new frame cells.
pub open spec fn decl_spec(
    name: Seq<char>,
    ty: Seq<char>,
    value: Expr,
    locals: Seq<VarModel>,
    funcs: Seq<FnModel>,
    stack: u16,
    mask: u32,
) -> Result<StmtOut, BackendError> {
    match spec_size(ty) {
        None => Err(BackendError::AssemblerError),
        Some(size) => if stack + size > u16::MAX {
            Err(BackendError::AssemblerError)
        } else {
            let locals2 = locals.push(VarModel { name, size, offset: stack });
            match emit_expr(value, locals2, funcs, mask, Registers::R24, true) {
                Err(e) => Err(e),
                Ok(o) => Ok(
                    StmtOut {
                        locals: locals2,
                        stack: (stack + size) as u16,
                        mask: o.mask,
                        target: o.target,
                        instrs: o.instrs + store_local_instrs(stack, size),
                    },
                ),
            }
        },
    }
}

/// What one statement emits.  A declaration sizes its type, registers the
/// variable at the current stack offset, generates the initializer into the
/// primary window and spills it; a frame that would outgrow 16-bit offsets
/// fails.  A return generates its value into the primary window.  Anything
/// else is generated as a value-discarding root expression, so unsupported
/// shapes fail loudly rather than pass silently.
pub open spec fn emit_stmt(
    s: Expr,
    locals: Seq<VarModel>,
    funcs: Seq<FnModel>,
    stack: u16,
    mask: u32,
    target: Registers,
) -> Result<StmtOut, BackendError> {
    match s {
        Expr::Decl(name, ty, value) => decl_spec(name@, ty@, *value, locals, funcs, stack, mask),
        Expr::Return(e) => match emit_expr(*e, locals, funcs, mask, Registers::R24, true) {
            Err(err) => Err(err),
            Ok(o) => Ok(
                StmtOut { locals, stack, mask: o.mask, target: o.target, instrs: o.instrs },
            ),
        },
        _ => match emit_expr(s, locals, funcs, mask, Registers::R0, true) {
            Err(err) => Err(err),
            Ok(o) => Ok(
                StmtOut { locals, stack, mask: o.mask, target: o.target, instrs: o.instrs },
            ),
        },
    }
}

/// What a run of statements emits, threading the local table, the stack
/// offset and the expression-level state left to right.
pub open spec fn emit_body(
    stmts: Seq<Expr>,
    locals: Seq<VarModel>,
    funcs: Seq<FnModel>,
    stack: u16,
    mask: u32,
    target: Registers,
) -> Result<StmtOut, BackendError>
    decreases stmts,
{
    if stmts.len() == 0 {
        Ok(StmtOut { locals, stack, mask, target, instrs: Seq::empty() })
    } else {
        match emit_stmt(stmts[0], locals, funcs, stack, mask, target) {
            Err(e) => Err(e),
            Ok(o) => match emit_body(stmts.drop_first(), o.locals, funcs, o.stack, o.mask, o.target) {
                Err(e) => Err(e),
                Ok(rest) => Ok(
                    StmtOut {
                        locals: rest.locals,
                        stack: rest.stack,
                        mask: rest.mask,
                        target: rest.target,
                        instrs: o.instrs + rest.instrs,
                    },
                ),
            },
        }
    }
}

/// The statements of a function body: a block's statements in order, and no
/// statements for any other body shape.
pub open spec fn body_stmts(body: Expr) -> Seq<Expr> {
    match body {
        Expr::Block(stmts) => stmts@,
        _ => Seq::empty(),
    }
}

/// The declared parameter type names, in order.
pub open spec fn param_types(ps: Seq<(String, String)>) -> Seq<Seq<char>> {
    Seq::new(ps.len(), |i: int| ps[i].1@)
}

/// The text of the timing-compatibility no-op call.
pub open spec fn rcall_text() -> Seq<char> {
    "rcall .+0"@
}

/// One stack-pointer-adjusting pop per byte of accumulated local size.
pub open spec fn pop_instrs(n: u16) -> Seq<Seq<char>> {
    Seq::new(n as nat, |j: int| s_pop(Registers::R0))
}

/// The timing padding: the `i`-th round inserts one no-op call at position
/// `i + 2` of the list as it then stands, one round per declared local.
pub open spec fn insert_rcalls(instrs: Seq<Seq<char>>, n: int) -> Seq<Seq<char>>
    decreases n,
{
    if n <= 0 {
        instrs
    } else {
        insert_rcalls(instrs, n - 1).insert(n + 1, rcall_text())
    }
}

/// Each padding round adds exactly one line.
pub proof fn lemma_insert_rcalls_len(instrs: Seq<Seq<char>>, n: int)
    requires
        0 <= n,
        2 <= instrs.len(),
    ensures
        insert_rcalls(instrs, n).len() == instrs.len() + n,
    decreases n,
{
    if n > 0 {
        lemma_insert_rcalls_len(instrs, n - 1);
    }
}

/// The finished instruction list of one function's label: prologue, body,
/// frame-discarding pops, then the timing padding, then the epilogue.
pub open spec fn function_label_instrs(bo: StmtOut) -> Seq<Seq<char>> {
    insert_rcalls(
        prologue_instrs() + bo.instrs + pop_instrs(bo.stack),
        bo.locals.len() as int,
    ) + epilogue_instrs()
}

/// What the top-level pass emits: one label per function declaration in the
/// code section, each function registered before its body is generated (so
/// a self-call resolves), with the local table and stack offset starting
/// empty for every function.  Any non-function top-level shape fails.
pub open spec fn emit_unit(
    nodes: Seq<Expr>,
    funcs: Seq<FnModel>,
    labels: Seq<LabelView>,
    mask: u32,
    target: Registers,
    label_cursor: int,
) -> Result<UnitOut, BackendError>
    decreases nodes,
{
    if nodes.len() == 0 {
        Ok(UnitOut { funcs, labels, mask, target, label_cursor })
    } else {
        match nodes[0] {
            Expr::Function(name, ret, params, body) => {
                let addr = labels.len() as u16;
                let funcs2 = funcs.push(
                    FnModel { name: name@, ret: ret@, args: param_types(params@), address: addr },
                );
                match emit_body(body_stmts(*body), Seq::empty(), funcs2, 0, mask, target) {
                    Err(e) => Err(e),
                    Ok(bo) => emit_unit(
                        nodes.drop_first(),
                        funcs2,
                        labels.push(
                            LabelView { name: name@, instructions: function_label_instrs(bo) },
                        ),
                        bo.mask,
                        bo.target,
                        addr as int,
                    ),
                }
            },
            _ => Err(BackendError::UnsupportedValue),
        }
    }
}

/// The whole pass: one `main` global, a data section, a code section
/// holding every function's label, the cursor left on the code section and
/// the last function's label.
pub open spec fn spec_process(nodes: Seq<Expr>) -> Result<WriterView, BackendError> {
    match emit_unit(nodes, Seq::empty(), Seq::empty(), WIN_NONE, Registers::R0, 0) {
        Err(e) => Err(e),
        Ok(u) => Ok(
            WriterView {
                globals: seq!["main"@],
                sections: seq![
                    SectionView { name: ".data"@, labels: Seq::empty() },
                    SectionView { name: ".text"@, labels: u.labels },
                ],
                section: 1,
                label: u.label_cursor,
            },
        ),
    }
}

/// The assembly text of a whole compilation unit, or the first error.
pub open spec fn spec_compile(nodes: Seq<Expr>) -> Result<Seq<char>, BackendError> {
    match spec_process(nodes) {
        Err(e) => Err(e),
        Ok(w) => Ok(spec_render(w)),
    }
}


/// Keeping a prefix is transitive.
pub proof fn lemma_take_prefix_trans(a: Seq<VarModel>, b: Seq<VarModel>, c: Seq<VarModel>)
    requires
        a.len() <= b.len() <= c.len(),
        b.take(a.len() as int) == a,
        c.take(b.len() as int) == b,
    ensures
        c.take(a.len() as int) == a,
{
    broadcast use vstd::seq_lib::lemma_seq_take_len, vstd::seq_lib::lemma_seq_take_index;

    assert(c.take(a.len() as int) =~= a) by {
        assert forall|k: int| 0 <= k < a.len() implies c.take(a.len() as int)[k] == a[k] by {
            assert(c.take(b.len() as int)[k] == b[k]);
            assert(c.take(b.len() as int)[k] == c[k]);
            assert(c.take(a.len() as int)[k] == c[k]);
            assert(b.take(a.len() as int)[k] == a[k]);
            assert(b.take(a.len() as int)[k] == b[k]);
        }
    }
}

/// A linear scan that finds its first match at position `i` agrees with the
/// recursive lookup.
pub proof fn lemma_lookup_var_first(ls: Seq<VarModel>, name: Seq<char>, i: int)
    requires
        0 <= i < ls.len(),
        forall|k: int| 0 <= k < i ==> (#[trigger] ls[k]).name != name,
        ls[i].name == name,
    ensures
        lookup_var(ls, name) == Some(ls[i]),
    decreases i,
{
    if i > 0 {
        lemma_lookup_var_first(ls.drop_first(), name, i - 1);
    }
}

/// A linear scan that finds no match agrees with the recursive lookup.
pub proof fn lemma_lookup_var_none(ls: Seq<VarModel>, name: Seq<char>)
    requires
        forall|k: int| 0 <= k < ls.len() ==> (#[trigger] ls[k]).name != name,
    ensures
        lookup_var(ls, name) is None,
    decreases ls.len(),
{
    if ls.len() > 0 {
        lemma_lookup_var_none(ls.drop_first(), name);
    }
}

/// A linear scan that finds its first match at position `i` agrees with the
/// recursive function lookup.
pub proof fn lemma_lookup_fn_first(fs: Seq<FnModel>, name: Seq<char>, i: int)
    requires
        0 <= i < fs.len(),
        forall|k: int| 0 <= k < i ==> (#[trigger] fs[k]).name != name,
        fs[i].name == name,
    ensures
        lookup_fn(fs, name) == Some(fs[i]),
    decreases i,
{
    if i > 0 {
        lemma_lookup_fn_first(fs.drop_first(), name, i - 1);
    }
}

/// A linear scan that finds no function agrees with the recursive lookup.
pub proof fn lemma_lookup_fn_none(fs: Seq<FnModel>, name: Seq<char>)
    requires
        forall|k: int| 0 <= k < fs.len() ==> (#[trigger] fs[k]).name != name,
    ensures
        lookup_fn(fs, name) is None,
    decreases fs.len(),
{
    if fs.len() > 0 {
        lemma_lookup_fn_none(fs.drop_first(), name);
    }
}


/// Law: for any 16-bit literal, recombining the two emitted immediate
/// bytes as `low | (high << 8)` gives back the literal's two's-complement
/// bit pattern.
pub proof fn lemma_load_literal_recombines(val: i16)
    ensures
        ((lo_byte(val) as u16) | (((hi_byte(val) as u16)) << 8)) == val as u16,
{
    assert((((val & 0xff) as u16) | ((((val >> 8) & 0xff) as u16)) << 8) == val as u16)
        by (bit_vector);
}

/// Law: the ripple-carry chain for a `width`-byte addition holds exactly
/// one `add` and `width - 1` `adc` lines, and the line for byte `j` works
/// on the `j`-th registers of the result and source windows, so the chain
/// runs in low-to-high byte order.
pub proof fn lemma_ripple_chain(rd: Registers, rs: Registers, width: u16)
    requires
        1 <= width,
    ensures
        add_chain_instrs(rd, rs, width).len() == width,
        add_chain_instrs(rd, rs, width)[0] == s_add(rd, rs),
        forall|j: int|
            1 <= j < width ==> #[trigger] add_chain_instrs(rd, rs, width)[j] == s_adc(
                reg_of(reg_idx(rd) + j),
                reg_of(reg_idx(rs) + j),
            ),
{
}

/// Law: when an addition's operands have equal width, its emitted lines are
/// the two operand walks followed by exactly one `add` and `width - 1`
/// `adc` lines, low byte to high.
pub proof fn lemma_addition_ripple(lo: EmitOut, ro: EmitOut, out: EmitOut)
    requires
        binop_place(true, lo, ro) == Ok::<EmitOut, BackendError>(out),
        lo.width == ro.width,
        1 <= lo.width,
    ensures
        ({
            let rd = if ro.mask & WIN_TERTIARY == 0 {
                Registers::R24
            } else {
                Registers::R18
            };
            let rs = if ro.mask & WIN_TERTIARY == 0 {
                Registers::R18
            } else {
                Registers::R16
            };
            let chain = add_chain_instrs(rd, rs, lo.width);
            &&& out.instrs == lo.instrs + ro.instrs + chain
            &&& out.width == lo.width
            &&& chain.len() == lo.width
            &&& chain[0] == s_add(rd, rs)
            &&& forall|j: int|
                1 <= j < lo.width ==> #[trigger] chain[j] == s_adc(
                    reg_of(reg_idx(rd) + j),
                    reg_of(reg_idx(rs) + j),
                )
        }),
{
    lemma_ripple_chain(
        if ro.mask & WIN_TERTIARY == 0 {
            Registers::R24
        } else {
            Registers::R18
        },
        if ro.mask & WIN_TERTIARY == 0 {
            Registers::R18
        } else {
            Registers::R16
        },
        lo.width,
    );
}

/// Law: declaring two locals of sizes `s1` then `s2` in a fresh frame gives
/// the first the frame cells `1 ..= s1` and the second the cells
/// `s1 + 1 ..= s1 + s2`; a later reference to either reads exactly those
/// offsets, byte `j` of the window against frame cell `offset + 1 + j`, the
/// same pairing the stores used.
pub proof fn lemma_frame_layout(
    n1: Seq<char>,
    ty1: Seq<char>,
    e1: Expr,
    n2: Seq<char>,
    ty2: Seq<char>,
    e2: Expr,
    funcs: Seq<FnModel>,
    m0: u32,
    o1: StmtOut,
    o2: StmtOut,
)
    requires
        n1 != n2,
        decl_spec(n1, ty1, e1, Seq::empty(), funcs, 0, m0) == Ok::<StmtOut, BackendError>(o1),
        decl_spec(n2, ty2, e2, o1.locals, funcs, o1.stack, o1.mask) == Ok::<
            StmtOut,
            BackendError,
        >(o2),
    ensures
        ({
            let s1 = spec_size(ty1)->Some_0;
            let s2 = spec_size(ty2)->Some_0;
            &&& spec_size(ty1) is Some
            &&& spec_size(ty2) is Some
            &&& o1.stack == s1
            &&& o2.stack == s1 + s2
            &&& o1.instrs.skip(o1.instrs.len() - s1) == store_local_instrs(0, s1)
            &&& o2.instrs.skip(o2.instrs.len() - s2) == store_local_instrs(s1, s2)
            &&& forall|j: int|
                0 <= j < s1 ==> #[trigger] store_local_instrs(0, s1)[j] == s_std(
                    Registers::Y,
                    (1 + j) as u16,
                    reg_of(24 + j),
                )
            &&& forall|j: int|
                0 <= j < s2 ==> #[trigger] store_local_instrs(s1, s2)[j] == s_std(
                    Registers::Y,
                    (s1 + 1 + j) as u16,
                    reg_of(24 + j),
                )
            &&& lookup_var(o2.locals, n1) == Some(VarModel { name: n1, size: s1, offset: 0 })
            &&& lookup_var(o2.locals, n2) == Some(VarModel { name: n2, size: s2, offset: s1 })
            &&& forall|dest: Registers, j: int|
                0 <= j < s1 ==> #[trigger] load_var_instrs(dest, 0, s1)[j] == s_ldd(
                    reg_of(reg_idx(dest) + j),
                    Registers::Y,
                    (1 + j) as u16,
                )
            &&& forall|dest: Registers, j: int|
                0 <= j < s2 ==> #[trigger] load_var_instrs(dest, s1, s2)[j] == s_ldd(
                    reg_of(reg_idx(dest) + j),
                    Registers::Y,
                    (s1 + 1 + j) as u16,
                )
        }),
{
    let s1 = spec_size(ty1)->Some_0;
    let s2 = spec_size(ty2)->Some_0;
    let v1 = VarModel { name: n1, size: s1, offset: 0 };
    let v2 = VarModel { name: n2, size: s2, offset: s1 };
    assert(o1.locals == Seq::empty().push(v1));
    assert(o2.locals == o1.locals.push(v2));
    assert(o1.instrs.skip(o1.instrs.len() - s1) =~= store_local_instrs(0, s1));
    assert(o2.instrs.skip(o2.instrs.len() - s2) =~= store_local_instrs(s1, s2));
    assert(o2.locals[0] == v1);
    assert(o2.locals.drop_first() =~= Seq::empty().push(v2));
    assert(lookup_var(o2.locals, n2) == lookup_var(Seq::empty().push(v2), n2));
}

} // verus!

