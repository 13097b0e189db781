//! The code generator: walks top-level declarations, lays out stack frames,
//! drives the register windows and the symbol tables, and emits
//! instructions into the buffer.
//!
//! Every method is proved to emit exactly the lines that the model in
//! `emit` prescribes, and to fail with exactly the model's error otherwise.

use vstd::prelude::*;

use crate::asm_writer::{
    AVRWriter, LabelView, Registers, SectionView, WriterView, appended_only, cur_instrs,
    cursor_ok, lemma_appended_only_refl, lemma_appended_only_trans, lemma_with_instrs_cur,
    lemma_with_instrs_twice, with_instrs,
};
use crate::ast::{Ast, Expr};
use crate::emit::{
    ArgsOut, EmitOut, FnModel, StmtOut, VarModel, WIN_NONE, WIN_PRIMARY,
    WIN_SECONDARY, WIN_TERTIARY, add_chain_instrs, body_stmts,
    binop_spec, decl_spec, emit_args, emit_body, emit_expr, emit_stmt, emit_unit, function_label_instrs,
    insert_rcalls, lemma_lookup_fn_first, lemma_lookup_fn_none, lemma_lookup_var_first,
    lemma_lookup_var_none, lo_byte, hi_byte, load_const_instrs, load_var_instrs, locals_wf,
    lookup_fn, lookup_var, mov_instrs, param_types, pop_instrs, rcall_text,
    spec_compile, spec_dest, spec_process, spec_reserve, spec_size, store_local_instrs,
};
use crate::strutil::str_eq;

pub use crate::emit::BackendError;

verus! {

/// One declared function's symbol: name, return type name, parameter type
/// names, and the label its code lives under.
struct Function {
    name: String,
    ret: String,
    args: Vec<String>,
    address: u16,
}

/// One local variable's symbol: name, byte size, frame offset.
struct Variable {
    name: String,
    size: u16,
    stack_offset: u16,
}

/// The generation context threaded through the whole pass.
struct Context {
    functions: Vec<Function>,
    locals: Vec<Variable>,
    text: u16,
    data: u16,
    stack_offset: u16,
    used_regs: u32,
    target_register: Registers,
}

impl View for Function {
    type V = FnModel;

    closed spec fn view(&self) -> FnModel {
        FnModel {
            name: self.name@,
            ret: self.ret@,
            args: self.args.deep_view(),
            address: self.address,
        }
    }
}

impl View for Variable {
    type V = VarModel;

    closed spec fn view(&self) -> VarModel {
        VarModel { name: self.name@, size: self.size, offset: self.stack_offset }
    }
}

/// The code generator for one compilation unit.
pub struct AVRBackend<'a> {
    nodes: &'a [Expr],
    assm: AVRWriter,
    ctx: Context,
}

impl<'a> AVRBackend<'a> {
    /// The instruction buffer's model.
    pub closed spec fn buf(&self) -> WriterView {
        self.assm@
    }

    /// The local-variable table's model.
    pub closed spec fn locals_model(&self) -> Seq<VarModel> {
        Seq::new(self.ctx.locals@.len(), |i: int| self.ctx.locals@[i]@)
    }

    /// The function table's model.
    pub closed spec fn funcs_model(&self) -> Seq<FnModel> {
        Seq::new(self.ctx.functions@.len(), |i: int| self.ctx.functions@[i]@)
    }

    /// The register-window mask.
    pub closed spec fn mask(&self) -> u32 {
        self.ctx.used_regs
    }

    /// The target register the current expression must land in (`R0` is the
    /// sentinel meaning "allocator decides").
    pub closed spec fn target(&self) -> Registers {
        self.ctx.target_register
    }

    /// The current stack offset: the bytes of frame space handed out so far
    /// in the current function.
    pub closed spec fn stack(&self) -> u16 {
        self.ctx.stack_offset
    }

    /// The input tree.
    pub closed spec fn nodes_seq(&self) -> Seq<Expr> {
        self.nodes@
    }

    /// The parts of the state that expression emission never touches.
    pub closed spec fn same_tables(&self, o: &Self) -> bool {
        &&& self.locals_model() == o.locals_model()
        &&& self.funcs_model() == o.funcs_model()
        &&& self.stack() == o.stack()
        &&& self.nodes_seq() == o.nodes_seq()
    }

    /// A generator that has not emitted anything yet.
    pub open spec fn is_fresh(&self) -> bool {
        &&& self.buf().globals.len() == 0
        &&& self.buf().sections.len() == 0
        &&& self.buf().section == 0
        &&& self.buf().label == 0
        &&& self.funcs_model() == Seq::<FnModel>::empty()
        &&& self.locals_model() == Seq::<VarModel>::empty()
        &&& self.stack() == 0
        &&& self.mask() == WIN_NONE
        &&& self.target() == Registers::R0
    }

    /// A fresh generator over the given top-level declarations.
    pub fn new(source: &'a [Expr]) -> (b: AVRBackend<'a>)
        ensures
            b.is_fresh(),
            b.nodes_seq() == source@,
    {
        let b = AVRBackend {
            nodes: source,
            assm: AVRWriter::new(),
            ctx: Context {
                functions: Vec::new(),
                locals: Vec::new(),
                text: 0,
                data: 0,
                stack_offset: 0,
                used_regs: WIN_NONE,
                target_register: Registers::R0,
            },
        };
        proof {
            assert(b.funcs_model() =~= Seq::<FnModel>::empty());
            assert(b.locals_model() =~= Seq::<VarModel>::empty());
        }
        b
    }

    /// Resolve a type name to its byte size: `char` is 1, `int` is 2,
    /// `long` is 4; any other name is a resolution failure.
    pub fn resolve_size(&self, ty: &str) -> (r: Result<u16, BackendError>)
        ensures
            match spec_size(ty@) {
                Some(s) => r == Ok::<u16, BackendError>(s),
                None => r == Err::<u16, BackendError>(BackendError::AssemblerError),
            },
    {
        if str_eq(ty, "char") {
            Ok(1)
        } else if str_eq(ty, "int") {
            Ok(2)
        } else if str_eq(ty, "long") {
            Ok(4)
        } else {
            Err(BackendError::AssemblerError)
        }
    }

    /// Reserve one value slot: the first free window in the fixed priority
    /// order, falling back to re-issuing the secondary window when all
    /// three are claimed (the documented aliasing weakness of this
    /// allocator, kept as is).
    fn reserve_single(&mut self) -> (r: Registers)
        ensures
            ({
                let (m2, reg) = spec_reserve(old(self).mask());
                final(self).mask() == m2 && r == reg
            }),
            final(self).buf() == old(self).buf(),
            final(self).target() == old(self).target(),
            final(self).same_tables(old(self)),
    {
        if self.ctx.used_regs & WIN_PRIMARY == 0 {
            self.ctx.used_regs = self.ctx.used_regs | WIN_PRIMARY;
            Registers::R24
        } else if self.ctx.used_regs & WIN_SECONDARY == 0 {
            self.ctx.used_regs = self.ctx.used_regs | WIN_SECONDARY;
            Registers::R18
        } else if self.ctx.used_regs & WIN_TERTIARY == 0 {
            self.ctx.used_regs = self.ctx.used_regs | WIN_TERTIARY;
            Registers::R16
        } else {
            self.ctx.used_regs = self.ctx.used_regs | WIN_SECONDARY;
            Registers::R18
        }
    }

    /// Emit the two-load sequence for a 16-bit literal: low byte, then high
    /// byte, into the first two registers of the chosen window.  Always
    /// reports width 2.
    fn load_constant(&mut self, val: i16) -> (r: Result<u16, BackendError>)
        requires
            cursor_ok(old(self).buf()),
        ensures
            r == Ok::<u16, BackendError>(2u16),
            ({
                let (m2, dest) = spec_dest(old(self).mask(), old(self).target());
                final(self).mask() == m2 && final(self).buf() == with_instrs(
                    old(self).buf(),
                    cur_instrs(old(self).buf()) + load_const_instrs(dest, val),
                )
            }),
            final(self).target() == old(self).target(),
            final(self).same_tables(old(self)),
    {
        let ghost w0 = self.assm@;
        let ghost c0 = cur_instrs(w0);
        let dest: Registers;
        if self.ctx.target_register == Registers::R0 {
            dest = self.reserve_single();
        } else {
            dest = self.ctx.target_register;
        }
        self.assm.ldi(dest, val & 0xff);
        proof {
            lemma_with_instrs_cur(w0, c0.push(crate::asm_writer::s_ldi(dest, lo_byte(val))));
        }
        self.assm.ldi(dest.add(1), (val >> 8) & 0xff);
        proof {
            let i1 = crate::asm_writer::s_ldi(dest, lo_byte(val));
            let i2 = crate::asm_writer::s_ldi(
                crate::asm_writer::reg_of(crate::asm_writer::reg_idx(dest) + 1),
                hi_byte(val),
            );
            lemma_with_instrs_twice(w0, c0.push(i1), c0.push(i1).push(i2));
            assert(c0.push(i1).push(i2) =~= c0 + load_const_instrs(dest, val));
        }
        Ok(2)
    }

    /// Emit one displaced load per byte of a local, most significant last,
    /// into consecutive registers of the chosen window.
    fn emit_moffset(&mut self, offset: u16, size: u16) -> (r: Result<(), BackendError>)
        requires
            cursor_ok(old(self).buf()),
            offset + size <= u16::MAX,
            size <= 4,
        ensures
            r == Ok::<(), BackendError>(()),
            ({
                let (m2, dest) = spec_dest(old(self).mask(), old(self).target());
                final(self).mask() == m2 && final(self).buf() == with_instrs(
                    old(self).buf(),
                    cur_instrs(old(self).buf()) + load_var_instrs(dest, offset, size),
                )
            }),
            final(self).target() == old(self).target(),
            final(self).same_tables(old(self)),
    {
        let ghost w0 = self.assm@;
        let ghost c0 = cur_instrs(w0);
        let dest: Registers;
        if self.ctx.target_register == Registers::R0 {
            dest = self.reserve_single();
        } else {
            dest = self.ctx.target_register;
        }
        let ghost full = load_var_instrs(dest, offset, size);
        let ghost m2v = spec_dest(old(self).mask(), old(self).target()).0;
        proof {
            assert(dest == spec_dest(old(self).mask(), old(self).target()).1);
            assert(c0 + full.take(0) =~= c0);
            assert(with_instrs(w0, c0 + full.take(0)) =~~= w0);
        }
        let mut j: u16 = 0;
        while j < size
            invariant
                j <= size,
                offset + size <= u16::MAX,
                size <= 4,
                cursor_ok(w0),
                w0 == old(self).buf(),
                c0 == cur_instrs(w0),
                full == load_var_instrs(dest, offset, size),
                self.assm@ == with_instrs(w0, c0 + full.take(j as int)),
                self.mask() == m2v,
                self.target() == old(self).target(),
                self.same_tables(old(self)),
            decreases size - j,
        {
            proof {
                lemma_with_instrs_cur(w0, c0 + full.take(j as int));
            }
            self.assm.ldd(dest.add(j as u8), Registers::Y, offset + 1 + j);
            proof {
                lemma_with_instrs_twice(
                    w0,
                    c0 + full.take(j as int),
                    (c0 + full.take(j as int)).push(full[j as int]),
                );
                assert((c0 + full.take(j as int)).push(full[j as int]) =~= c0 + full.take(
                    j + 1,
                ));
            }
            j += 1;
        }
        proof {
            assert(full.take(size as int) =~= full);
        }
        Ok(())
    }

    /// Look a variable up by name (first declared wins) and emit the loads
    /// that bring it into a window; report its declared size.
    #[verifier::loop_isolation(false)]
    fn load_variable(&mut self, name: String) -> (r: Result<u16, BackendError>)
        requires
            cursor_ok(old(self).buf()),
            locals_wf(old(self).locals_model()),
        ensures
            match lookup_var(old(self).locals_model(), name@) {
                Some(v) => r == Ok::<u16, BackendError>(v.size) && ({
                    let (m2, dest) = spec_dest(old(self).mask(), old(self).target());
                    final(self).mask() == m2 && final(self).buf() == with_instrs(
                        old(self).buf(),
                        cur_instrs(old(self).buf()) + load_var_instrs(dest, v.offset, v.size),
                    )
                }) && final(self).target() == old(self).target() && 1 <= v.size <= 4,
                None => r == Err::<u16, BackendError>(BackendError::AssemblerError) && *final(self)
                    == *old(self),
            },
            final(self).same_tables(old(self)),
    {
        let ghost pre = *self;
        proof {
            assert(pre == *old(self));
        }
        let n = self.ctx.locals.len();
        let mut i: usize = 0;
        while i < n
            invariant
                i <= n,
                n == self.ctx.locals.len(),
                forall|k: int| 0 <= k < i ==> (#[trigger] self.locals_model()[k]).name != name@,
                *self == pre,
                cursor_ok(pre.buf()),
                locals_wf(pre.locals_model()),
            decreases n - i,
        {
            let is_match = str_eq(self.ctx.locals[i].name.as_str(), name.as_str());
            proof {
                assert(self.locals_model()[i as int] == self.ctx.locals@[i as int]@);
            }
            if is_match {
                let offset = self.ctx.locals[i].stack_offset;
                let size = self.ctx.locals[i].size;
                proof {
                    lemma_lookup_var_first(self.locals_model(), name@, i as int);
                    assert(self.locals_model()[i as int].name == name@);
                    assert(self.locals_model()[i as int].size == size);
                    assert(self.locals_model()[i as int].offset == offset);
                    assert(self.locals_model()[i as int] =~= VarModel {
                        name: name@,
                        size,
                        offset,
                    });
                    assert(locals_wf(self.locals_model()));
                    assert(1 <= size <= 4 && offset + size <= u16::MAX);
                }
                self.emit_moffset(offset, size)?;
                return Ok(size);
            }
            proof {
                assert(self.locals_model()[i as int].name != name@);
            }
            i += 1;
        }
        proof {
            lemma_lookup_var_none(self.locals_model(), name@);
        }
        Err(BackendError::AssemblerError)
    }
}


impl<'a> AVRBackend<'a> {
    /// Resolve a callee by exact name against the functions declared so
    /// far; forward references fail.
    fn resolve_function(&self, name: &str) -> (r: Result<&Function, BackendError>)
        ensures
            match lookup_fn(self.funcs_model(), name@) {
                Some(f) => match r {
                    Ok(func) => func@ == f,
                    Err(_) => false,
                },
                None => match r {
                    Ok(_) => false,
                    Err(e) => e == BackendError::CannotResolveFunction,
                },
            },
    {
        let n = self.ctx.functions.len();
        let mut i: usize = 0;
        while i < n
            invariant
                i <= n,
                n == self.ctx.functions.len(),
                forall|k: int| 0 <= k < i ==> (#[trigger] self.funcs_model()[k]).name != name@,
            decreases n - i,
        {
            proof {
                assert(self.funcs_model()[i as int] == self.ctx.functions@[i as int]@);
            }
            if str_eq(self.ctx.functions[i].name.as_str(), name) {
                proof {
                    lemma_lookup_fn_first(self.funcs_model(), name@, i as int);
                }
                return Ok(&self.ctx.functions[i]);
            }
            i += 1;
        }
        proof {
            lemma_lookup_fn_none(self.funcs_model(), name@);
        }
        Err(BackendError::CannotResolveFunction)
    }

    /// Emit a binary operation: generate each operand as an independent
    /// root evaluation, pick the result and source windows by the mask
    /// pattern, then ripple the addition over the left operand's width,
    /// low byte to high.  Subtraction is recognized but unimplemented and
    /// fails explicitly rather than passing silently.
    #[verifier::loop_isolation(false)]
    #[verifier::rlimit(60)]
    fn emit_binop(&mut self, expr: &Expr) -> (r: Result<u16, BackendError>)
        requires
            cursor_ok(old(self).buf()),
            locals_wf(old(self).locals_model()),
            (*expr matches Expr::Add(_, _)) || (*expr matches Expr::Sub(_, _)),
        ensures
            ({
                let spec_r = binop_spec(
                    *expr,
                    old(self).locals_model(),
                    old(self).funcs_model(),
                    old(self).mask(),
                );
                match (r, spec_r) {
                    (Ok(w), Ok(out)) => w == out.width && final(self).mask() == out.mask
                        && final(self).target() == out.target && final(self).buf() == with_instrs(
                        old(self).buf(),
                        cur_instrs(old(self).buf()) + out.instrs,
                    ) && final(self).same_tables(old(self)) && 1 <= w <= 4,
                    (Err(e1), Err(e2)) => e1 == e2 && final(self).same_tables(old(self))
                        && appended_only(old(self).buf(), final(self).buf()),
                    _ => false,
                }
            }),
        decreases *expr, 0int,
    {
        let is_add = matches!(expr, Expr::Add(_, _));
        match expr {
            Expr::Add(lhs, rhs) | Expr::Sub(lhs, rhs) => {
                let ghost w0 = self.buf();
                let ghost c0 = cur_instrs(w0);
                let ghost locals0 = self.locals_model();
                let ghost funcs0 = self.funcs_model();
                let ghost m0 = self.mask();
                let lhs_size = match self.emit_expression(&**lhs, false, Registers::R0) {
                    Ok(w) => w,
                    Err(e) => {
                        return Err(e);
                    },
                };
                let ghost lo = emit_expr(
                    **lhs,
                    locals0,
                    funcs0,
                    m0,
                    Registers::R0,
                    false,
                )->Ok_0;
                proof {
                    lemma_with_instrs_cur(w0, c0 + lo.instrs);
                }
                let rhs_size = match self.emit_expression(&**rhs, false, Registers::R0) {
                    Ok(w) => w,
                    Err(e) => {
                        proof {
                            assert(appended_only(w0, with_instrs(w0, cur_instrs(w0) + lo.instrs)));
                            lemma_appended_only_trans(
                                w0,
                                with_instrs(w0, cur_instrs(w0) + lo.instrs),
                                self.buf(),
                            );
                        }
                        return Err(e);
                    },
                };
                let ghost ro = emit_expr(
                    **rhs,
                    locals0,
                    funcs0,
                    lo.mask,
                    Registers::R0,
                    false,
                )->Ok_0;
                proof {
                    lemma_with_instrs_twice(w0, c0 + lo.instrs, (c0 + lo.instrs) + ro.instrs);
                    assert((c0 + lo.instrs) + ro.instrs =~= c0 + (lo.instrs + ro.instrs));
                    lemma_with_instrs_cur(w0, c0 + (lo.instrs + ro.instrs));
                }
                let rcouple: (Registers, Registers);
                if self.ctx.used_regs & WIN_PRIMARY != 0 && self.ctx.used_regs & WIN_SECONDARY != 0
                    && self.ctx.used_regs & WIN_TERTIARY == 0 {
                    self.ctx.used_regs = self.ctx.used_regs & !WIN_SECONDARY;
                    rcouple = (Registers::R24, Registers::R18);
                } else if self.ctx.used_regs & WIN_PRIMARY != 0 && self.ctx.used_regs
                    & WIN_SECONDARY != 0 && self.ctx.used_regs & WIN_TERTIARY != 0 {
                    self.ctx.used_regs = self.ctx.used_regs & !WIN_TERTIARY;
                    rcouple = (Registers::R18, Registers::R16);
                } else {
                    proof {
                        assert(self.buf() == with_instrs(
                            w0,
                            cur_instrs(w0) + (lo.instrs + ro.instrs),
                        ));
                        assert(appended_only(w0, self.buf()));
                    }
                    return Err(BackendError::RanOutOfRegisters);
                }
                if is_add {
                    let ghost chain = add_chain_instrs(rcouple.0, rcouple.1, lhs_size);
                    let ghost base = c0 + (lo.instrs + ro.instrs);
                    self.assm.add(rcouple.0, rcouple.1);
                    proof {
                        lemma_with_instrs_twice(w0, base, base.push(chain[0]));
                        assert(base.push(chain[0]) =~= base + chain.take(1));
                        lemma_with_instrs_cur(w0, base + chain.take(1));
                    }
                    let mut k: u16 = 1;
                    while k < lhs_size
                        invariant
                            1 <= k <= lhs_size || (lhs_size == 0 && k == 1),
                            self.buf() == with_instrs(w0, base + chain.take(k as int)),
                            self.mask() == ro.mask & !(if rcouple.1 == Registers::R18 {
                                WIN_SECONDARY
                            } else {
                                WIN_TERTIARY
                            }),
                            self.target() == ro.target,
                            self.same_tables(old(self)),
                        decreases lhs_size - k,
                    {
                        proof {
                            lemma_with_instrs_cur(w0, base + chain.take(k as int));
                            assert(chain[k as int] == crate::asm_writer::s_adc(
                                crate::asm_writer::reg_of(
                                    crate::asm_writer::reg_idx(rcouple.0) + k,
                                ),
                                crate::asm_writer::reg_of(
                                    crate::asm_writer::reg_idx(rcouple.1) + k,
                                ),
                            ));
                        }
                        self.assm.adc(rcouple.0.add(k as u8), rcouple.1.add(k as u8));
                        proof {
                            lemma_with_instrs_twice(
                                w0,
                                base + chain.take(k as int),
                                (base + chain.take(k as int)).push(chain[k as int]),
                            );
                            assert((base + chain.take(k as int)).push(chain[k as int]) =~= base
                                + chain.take(k + 1));
                        }
                        k += 1;
                    }
                    proof {
                        assert(chain.take(lhs_size as int) =~= chain);
                        assert(base + chain =~= c0 + (lo.instrs + ro.instrs + chain));
                    }
                    if lhs_size >= rhs_size {
                        Ok(lhs_size)
                    } else {
                        Ok(rhs_size)
                    }
                } else {
                    proof {
                        assert(self.buf() == with_instrs(
                            w0,
                            cur_instrs(w0) + (lo.instrs + ro.instrs),
                        ));
                        assert(appended_only(w0, self.buf()));
                    }
                    Err(BackendError::UnsupportedBinaryOperation)
                }
            },
            _ => {
                proof {
                    assert(false);
                }
                Err(BackendError::UnsupportedValue)
            },
        }
    }
}


impl<'a> AVRBackend<'a> {
    /// Copy one argument's bytes from the primary window into its argument
    /// window, when the argument walk left the target sentinel in place and
    /// the argument window is not the primary window itself.
    fn emit_arg_movs(&mut self, current_reg: Registers, arg_size: u16)
        requires
            cursor_ok(old(self).buf()),
            arg_size <= 4,
        ensures
            final(self).buf() == with_instrs(
                old(self).buf(),
                cur_instrs(old(self).buf()) + (if current_reg != Registers::R24 && old(self).target() == Registers::R0 {
                    mov_instrs(current_reg, arg_size)
                } else {
                    Seq::<Seq<char>>::empty()
                }),
            ),
            final(self).mask() == old(self).mask(),
            final(self).target() == old(self).target(),
            final(self).same_tables(old(self)),
    {
        let ghost w0 = self.buf();
        let ghost c0 = cur_instrs(w0);
        let ghost movs = if current_reg != Registers::R24 && self.target() == Registers::R0 {
            mov_instrs(current_reg, arg_size)
        } else {
            Seq::<Seq<char>>::empty()
        };
        proof {
            assert(c0 + movs.take(0) =~= c0);
            assert(with_instrs(w0, c0 + movs.take(0)) =~~= w0);
        }
        let mut o: u16 = 0;
        while o < arg_size
            invariant
                o <= arg_size,
                arg_size <= 4,
                cursor_ok(w0),
                w0 == old(self).buf(),
                c0 == cur_instrs(w0),
                movs == (if current_reg != Registers::R24 && old(self).target()
                    == Registers::R0 {
                    mov_instrs(current_reg, arg_size)
                } else {
                    Seq::<Seq<char>>::empty()
                }),
                self.mask() == old(self).mask(),
                self.target() == old(self).target(),
                self.same_tables(old(self)),
                self.buf() == with_instrs(w0, c0 + movs.take(if o as int <= movs.len() as int {
                    o as int
                } else {
                    movs.len() as int
                })),
            decreases arg_size - o,
        {
            if current_reg != Registers::R24 && self.ctx.target_register == Registers::R0 {
                proof {
                    lemma_with_instrs_cur(w0, c0 + movs.take(o as int));
                }
                self.assm.mov(current_reg.add(o as u8), Registers::R24.add(o as u8));
                proof {
                    lemma_with_instrs_twice(
                        w0,
                        c0 + movs.take(o as int),
                        (c0 + movs.take(o as int)).push(movs[o as int]),
                    );
                    assert((c0 + movs.take(o as int)).push(movs[o as int]) =~= c0 + movs.take(
                        o + 1,
                    ));
                }
            }
            o += 1;
        }
        proof {
            if current_reg != Registers::R24 && old(self).target() == Registers::R0 {
                assert(movs.take(movs.len() as int) =~= movs);
            } else {
                assert(movs.take(0) =~= movs);
            }
        }
    }
}

impl<'a> AVRBackend<'a> {
    /// Resolve a callee and the byte width of its declared return type.
    fn callee_ret_width(&self, name: &str) -> (r: Result<u16, BackendError>)
        ensures
            ({
                let spec_r = match lookup_fn(self.funcs_model(), name@) {
                    None => Err::<u16, BackendError>(BackendError::CannotResolveFunction),
                    Some(f) => match spec_size(f.ret) {
                        None => Err::<u16, BackendError>(BackendError::AssemblerError),
                        Some(rw) => Ok::<u16, BackendError>(rw),
                    },
                };
                r == spec_r
            }),
    {
        let func = match self.resolve_function(name) {
            Ok(f) => f,
            Err(e) => {
                return Err(e);
            },
        };
        self.resolve_size(func.ret.as_str())
    }
}

impl<'a> AVRBackend<'a> {
    /// Emit a function call: resolve the callee, then generate each
    /// argument in order into a running argument window that starts at the
    /// tertiary window, copying out of the primary window where the
    /// argument walk left the target sentinel in place; report the callee's
    /// declared return width.
    #[verifier::loop_isolation(false)]
    #[verifier::rlimit(100)]
    #[verifier::spinoff_prover]
    fn emit_call(&mut self, name: &str, args: &Vec<Expr>) -> (r: Result<u16, BackendError>)
        requires
            cursor_ok(old(self).buf()),
            locals_wf(old(self).locals_model()),
        ensures
            ({
                let spec_r = match lookup_fn(old(self).funcs_model(), name@) {
                    None => Err::<EmitOut, BackendError>(BackendError::CannotResolveFunction),
                    Some(f) => match spec_size(f.ret) {
                        None => Err::<EmitOut, BackendError>(BackendError::AssemblerError),
                        Some(rw) => match emit_args(
                            args@,
                            old(self).locals_model(),
                            old(self).funcs_model(),
                            old(self).mask(),
                            old(self).target(),
                            Registers::R16,
                        ) {
                            Err(e) => Err::<EmitOut, BackendError>(e),
                            Ok(a) => Ok(
                                EmitOut {
                                    mask: a.mask,
                                    target: a.target,
                                    instrs: a.instrs,
                                    width: rw,
                                },
                            ),
                        },
                    },
                };
                match (r, spec_r) {
                    (Ok(w), Ok(out)) => w == out.width && final(self).mask() == out.mask
                        && final(self).target() == out.target && final(self).buf() == with_instrs(
                        old(self).buf(),
                        cur_instrs(old(self).buf()) + out.instrs,
                    ) && final(self).same_tables(old(self)) && 1 <= w <= 4,
                    (Err(e1), Err(e2)) => e1 == e2 && final(self).same_tables(old(self))
                        && appended_only(old(self).buf(), final(self).buf()),
                    _ => false,
                }
            }),
        decreases *args, 1int,
    {
        let ret_size: u16 = match self.callee_ret_width(name) {
            Ok(sz) => sz,
            Err(e) => {
                proof {
                    lemma_appended_only_refl(old(self).buf());
                }
                return Err(e);
            },
        };
        match self.emit_call_args(args) {
            Ok(_) => Ok(ret_size),
            Err(e) => Err(e),
        }
    }

    /// Generate a call's arguments in order, each as a root evaluation
    /// targeted at the running argument window, copying out of the primary
    /// window where the argument walk left the target sentinel in place.
    #[verifier::loop_isolation(false)]
    #[verifier::rlimit(100)]
    #[verifier::spinoff_prover]
    fn emit_call_args(&mut self, args: &Vec<Expr>) -> (r: Result<(), BackendError>)
        requires
            cursor_ok(old(self).buf()),
            locals_wf(old(self).locals_model()),
        ensures
            ({
                let spec_r = emit_args(
                    args@,
                    old(self).locals_model(),
                    old(self).funcs_model(),
                    old(self).mask(),
                    old(self).target(),
                    Registers::R16,
                );
                match (r, spec_r) {
                    (Ok(_), Ok(a)) => final(self).mask() == a.mask && final(self).target()
                        == a.target && final(self).buf() == with_instrs(
                        old(self).buf(),
                        cur_instrs(old(self).buf()) + a.instrs,
                    ) && final(self).same_tables(old(self)),
                    (Err(e1), Err(e2)) => e1 == e2 && final(self).same_tables(old(self))
                        && appended_only(old(self).buf(), final(self).buf()),
                    _ => false,
                }
            }),
        decreases *args, 0int,
    {
        let ghost w0 = self.buf();
        let ghost c0 = cur_instrs(w0);
        let ghost locals0 = self.locals_model();
        let ghost funcs0 = self.funcs_model();
        let ghost m0 = self.mask();
        let ghost t0 = self.target();
        let ghost mut emitted: Seq<Seq<char>> = Seq::empty();
        let mut current_reg = Registers::R16;
        let mut ai: usize = 0;
        proof {
            assert(args@.skip(0) =~= args@);
            assert(c0 + emitted =~= c0);
            assert(with_instrs(w0, c0 + emitted) =~~= w0);
        }
        while ai < args.len()
            invariant
                ai <= args.len(),
                self.buf() == with_instrs(w0, c0 + emitted),
                self.same_tables(old(self)),
                self.locals_model() == locals0,
                self.funcs_model() == funcs0,
                ({
                    let full = emit_args(args@, locals0, funcs0, m0, t0, Registers::R16);
                    let rem = emit_args(
                        args@.skip(ai as int),
                        locals0,
                        funcs0,
                        self.mask(),
                        self.target(),
                        current_reg,
                    );
                    match rem {
                        Err(e) => full == Err::<ArgsOut, BackendError>(e),
                        Ok(rest) => full == Ok::<ArgsOut, BackendError>(
                            ArgsOut {
                                mask: rest.mask,
                                target: rest.target,
                                cur: rest.cur,
                                instrs: emitted + rest.instrs,
                            },
                        ),
                    }
                }),
            decreases args.len() - ai,
        {
            let ghost m_pre = self.mask();
            let ghost t_pre = self.target();
            let ghost b_pre = self.buf();
            proof {
                assert(args@.skip(ai as int)[0] == args@[ai as int]);
                assert(args@.skip(ai as int).drop_first() =~= args@.skip(ai + 1));
            }
            let arg_size = match self.emit_expression(&args[ai], true, current_reg) {
                Ok(w) => w,
                Err(e) => {
                    proof {
                        assert(b_pre == with_instrs(w0, cur_instrs(w0) + emitted));
                        assert(appended_only(w0, b_pre));
                        lemma_appended_only_trans(w0, b_pre, self.buf());
                        assert(w0 == old(self).buf());
                    }
                    return Err(e);
                },
            };
            let ghost a = emit_expr(
                args@[ai as int],
                locals0,
                funcs0,
                m_pre,
                current_reg,
                true,
            )->Ok_0;
            let ghost movs = if current_reg != Registers::R24 && a.target == Registers::R0 {
                mov_instrs(current_reg, a.width)
            } else {
                Seq::<Seq<char>>::empty()
            };
            let ghost base = c0 + (emitted + a.instrs);
            proof {
                assert((c0 + emitted) + a.instrs =~= base);
                assert(self.buf() == with_instrs(w0, base)) by {
                    lemma_with_instrs_twice(w0, c0 + emitted, (c0 + emitted) + a.instrs);
                }
                lemma_with_instrs_cur(w0, base);
            }
            self.emit_arg_movs(current_reg, arg_size);
            proof {
                assert(arg_size == a.width);
                assert(movs == if current_reg != Registers::R24 && a.target == Registers::R0 {
                    mov_instrs(current_reg, arg_size)
                } else {
                    Seq::<Seq<char>>::empty()
                });
                lemma_with_instrs_twice(w0, base, base + movs);
                assert(base + movs =~= c0 + ((emitted + a.instrs) + movs));
            }
            let next_reg = current_reg.add(arg_size as u8);
            proof {
                let emitted0 = emitted;
                emitted = (emitted + a.instrs) + movs;
                assert(next_reg == crate::asm_writer::reg_of(
                    crate::asm_writer::reg_idx(current_reg) + a.width,
                ));
                let rem_new = emit_args(
                    args@.skip(ai + 1),
                    locals0,
                    funcs0,
                    self.mask(),
                    self.target(),
                    next_reg,
                );
                match rem_new {
                    Err(_) => {
                    },
                    Ok(rn) => {
                        assert(emitted0 + ((a.instrs + movs) + rn.instrs) =~= emitted
                            + rn.instrs);
                        assert(a.instrs + movs + rn.instrs =~= (a.instrs + movs) + rn.instrs);
                    },
                }
            }
            current_reg = next_reg;
            ai += 1;
        }
        proof {
            assert(args@.skip(args@.len() as int) =~= Seq::<Expr>::empty());
            assert(emitted + Seq::<Seq<char>>::empty() =~= emitted);
        }
        Ok(())
    }


    /// Emit one expression into the buffer.  A root call marks the start of
    /// an independent value computation and clears the window mask; the
    /// target register fixes where the value lands, with `R0` meaning "the
    /// allocator decides".  Returns the byte width of the value produced.
    fn emit_expression(&mut self, expr: &Expr, root: bool, target_register: Registers) -> (r:
        Result<u16, BackendError>)
        requires
            cursor_ok(old(self).buf()),
            locals_wf(old(self).locals_model()),
        ensures
            ({
                let spec_r = emit_expr(
                    *expr,
                    old(self).locals_model(),
                    old(self).funcs_model(),
                    old(self).mask(),
                    target_register,
                    root,
                );
                match (r, spec_r) {
                    (Ok(w), Ok(out)) => w == out.width && final(self).mask() == out.mask
                        && final(self).target() == out.target && final(self).buf() == with_instrs(
                        old(self).buf(),
                        cur_instrs(old(self).buf()) + out.instrs,
                    ) && final(self).same_tables(old(self)) && 1 <= w <= 4,
                    (Err(e1), Err(e2)) => e1 == e2 && final(self).same_tables(old(self))
                        && appended_only(old(self).buf(), final(self).buf()),
                    _ => false,
                }
            }),
        decreases *expr, 1int,
    {
        self.ctx.target_register = target_register;
        if root {
            self.ctx.used_regs = WIN_NONE;
        }
        let r = match expr {
            Expr::Number(value) => self.load_constant(#[verifier::truncate] (*value as i16)),
            Expr::Var(name) => self.load_variable(name.clone()),
            Expr::Add(_, _) => self.emit_binop(expr),
            Expr::Sub(_, _) => self.emit_binop(expr),
            Expr::Call(name, args) => self.emit_call(name.as_str(), args),
            _ => Err(BackendError::UnsupportedValue),
        };
        proof {
            lemma_appended_only_refl(old(self).buf());
        }
        r
    }
}


impl<'a> AVRBackend<'a> {
    /// Emit one declaration: size the type, register the variable at the
    /// current stack offset, generate the initializer into the primary
    /// window, then spill it into consecutive frame cells and advance the
    /// stack offset.
    #[verifier::loop_isolation(false)]
    fn emit_declaration(&mut self, name: &str, ty: &str, value: &Expr) -> (r: Result<
        (),
        BackendError,
    >)
        requires
            cursor_ok(old(self).buf()),
            locals_wf(old(self).locals_model()),
        ensures
            ({
                let spec_r = decl_spec(
                    name@,
                    ty@,
                    *value,
                    old(self).locals_model(),
                    old(self).funcs_model(),
                    old(self).stack(),
                    old(self).mask(),
                );
                match (r, spec_r) {
                    (Ok(_), Ok(o)) => final(self).locals_model() == o.locals && final(self).stack()
                        == o.stack && final(self).mask() == o.mask && final(self).target()
                        == o.target && final(self).buf() == with_instrs(
                        old(self).buf(),
                        cur_instrs(old(self).buf()) + o.instrs,
                    ) && final(self).funcs_model() == old(self).funcs_model() && final(self).nodes_seq() == old(self).nodes_seq() && locals_wf(o.locals),
                    (Err(e1), Err(e2)) => e1 == e2 && ({
                        if spec_size(ty@) is None || old(self).stack() + spec_size(ty@)->Some_0
                            > u16::MAX {
                            // the failure happens before any mutation
                            *final(self) == *old(self)
                        } else {
                            &&& final(self).locals_model() == old(self).locals_model().push(
                                VarModel {
                                    name: name@,
                                    size: spec_size(ty@)->Some_0,
                                    offset: old(self).stack(),
                                },
                            )
                            &&& final(self).stack() == old(self).stack()
                            &&& final(self).funcs_model() == old(self).funcs_model()
                            &&& final(self).nodes_seq() == old(self).nodes_seq()
                            &&& locals_wf(final(self).locals_model())
                            &&& appended_only(old(self).buf(), final(self).buf())
                        }
                    }),
                    _ => false,
                }
            }),
    {
        let size = match self.resolve_size(ty) {
            Ok(s) => s,
            Err(e) => {
                return Err(e);
            },
        };
        if self.ctx.stack_offset as u32 + size as u32 > 65535 {
            return Err(BackendError::AssemblerError);
        }
        let offset = self.ctx.stack_offset;
        let ghost locals2 = old(self).locals_model().push(
            VarModel { name: name@, size, offset },
        );
        self.ctx.locals.push(Variable { name: name.to_owned(), size, stack_offset: offset });
        proof {
            assert(self.locals_model() =~= locals2);
            assert(locals_wf(locals2));
        }
        let ghost w0 = self.buf();
        let ghost c0 = cur_instrs(w0);
        match self.emit_expression(value, true, Registers::R24) {
            Ok(_) => {
            },
            Err(e) => {
                return Err(e);
            },
        }
        let ghost o = emit_expr(
            *value,
            locals2,
            self.funcs_model(),
            old(self).mask(),
            Registers::R24,
            true,
        )->Ok_0;
        let ghost stores = store_local_instrs(offset, size);
        proof {
            assert((c0 + o.instrs) + stores.take(0) =~= c0 + o.instrs);
        }
        let mut j: u16 = 0;
        while j < size
            invariant
                j <= size,
                self.buf() == with_instrs(w0, (c0 + o.instrs) + stores.take(j as int)),
                self.mask() == o.mask,
                self.target() == o.target,
                self.locals_model() == locals2,
                self.funcs_model() == old(self).funcs_model(),
                self.stack() == offset,
                self.nodes_seq() == old(self).nodes_seq(),
            decreases size - j,
        {
            proof {
                lemma_with_instrs_cur(w0, (c0 + o.instrs) + stores.take(j as int));
            }
            self.assm.std_displaced(Registers::Y, offset + 1 + j, Registers::R24.add(j as u8));
            proof {
                let pref = (c0 + o.instrs) + stores.take(j as int);
                lemma_with_instrs_twice(w0, pref, pref.push(stores[j as int]));
                assert(pref.push(stores[j as int]) =~= (c0 + o.instrs) + stores.take(j + 1));
            }
            j += 1;
        }
        self.ctx.stack_offset = offset + size;
        proof {
            assert(stores.take(size as int) =~= stores);
            assert((c0 + o.instrs) + stores =~= c0 + (o.instrs + stores));
        }
        Ok(())
    }

    /// Emit a return statement: generate the value into the primary window,
    /// the conventional return-value location.
    fn emit_return(&mut self, expr: &Expr) -> (r: Result<(), BackendError>)
        requires
            cursor_ok(old(self).buf()),
            locals_wf(old(self).locals_model()),
        ensures
            ({
                let spec_r = emit_expr(
                    *expr,
                    old(self).locals_model(),
                    old(self).funcs_model(),
                    old(self).mask(),
                    Registers::R24,
                    true,
                );
                match (r, spec_r) {
                    (Ok(_), Ok(o)) => final(self).mask() == o.mask && final(self).target()
                        == o.target && final(self).buf() == with_instrs(
                        old(self).buf(),
                        cur_instrs(old(self).buf()) + o.instrs,
                    ) && final(self).same_tables(old(self)),
                    (Err(e1), Err(e2)) => e1 == e2 && final(self).same_tables(old(self))
                        && appended_only(old(self).buf(), final(self).buf()),
                    _ => false,
                }
            }),
    {
        match self.emit_expression(expr, true, Registers::R24) {
            Ok(_) => Ok(()),
            Err(e) => Err(e),
        }
    }

    /// Dispatch one statement: declarations and returns have their own
    /// paths; everything else is generated as a value-discarding root
    /// expression, so unsupported statement shapes fail loudly.
    fn emit_statement(&mut self, stat: &Expr) -> (r: Result<(), BackendError>)
        requires
            cursor_ok(old(self).buf()),
            locals_wf(old(self).locals_model()),
        ensures
            ({
                let spec_r = emit_stmt(
                    *stat,
                    old(self).locals_model(),
                    old(self).funcs_model(),
                    old(self).stack(),
                    old(self).mask(),
                    old(self).target(),
                );
                match (r, spec_r) {
                    (Ok(_), Ok(o)) => final(self).locals_model() == o.locals && final(self).stack()
                        == o.stack && final(self).mask() == o.mask && final(self).target()
                        == o.target && final(self).buf() == with_instrs(
                        old(self).buf(),
                        cur_instrs(old(self).buf()) + o.instrs,
                    ) && final(self).funcs_model() == old(self).funcs_model() && final(self).nodes_seq() == old(self).nodes_seq() && locals_wf(o.locals),
                    (Err(e1), Err(e2)) => e1 == e2 && final(self).funcs_model() == old(self).funcs_model() && final(self).nodes_seq() == old(self).nodes_seq() && final(self).stack() == old(self).stack() && locals_wf(final(self).locals_model())
                        && appended_only(old(self).buf(), final(self).buf()),
                    _ => false,
                }
            }),
            old(self).locals_model().len() <= final(self).locals_model().len(),
            final(self).locals_model().take(old(self).locals_model().len() as int) == old(self).locals_model(),
    {
        match stat {
            Expr::Decl(name, ty, value) => {
                let r = self.emit_declaration(name.as_str(), ty.as_str(), &**value);
                proof {
                    lemma_appended_only_refl(old(self).buf());
                    assert(old(self).locals_model().len() <= self.locals_model().len());
                    assert(self.locals_model().take(old(self).locals_model().len() as int)
                        =~= old(self).locals_model());
                }
                r
            },
            Expr::Return(expr) => {
                let r = self.emit_return(&**expr);
                proof {
                    assert(self.locals_model().take(old(self).locals_model().len() as int)
                        =~= old(self).locals_model());
                }
                r
            },
            _ => {
                let r = match self.emit_expression(stat, true, Registers::R0) {
                    Ok(_) => Ok(()),
                    Err(e) => Err(e),
                };
                proof {
                    assert(self.locals_model().take(old(self).locals_model().len() as int)
                        =~= old(self).locals_model());
                }
                r
            },
        }
    }
}


impl<'a> AVRBackend<'a> {
    /// Emit a run of statements in order, the body of one function.
    #[verifier::loop_isolation(false)]
    #[verifier::rlimit(100)]
    #[verifier::spinoff_prover]
    fn emit_body_stmts(&mut self, stats: &Vec<Expr>) -> (r: Result<(), BackendError>)
        requires
            cursor_ok(old(self).buf()),
            locals_wf(old(self).locals_model()),
        ensures
            ({
                let spec_r = emit_body(
                    stats@,
                    old(self).locals_model(),
                    old(self).funcs_model(),
                    old(self).stack(),
                    old(self).mask(),
                    old(self).target(),
                );
                match (r, spec_r) {
                    (Ok(_), Ok(o)) => final(self).locals_model() == o.locals && final(self).stack()
                        == o.stack && final(self).mask() == o.mask && final(self).target()
                        == o.target && final(self).buf() == with_instrs(
                        old(self).buf(),
                        cur_instrs(old(self).buf()) + o.instrs,
                    ) && final(self).funcs_model() == old(self).funcs_model() && final(self).nodes_seq() == old(self).nodes_seq() && locals_wf(o.locals),
                    (Err(e1), Err(e2)) => e1 == e2 && final(self).funcs_model() == old(self).funcs_model() && final(self).nodes_seq() == old(self).nodes_seq()
                        && locals_wf(final(self).locals_model()) && old(self).locals_model().len()
                        <= final(self).locals_model().len() && final(self).locals_model().take(
                        old(self).locals_model().len() as int,
                    ) == old(self).locals_model() && appended_only(
                        old(self).buf(),
                        final(self).buf(),
                    ),
                    _ => false,
                }
            }),
    {
        let ghost w0 = self.buf();
        let ghost c0 = cur_instrs(w0);
        let ghost locals0 = self.locals_model();
        let ghost funcs0 = self.funcs_model();
        let ghost st0 = self.stack();
        let ghost m0 = self.mask();
        let ghost t0 = self.target();
        let ghost mut emitted: Seq<Seq<char>> = Seq::empty();
        let ns = stats.len();
        let mut si: usize = 0;
        proof {
            assert(stats@.skip(0) =~= stats@);
            assert(c0 + emitted =~= c0);
            assert(with_instrs(w0, c0 + emitted) =~~= w0);
            assert(self.locals_model().take(locals0.len() as int) =~= locals0);
        }
        while si < ns
            invariant
                si <= ns,
                ns == stats@.len(),
                self.buf() == with_instrs(w0, c0 + emitted),
                self.funcs_model() == funcs0,
                self.nodes_seq() == old(self).nodes_seq(),
                locals_wf(self.locals_model()),
                locals0.len() <= self.locals_model().len(),
                self.locals_model().take(locals0.len() as int) == locals0,
                ({
                    let full = emit_body(stats@, locals0, funcs0, st0, m0, t0);
                    let rem = emit_body(
                        stats@.skip(si as int),
                        self.locals_model(),
                        funcs0,
                        self.stack(),
                        self.mask(),
                        self.target(),
                    );
                    match rem {
                        Err(e) => full == Err::<StmtOut, BackendError>(e),
                        Ok(rest) => full == Ok::<StmtOut, BackendError>(
                            StmtOut {
                                locals: rest.locals,
                                stack: rest.stack,
                                mask: rest.mask,
                                target: rest.target,
                                instrs: emitted + rest.instrs,
                            },
                        ),
                    }
                }),
            decreases ns - si,
        {
            proof {
                assert(stats@.skip(si as int)[0] == stats@[si as int]);
                assert(stats@.skip(si as int).drop_first() =~= stats@.skip(si + 1));
                lemma_with_instrs_cur(w0, c0 + emitted);
            }
            let ghost emitted0 = emitted;
            let ghost l_pre = self.locals_model();
            let ghost s_pre = self.stack();
            let ghost m_pre = self.mask();
            let ghost t_pre = self.target();
            let ghost b_pre = self.buf();
            match self.emit_statement(&stats[si]) {
                Ok(_) => {
                },
                Err(e) => {
                    proof {
                        assert(b_pre == with_instrs(w0, cur_instrs(w0) + emitted));
                        assert(appended_only(w0, b_pre));
                        lemma_appended_only_trans(w0, b_pre, self.buf());
                        assert(w0 == old(self).buf());
                        crate::emit::lemma_take_prefix_trans(
                            locals0,
                            l_pre,
                            self.locals_model(),
                        );
                    }
                    return Err(e);
                },
            }
            proof {
                let o = emit_stmt(stats@[si as int], l_pre, funcs0, s_pre, m_pre, t_pre)->Ok_0;
                emitted = emitted0 + o.instrs;
                lemma_with_instrs_twice(w0, c0 + emitted0, (c0 + emitted0) + o.instrs);
                assert((c0 + emitted0) + o.instrs =~= c0 + emitted);
                let rem_new = emit_body(
                    stats@.skip(si + 1),
                    self.locals_model(),
                    funcs0,
                    self.stack(),
                    self.mask(),
                    self.target(),
                );
                match rem_new {
                    Err(_) => {
                    },
                    Ok(rn) => {
                        assert(emitted0 + (o.instrs + rn.instrs) =~= emitted + rn.instrs);
                    },
                }
                crate::emit::lemma_take_prefix_trans(locals0, l_pre, self.locals_model());
            }
            si += 1;
        }
        proof {
            assert(stats@.skip(ns as int) =~= Seq::<Expr>::empty());
            assert(emitted + Seq::<Seq<char>>::empty() =~= emitted);
        }
        Ok(())
    }

    /// Emit one stack-pointer-adjusting pop per byte of the frame space
    /// handed out: the popped values are discarded, only the stack pointer
    /// moves back.
    #[verifier::loop_isolation(false)]
    fn emit_frame_pops(&mut self, total: u16)
        requires
            cursor_ok(old(self).buf()),
        ensures
            final(self).buf() == with_instrs(
                old(self).buf(),
                cur_instrs(old(self).buf()) + pop_instrs(total),
            ),
            final(self).mask() == old(self).mask(),
            final(self).target() == old(self).target(),
            final(self).same_tables(old(self)),
    {
        let ghost w0 = self.buf();
        let ghost c0 = cur_instrs(w0);
        let ghost pops = pop_instrs(total);
        let mut p: u16 = 0;
        proof {
            assert(c0 + pops.take(0) =~= c0);
            assert(with_instrs(w0, c0 + pops.take(0)) =~~= w0);
        }
        while p < total
            invariant
                p <= total,
                pops == pop_instrs(total),
                self.buf() == with_instrs(w0, c0 + pops.take(p as int)),
                self.mask() == old(self).mask(),
                self.target() == old(self).target(),
                self.same_tables(old(self)),
            decreases total - p,
        {
            proof {
                lemma_with_instrs_cur(w0, c0 + pops.take(p as int));
            }
            self.assm.pop(Registers::R0);
            proof {
                let pref = c0 + pops.take(p as int);
                lemma_with_instrs_twice(w0, pref, pref.push(pops[p as int]));
                assert(pref.push(pops[p as int]) =~= c0 + pops.take(p + 1));
            }
            p += 1;
        }
        proof {
            assert(pops.take(total as int) =~= pops);
        }
    }

    /// Insert the timing padding: one no-op call per declared local, each
    /// round inserted just after the first two prologue lines.
    #[verifier::loop_isolation(false)]
    fn insert_timing_pads(&mut self, count: usize)
        requires
            cursor_ok(old(self).buf()),
            cur_instrs(old(self).buf()).len() >= 4,
        ensures
            final(self).buf() == with_instrs(
                old(self).buf(),
                insert_rcalls(cur_instrs(old(self).buf()), count as int),
            ),
            final(self).mask() == old(self).mask(),
            final(self).target() == old(self).target(),
            final(self).same_tables(old(self)),
    {
        let ghost w0 = self.buf();
        let ghost base = cur_instrs(w0);
        let mut ri: usize = 0;
        proof {
            assert(insert_rcalls(base, 0) == base);
            assert(with_instrs(w0, insert_rcalls(base, 0)) =~~= w0);
        }
        while ri < count
            invariant
                ri <= count,
                base == cur_instrs(w0),
                base.len() >= 4,
                self.buf() == with_instrs(w0, insert_rcalls(base, ri as int)),
                self.mask() == old(self).mask(),
                self.target() == old(self).target(),
                self.same_tables(old(self)),
            decreases count - ri,
        {
            proof {
                lemma_with_instrs_cur(w0, insert_rcalls(base, ri as int));
                crate::emit::lemma_insert_rcalls_len(base, ri as int);
            }
            self.assm.append_after("rcall .+0".to_owned(), 1 + ri);
            proof {
                lemma_with_instrs_twice(
                    w0,
                    insert_rcalls(base, ri as int),
                    insert_rcalls(base, ri as int).insert(ri + 2, rcall_text()),
                );
                assert(insert_rcalls(base, ri as int).insert(ri + 2, rcall_text())
                    == insert_rcalls(base, ri + 1));
            }
            ri += 1;
        }
    }
}

impl<'a> AVRBackend<'a> {
    /// Emit one function: create and select its label, register its symbol
    /// (before the body, so a self-call resolves), emit the prologue, the
    /// body's statements, one frame-discarding pop per local byte, the
    /// timing padding, and the epilogue.  The local table and stack offset
    /// start empty for every function.
    #[verifier::rlimit(100)]
    #[verifier::spinoff_prover]
    fn emit_function(
        &mut self,
        name: &str,
        ret: &str,
        args: &[(String, String)],
        body: &Expr,
    ) -> (r: Result<(), BackendError>)
        requires
            0 <= old(self).buf().section < old(self).buf().sections.len(),
            old(self).buf().sections[old(self).buf().section].labels.len() < 65536,
        ensures
            ({
                let w0 = old(self).buf();
                let sec = w0.sections[w0.section];
                let addr = sec.labels.len() as u16;
                let funcs2 = old(self).funcs_model().push(
                    FnModel { name: name@, ret: ret@, args: param_types(args@), address: addr },
                );
                let spec_r = emit_body(
                    body_stmts(*body),
                    Seq::empty(),
                    funcs2,
                    0,
                    old(self).mask(),
                    old(self).target(),
                );
                match (r, spec_r) {
                    (Ok(_), Ok(bo)) => final(self).buf() == (WriterView {
                        globals: w0.globals,
                        sections: w0.sections.update(
                            w0.section,
                            SectionView {
                                name: sec.name,
                                labels: sec.labels.push(
                                    LabelView {
                                        name: name@,
                                        instructions: function_label_instrs(bo),
                                    },
                                ),
                            },
                        ),
                        section: w0.section,
                        label: sec.labels.len() as int,
                    }) && final(self).funcs_model() == funcs2 && final(self).mask() == bo.mask
                        && final(self).target() == bo.target && final(self).nodes_seq() == old(self).nodes_seq(),
                    (Err(e1), Err(e2)) => e1 == e2 && final(self).nodes_seq() == old(self).nodes_seq() && ({
                        let w1 = final(self).buf();
                        let cs = w0.section;
                        &&& w1.globals == w0.globals
                        &&& w1.sections.len() == w0.sections.len()
                        &&& forall|i: int|
                            0 <= i < w0.sections.len() && i != cs ==> #[trigger] w1.sections[i]
                                == w0.sections[i]
                        &&& w1.sections[cs].name == w0.sections[cs].name
                        &&& w1.sections[cs].labels.len() == w0.sections[cs].labels.len() + 1
                        &&& w1.sections[cs].labels.take(w0.sections[cs].labels.len() as int)
                            == w0.sections[cs].labels
                    }),
                    _ => false,
                }
            }),
    {
        let ghost w0 = self.buf();
        let addr = self.assm.create_label(name);
        let mut tys: Vec<String> = Vec::new();
        let mut pi: usize = 0;
        proof {
            assert(tys.deep_view() =~= param_types(args@).take(0));
        }
        while pi < args.len()
            invariant
                pi <= args.len(),
                tys.deep_view() == param_types(args@).take(pi as int),
            decreases args.len() - pi,
        {
            let pair = &args[pi];
            proof {
                assert(*pair == args@[pi as int]);
            }
            let cloned = pair.1.clone();
            proof {
                assert(cloned == args@[pi as int].1);
                assert(cloned@ == args@[pi as int].1@);
            }
            proof {
                assert(tys.deep_view().len() == pi as int);
                assert(tys@.len() == pi as int);
            }
            let ghost tys0 = tys@;
            tys.push(cloned);
            proof {
                assert(tys@ == tys0.push(cloned));
                assert(tys@[pi as int] == cloned);
                assert(tys@[pi as int]@ == args@[pi as int].1@);
                assert forall|k: int| 0 <= k < pi as int implies tys.deep_view()[k]
                    == param_types(args@).take(pi + 1)[k] by {
                    assert(tys@[k] == tys0[k]);
                }
                assert(tys.deep_view() =~= param_types(args@).take(pi + 1));
            }
            pi += 1;
        }
        proof {
            assert(param_types(args@).take(args@.len() as int) =~= param_types(args@));
        }
        let ghost funcs2 = old(self).funcs_model().push(
            FnModel { name: name@, ret: ret@, args: param_types(args@), address: addr },
        );
        self.ctx.functions.push(
            Function { name: name.to_owned(), ret: ret.to_owned(), args: tys, address: addr },
        );
        proof {
            assert(self.funcs_model() =~= funcs2);
        }
        self.assm.select_label(addr);
        let ghost wsel = self.buf();
        proof {
            assert(cursor_ok(wsel));
            assert(cur_instrs(wsel) =~= Seq::<Seq<char>>::empty());
        }
        self.assm.function_prologue();
        let ghost prologue = crate::asm_writer::prologue_instrs();
        proof {
            assert(cur_instrs(wsel) + prologue =~= prologue);
            lemma_with_instrs_cur(wsel, prologue);
        }
        // Symbol tables are per function: locals and frame space start empty.
        self.ctx.locals = Vec::new();
        self.ctx.stack_offset = 0;
        proof {
            assert(self.locals_model() =~= Seq::<VarModel>::empty());
        }
        let ghost m0 = self.mask();
        let ghost t0 = self.target();
        match body {
            Expr::Block(stats) => {
                match self.emit_body_stmts(stats) {
                    Ok(_) => {
                    },
                    Err(e) => {
                        proof {
                            assert(appended_only(wsel, with_instrs(
                                wsel,
                                cur_instrs(wsel) + prologue,
                            )));
                            lemma_appended_only_trans(
                                wsel,
                                with_instrs(wsel, cur_instrs(wsel) + prologue),
                                self.buf(),
                            );
                            let d = choose|d: Seq<Seq<char>>|
                                self.buf() == with_instrs(wsel, cur_instrs(wsel) + d);
                            let w1 = self.buf();
                            let cs = w0.section;
                            assert(w1.sections.len() == w0.sections.len());
                            assert forall|i: int|
                                0 <= i < w0.sections.len() && i != cs implies #[trigger] w1.sections[i]
                                    == w0.sections[i] by {
                                assert(wsel.sections[i] == w0.sections[i]);
                            }
                            assert(w1.sections[cs].labels.len() == w0.sections[cs].labels.len()
                                + 1);
                            assert(w1.sections[cs].labels.take(
                                w0.sections[cs].labels.len() as int,
                            ) =~= w0.sections[cs].labels);
                        }
                        return Err(e);
                    },
                }
            },
            _ => {
                // A body of any other shape holds no statements.
                proof {
                    assert(body_stmts(*body) =~= Seq::<Expr>::empty());
                }
            },
        }
        let ghost bo = emit_body(body_stmts(*body), Seq::empty(), funcs2, 0, m0, t0)->Ok_0;
        proof {
            if !(*body matches Expr::Block(_)) {
                assert(emit_body(body_stmts(*body), Seq::empty(), funcs2, 0, m0, t0) == Ok::<
                    StmtOut,
                    BackendError,
                >(StmtOut { locals: Seq::empty(), stack: 0, mask: m0, target: t0, instrs: Seq::empty() }));
                assert(prologue + bo.instrs =~= prologue);
            } else {
                lemma_with_instrs_twice(wsel, prologue, prologue + bo.instrs);
            }
            lemma_with_instrs_cur(wsel, prologue + bo.instrs);
        }
        let total = self.ctx.stack_offset;
        self.emit_frame_pops(total);
        let ghost base2 = prologue + bo.instrs + pop_instrs(bo.stack);
        proof {
            lemma_with_instrs_twice(
                wsel,
                prologue + bo.instrs,
                (prologue + bo.instrs) + pop_instrs(bo.stack),
            );
            assert((prologue + bo.instrs) + pop_instrs(bo.stack) =~= base2);
            assert(base2.len() >= 4);
            lemma_with_instrs_cur(wsel, base2);
        }
        let ln = self.ctx.locals.len();
        proof {
            assert(ln == bo.locals.len());
        }
        self.insert_timing_pads(ln);
        proof {
            lemma_with_instrs_twice(wsel, base2, insert_rcalls(base2, ln as int));
            lemma_with_instrs_cur(wsel, insert_rcalls(base2, ln as int));
        }
        self.assm.function_epilogue();
        proof {
            lemma_with_instrs_twice(
                wsel,
                insert_rcalls(base2, ln as int),
                insert_rcalls(base2, ln as int) + crate::asm_writer::epilogue_instrs(),
            );
            assert(insert_rcalls(base2, ln as int) + crate::asm_writer::epilogue_instrs()
                =~= function_label_instrs(bo));
            let sec = w0.sections[w0.section];
            assert(self.buf() =~~= (WriterView {
                globals: w0.globals,
                sections: w0.sections.update(
                    w0.section,
                    SectionView {
                        name: sec.name,
                        labels: sec.labels.push(
                            LabelView { name: name@, instructions: function_label_instrs(bo) },
                        ),
                    },
                ),
                section: w0.section,
                label: sec.labels.len() as int,
            }));
        }
        Ok(())
    }
}


impl<'a> AVRBackend<'a> {
    /// Run the whole pass: register the `main` global, create the data and
    /// code sections, select the code section, then emit every top-level
    /// function declaration in order.  Any other top-level shape is a fatal
    /// unsupported condition.  Nothing is printed; the buffer holds the
    /// result.
    #[verifier::loop_isolation(false)]
    #[verifier::rlimit(100)]
    #[verifier::spinoff_prover]
    pub fn process(&mut self) -> (r: Result<(), BackendError>)
        requires
            old(self).is_fresh(),
            old(self).nodes_seq().len() < 65536,
        ensures
            match (r, spec_process(old(self).nodes_seq())) {
                (Ok(_), Ok(w)) => final(self).buf() == w,
                (Err(e1), Err(e2)) => e1 == e2 && ({
                    // the partial output is not to be trusted, but the
                    // frame of the program is intact: the one global, the
                    // data section still empty, and the code section
                    let w1 = final(self).buf();
                    &&& w1.globals == seq!["main"@]
                    &&& w1.sections.len() == 2
                    &&& w1.sections[0] == (SectionView {
                        name: ".data"@,
                        labels: Seq::<LabelView>::empty(),
                    })
                    &&& w1.sections[1].name == ".text"@
                }),
                _ => false,
            },
    {
        self.assm.new_global("main");
        self.ctx.data = self.assm.create_section(".data");
        self.ctx.text = self.assm.create_section(".text");
        self.assm.select_section(self.ctx.text);
        let ghost nodes = old(self).nodes_seq();
        proof {
            assert(self.buf().globals =~= seq!["main"@]);
            assert(self.buf().sections =~= seq![
                SectionView { name: ".data"@, labels: Seq::empty() },
                SectionView { name: ".text"@, labels: Seq::empty() },
            ]);
            assert(nodes.skip(0) =~= nodes);
        }
        let n = self.nodes.len();
        let mut ni: usize = 0;
        while ni < n
            invariant
                ni <= n,
                n == nodes.len(),
                self.nodes_seq() == nodes,
                self.buf().globals == seq!["main"@],
                self.buf().sections.len() == 2,
                self.buf().sections[0] == (SectionView { name: ".data"@, labels: Seq::empty() }),
                self.buf().sections[1].name == ".text"@,
                self.buf().sections[1].labels.len() == ni as int,
                self.buf().section == 1,
                ({
                    let full = emit_unit(
                        nodes,
                        Seq::empty(),
                        Seq::empty(),
                        WIN_NONE,
                        Registers::R0,
                        0,
                    );
                    let rem = emit_unit(
                        nodes.skip(ni as int),
                        self.funcs_model(),
                        self.buf().sections[1].labels,
                        self.mask(),
                        self.target(),
                        self.buf().label,
                    );
                    rem == full
                }),
            decreases n - ni,
        {
            let nodes_ref = self.nodes;
            let node = &nodes_ref[ni];
            proof {
                assert(*node == nodes[ni as int]);
                assert(nodes.skip(ni as int)[0] == nodes[ni as int]);
                assert(nodes.skip(ni as int).drop_first() =~= nodes.skip(ni + 1));
            }
            match node {
                Expr::Function(name, ret, fargs, body) => {
                    let ghost labels_pre = self.buf().sections[1].labels;
                    let ghost funcs_pre = self.funcs_model();
                    let ghost m_pre = self.mask();
                    let ghost t_pre = self.target();
                    let ghost b_pre = self.buf();
                    match self.emit_function(name.as_str(), ret.as_str(), fargs.as_slice(), &**body) {
                        Ok(_) => {
                        },
                        Err(e) => {
                            proof {
                                assert(self.buf().sections[0] == b_pre.sections[0]);
                                assert(self.buf().sections[0] == (SectionView {
                                    name: ".data"@,
                                    labels: Seq::<LabelView>::empty(),
                                }));
                            }
                            return Err(e);
                        },
                    }
                    proof {
                        let addr = labels_pre.len() as u16;
                        let funcs2 = funcs_pre.push(
                            FnModel {
                                name: name@,
                                ret: ret@,
                                args: param_types(fargs@),
                                address: addr,
                            },
                        );
                        let bo = emit_body(
                            body_stmts(**body),
                            Seq::empty(),
                            funcs2,
                            0,
                            m_pre,
                            t_pre,
                        )->Ok_0;
                        assert(self.buf().sections[1].labels =~= labels_pre.push(
                            LabelView { name: name@, instructions: function_label_instrs(bo) },
                        ));
                        assert(self.buf().sections[0] == (SectionView {
                            name: ".data"@,
                            labels: Seq::empty(),
                        }));
                    }
                },
                _ => {
                    return Err(BackendError::UnsupportedValue);
                },
            }
            ni += 1;
        }
        proof {
            assert(nodes.skip(n as int) =~= Seq::<Expr>::empty());
            let u = emit_unit(nodes, Seq::empty(), Seq::empty(), WIN_NONE, Registers::R0, 0)->Ok_0;
            assert(self.buf() =~~= (WriterView {
                globals: seq!["main"@],
                sections: seq![
                    SectionView { name: ".data"@, labels: Seq::empty() },
                    SectionView { name: ".text"@, labels: u.labels },
                ],
                section: 1,
                label: u.label_cursor,
            }));
        }
        Ok(())
    }
}

/// Compile a whole unit to assembly text, or report the first error.  The
/// input may hold at most 65535 top-level declarations, since label
/// identifiers are 16-bit.
pub fn compile(source: Ast) -> (r: Result<String, BackendError>)
    requires
        source.root@.len() < 65536,
    ensures
        match (r, spec_compile(source.root@)) {
            (Ok(s), Ok(t)) => s@ == t,
            (Err(e1), Err(e2)) => e1 == e2,
            _ => false,
        },
{
    let mut seb = AVRBackend::new(source.root.as_slice());
    match seb.process() {
        Ok(_) => Ok(seb.assm.repr()),
        Err(e) => Err(e),
    }
}

} // verus!
