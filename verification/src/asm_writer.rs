//! The instruction buffer: an ordered, mutable textual program model.
//!
//! A program is a list of global symbol names followed by named sections,
//! each holding named labels, each holding instruction lines.  Appending
//! always targets the currently selected section and label.  `repr` renders
//! the whole buffer to assembly text; the exact text of every emitted line
//! and of the rendering is pinned down by spec functions, so that the code
//! generator's output is specified character by character.

use vstd::prelude::*;

use crate::numtext::{dec_int, dec_nat, dec_i16, dec_u32};

verus! {

/// The 32 one-byte physical registers, plus `Y`, the frame-pointer pair.
#[derive(Debug, Clone, Copy, PartialEq, Eq, Structural)]
pub enum Registers {
    R0,
    R1,
    R2,
    R3,
    R4,
    R5,
    R6,
    R7,
    R8,
    R9,
    R10,
    R11,
    R12,
    R13,
    R14,
    R15,
    R16,
    R17,
    R18,
    R19,
    R20,
    R21,
    R22,
    R23,
    R24,
    R25,
    R26,
    R27,
    R28,
    R29,
    R30,
    R31,
    Y,
}

/// Position of a register in file order: `R0` is 0, ..., `R31` is 31,
/// the frame-pointer pair `Y` is 32.
pub open spec fn reg_idx(r: Registers) -> int {
    match r {
        Registers::R0 => 0,
        Registers::R1 => 1,
        Registers::R2 => 2,
        Registers::R3 => 3,
        Registers::R4 => 4,
        Registers::R5 => 5,
        Registers::R6 => 6,
        Registers::R7 => 7,
        Registers::R8 => 8,
        Registers::R9 => 9,
        Registers::R10 => 10,
        Registers::R11 => 11,
        Registers::R12 => 12,
        Registers::R13 => 13,
        Registers::R14 => 14,
        Registers::R15 => 15,
        Registers::R16 => 16,
        Registers::R17 => 17,
        Registers::R18 => 18,
        Registers::R19 => 19,
        Registers::R20 => 20,
        Registers::R21 => 21,
        Registers::R22 => 22,
        Registers::R23 => 23,
        Registers::R24 => 24,
        Registers::R25 => 25,
        Registers::R26 => 26,
        Registers::R27 => 27,
        Registers::R28 => 28,
        Registers::R29 => 29,
        Registers::R30 => 30,
        Registers::R31 => 31,
        Registers::Y => 32,
    }
}

/// The register at position `i` in file order.  Positions outside the
/// physical file fall back to `R0`, mirroring the total `index` operation.
pub open spec fn reg_of(i: int) -> Registers {
    if i == 0 {
        Registers::R0
    } else if i == 1 {
        Registers::R1
    } else if i == 2 {
        Registers::R2
    } else if i == 3 {
        Registers::R3
    } else if i == 4 {
        Registers::R4
    } else if i == 5 {
        Registers::R5
    } else if i == 6 {
        Registers::R6
    } else if i == 7 {
        Registers::R7
    } else if i == 8 {
        Registers::R8
    } else if i == 9 {
        Registers::R9
    } else if i == 10 {
        Registers::R10
    } else if i == 11 {
        Registers::R11
    } else if i == 12 {
        Registers::R12
    } else if i == 13 {
        Registers::R13
    } else if i == 14 {
        Registers::R14
    } else if i == 15 {
        Registers::R15
    } else if i == 16 {
        Registers::R16
    } else if i == 17 {
        Registers::R17
    } else if i == 18 {
        Registers::R18
    } else if i == 19 {
        Registers::R19
    } else if i == 20 {
        Registers::R20
    } else if i == 21 {
        Registers::R21
    } else if i == 22 {
        Registers::R22
    } else if i == 23 {
        Registers::R23
    } else if i == 24 {
        Registers::R24
    } else if i == 25 {
        Registers::R25
    } else if i == 26 {
        Registers::R26
    } else if i == 27 {
        Registers::R27
    } else if i == 28 {
        Registers::R28
    } else if i == 29 {
        Registers::R29
    } else if i == 30 {
        Registers::R30
    } else if i == 31 {
        Registers::R31
    } else if i == 32 {
        Registers::Y
    } else {
        Registers::R0
    }
}

impl Registers {
    /// The register at position `off` in file order; out-of-range positions
    /// fall back to `R0`.
    pub fn index(off: u8) -> (r: Registers)
        ensures
            r == reg_of(off as int),
    {
        match off {
            0 => Registers::R0,
            1 => Registers::R1,
            2 => Registers::R2,
            3 => Registers::R3,
            4 => Registers::R4,
            5 => Registers::R5,
            6 => Registers::R6,
            7 => Registers::R7,
            8 => Registers::R8,
            9 => Registers::R9,
            10 => Registers::R10,
            11 => Registers::R11,
            12 => Registers::R12,
            13 => Registers::R13,
            14 => Registers::R14,
            15 => Registers::R15,
            16 => Registers::R16,
            17 => Registers::R17,
            18 => Registers::R18,
            19 => Registers::R19,
            20 => Registers::R20,
            21 => Registers::R21,
            22 => Registers::R22,
            23 => Registers::R23,
            24 => Registers::R24,
            25 => Registers::R25,
            26 => Registers::R26,
            27 => Registers::R27,
            28 => Registers::R28,
            29 => Registers::R29,
            30 => Registers::R30,
            31 => Registers::R31,
            32 => Registers::Y,
            _ => Registers::R0,
        }
    }

    /// This register's position in file order.
    pub fn idx(&self) -> (i: u8)
        ensures
            i as int == reg_idx(*self),
    {
        match *self {
            Registers::R0 => 0,
            Registers::R1 => 1,
            Registers::R2 => 2,
            Registers::R3 => 3,
            Registers::R4 => 4,
            Registers::R5 => 5,
            Registers::R6 => 6,
            Registers::R7 => 7,
            Registers::R8 => 8,
            Registers::R9 => 9,
            Registers::R10 => 10,
            Registers::R11 => 11,
            Registers::R12 => 12,
            Registers::R13 => 13,
            Registers::R14 => 14,
            Registers::R15 => 15,
            Registers::R16 => 16,
            Registers::R17 => 17,
            Registers::R18 => 18,
            Registers::R19 => 19,
            Registers::R20 => 20,
            Registers::R21 => 21,
            Registers::R22 => 22,
            Registers::R23 => 23,
            Registers::R24 => 24,
            Registers::R25 => 25,
            Registers::R26 => 26,
            Registers::R27 => 27,
            Registers::R28 => 28,
            Registers::R29 => 29,
            Registers::R30 => 30,
            Registers::R31 => 31,
            Registers::Y => 32,
        }
    }

    /// The register `off` places after this one in file order; used to
    /// address consecutive bytes of a multi-byte value.
    pub fn add(&self, off: u8) -> (r: Registers)
        requires
            reg_idx(*self) + off as int <= 255,
        ensures
            r == reg_of(reg_idx(*self) + off as int),
    {
        Registers::index(self.idx() + off)
    }
}

/// The assembly-text name of a register.
pub open spec fn reg_name(r: Registers) -> Seq<char> {
    match r {
        Registers::R0 => "R0"@,
        Registers::R1 => "R1"@,
        Registers::R2 => "R2"@,
        Registers::R3 => "R3"@,
        Registers::R4 => "R4"@,
        Registers::R5 => "R5"@,
        Registers::R6 => "R6"@,
        Registers::R7 => "R7"@,
        Registers::R8 => "R8"@,
        Registers::R9 => "R9"@,
        Registers::R10 => "R10"@,
        Registers::R11 => "R11"@,
        Registers::R12 => "R12"@,
        Registers::R13 => "R13"@,
        Registers::R14 => "R14"@,
        Registers::R15 => "R15"@,
        Registers::R16 => "R16"@,
        Registers::R17 => "R17"@,
        Registers::R18 => "R18"@,
        Registers::R19 => "R19"@,
        Registers::R20 => "R20"@,
        Registers::R21 => "R21"@,
        Registers::R22 => "R22"@,
        Registers::R23 => "R23"@,
        Registers::R24 => "R24"@,
        Registers::R25 => "R25"@,
        Registers::R26 => "R26"@,
        Registers::R27 => "R27"@,
        Registers::R28 => "R28"@,
        Registers::R29 => "R29"@,
        Registers::R30 => "R30"@,
        Registers::R31 => "R31"@,
        Registers::Y => "Y"@,
    }
}

/// The assembly-text name of a register, as a string slice.
pub fn reg_name_str(r: Registers) -> (s: &'static str)
    ensures
        s@ == reg_name(r),
{
    match r {
        Registers::R0 => "R0",
        Registers::R1 => "R1",
        Registers::R2 => "R2",
        Registers::R3 => "R3",
        Registers::R4 => "R4",
        Registers::R5 => "R5",
        Registers::R6 => "R6",
        Registers::R7 => "R7",
        Registers::R8 => "R8",
        Registers::R9 => "R9",
        Registers::R10 => "R10",
        Registers::R11 => "R11",
        Registers::R12 => "R12",
        Registers::R13 => "R13",
        Registers::R14 => "R14",
        Registers::R15 => "R15",
        Registers::R16 => "R16",
        Registers::R17 => "R17",
        Registers::R18 => "R18",
        Registers::R19 => "R19",
        Registers::R20 => "R20",
        Registers::R21 => "R21",
        Registers::R22 => "R22",
        Registers::R23 => "R23",
        Registers::R24 => "R24",
        Registers::R25 => "R25",
        Registers::R26 => "R26",
        Registers::R27 => "R27",
        Registers::R28 => "R28",
        Registers::R29 => "R29",
        Registers::R30 => "R30",
        Registers::R31 => "R31",
        Registers::Y => "Y",
    }
}

/// Text of `push <r>`.
pub open spec fn s_push(r: Registers) -> Seq<char> {
    "push "@ + reg_name(r)
}

/// Text of `in <r>, <port>`.
pub open spec fn s_in(r: Registers, port: i16) -> Seq<char> {
    "in "@ + reg_name(r) + ", "@ + dec_int(port as int)
}

/// Text of `ldi <r>, <value>`.
pub open spec fn s_ldi(r: Registers, value: i16) -> Seq<char> {
    "ldi "@ + reg_name(r) + ", "@ + dec_int(value as int)
}

/// Text of `ret`.
pub open spec fn s_ret() -> Seq<char> {
    "ret"@
}

/// Text of `pop <r>`.
pub open spec fn s_pop(r: Registers) -> Seq<char> {
    "pop "@ + reg_name(r)
}

/// Text of the displaced store `std <r>+<offset>, <base>`.
pub open spec fn s_std(r: Registers, offset: u16, base: Registers) -> Seq<char> {
    "std "@ + reg_name(r) + "+"@ + dec_nat(offset as int) + ", "@ + reg_name(base)
}

/// Text of the displaced load `ldd <r>, <base>+<offset>`.
pub open spec fn s_ldd(r: Registers, base: Registers, offset: u16) -> Seq<char> {
    "ldd "@ + reg_name(r) + ", "@ + reg_name(base) + "+"@ + dec_nat(offset as int)
}

/// Text of `add <dest>, <source>`.
pub open spec fn s_add(dest: Registers, source: Registers) -> Seq<char> {
    "add "@ + reg_name(dest) + ", "@ + reg_name(source)
}

/// Text of `adc <dest>, <source>`.
pub open spec fn s_adc(dest: Registers, source: Registers) -> Seq<char> {
    "adc "@ + reg_name(dest) + ", "@ + reg_name(source)
}

/// Text of `mov <dest>, <source>`.
pub open spec fn s_mov(dest: Registers, source: Registers) -> Seq<char> {
    "mov "@ + reg_name(dest) + ", "@ + reg_name(source)
}

/// Mathematical model of one label: its name and its instruction lines.
#[verifier::ext_equal]
pub struct LabelView {
    pub name: Seq<char>,
    pub instructions: Seq<Seq<char>>,
}

/// Mathematical model of one section: its name and its labels, in creation
/// order.
#[verifier::ext_equal]
pub struct SectionView {
    pub name: Seq<char>,
    pub labels: Seq<LabelView>,
}

/// Mathematical model of the whole buffer, including the cursor that later
/// appends target.
#[verifier::ext_equal]
pub struct WriterView {
    pub globals: Seq<Seq<char>>,
    pub sections: Seq<SectionView>,
    pub section: int,
    pub label: int,
}

struct Label {
    name: String,
    instructions: Vec<String>,
}

struct Section {
    name: String,
    data: Vec<Label>,
}

impl View for Label {
    type V = LabelView;

    closed spec fn view(&self) -> LabelView {
        LabelView { name: self.name@, instructions: self.instructions.deep_view() }
    }
}

impl View for Section {
    type V = SectionView;

    closed spec fn view(&self) -> SectionView {
        SectionView {
            name: self.name@,
            labels: Seq::new(self.data@.len(), |i: int| self.data@[i]@),
        }
    }
}

/// The instruction buffer.
pub struct AVRWriter {
    sections: Vec<Section>,
    globals: Vec<String>,
    section: usize,
    label: usize,
}

impl View for AVRWriter {
    type V = WriterView;

    closed spec fn view(&self) -> WriterView {
        WriterView {
            globals: self.globals.deep_view(),
            sections: Seq::new(self.sections@.len(), |i: int| self.sections@[i]@),
            section: self.section as int,
            label: self.label as int,
        }
    }
}

/// The cursor points at an existing section and an existing label in it, so
/// appends have a place to go.
pub open spec fn cursor_ok(w: WriterView) -> bool {
    &&& 0 <= w.section < w.sections.len()
    &&& 0 <= w.label < w.sections[w.section].labels.len()
}

/// The instruction lines of the label the cursor points at.
pub open spec fn cur_instrs(w: WriterView) -> Seq<Seq<char>> {
    w.sections[w.section].labels[w.label].instructions
}

/// The buffer with the current label's instruction lines replaced by
/// `instrs`; everything else is unchanged.
pub open spec fn with_instrs(w: WriterView, instrs: Seq<Seq<char>>) -> WriterView {
    let sec = w.sections[w.section];
    let lab = sec.labels[w.label];
    WriterView {
        globals: w.globals,
        sections: w.sections.update(
            w.section,
            SectionView {
                name: sec.name,
                labels: sec.labels.update(
                    w.label,
                    LabelView { name: lab.name, instructions: instrs },
                ),
            },
        ),
        section: w.section,
        label: w.label,
    }
}

/// The buffer changed only by appending lines to the label the cursor
/// points at: globals, sections, every other label, and the cursor itself
/// are as they were.
pub open spec fn appended_only(w0: WriterView, w1: WriterView) -> bool {
    exists|delta: Seq<Seq<char>>| w1 == with_instrs(w0, cur_instrs(w0) + delta)
}

/// A buffer extends itself by appending nothing.
pub proof fn lemma_appended_only_refl(w: WriterView)
    requires
        cursor_ok(w),
    ensures
        appended_only(w, w),
{
    assert(cur_instrs(w) + Seq::<Seq<char>>::empty() =~= cur_instrs(w));
    assert(with_instrs(w, cur_instrs(w)) =~~= w);
    assert(w == with_instrs(w, cur_instrs(w) + Seq::<Seq<char>>::empty()));
}

/// Appending twice is appending once.
pub proof fn lemma_appended_only_trans(w0: WriterView, w1: WriterView, w2: WriterView)
    requires
        cursor_ok(w0),
        appended_only(w0, w1),
        appended_only(w1, w2),
    ensures
        appended_only(w0, w2),
{
    let d1 = choose|d: Seq<Seq<char>>| w1 == with_instrs(w0, cur_instrs(w0) + d);
    lemma_with_instrs_cur(w0, cur_instrs(w0) + d1);
    let d2 = choose|d: Seq<Seq<char>>| w2 == with_instrs(w1, cur_instrs(w1) + d);
    lemma_with_instrs_twice(w0, cur_instrs(w0) + d1, (cur_instrs(w0) + d1) + d2);
    assert((cur_instrs(w0) + d1) + d2 =~= cur_instrs(w0) + (d1 + d2));
    assert(w2 == with_instrs(w0, cur_instrs(w0) + (d1 + d2)));
}

/// Replacing the current instructions twice keeps only the second
/// replacement.
pub proof fn lemma_with_instrs_twice(w: WriterView, a: Seq<Seq<char>>, b: Seq<Seq<char>>)
    requires
        cursor_ok(w),
    ensures
        with_instrs(with_instrs(w, a), b) == with_instrs(w, b),
{
    assert(with_instrs(with_instrs(w, a), b) =~~= with_instrs(w, b));
}

/// The current instructions after a replacement are the replacement.
pub proof fn lemma_with_instrs_cur(w: WriterView, a: Seq<Seq<char>>)
    requires
        cursor_ok(w),
    ensures
        cur_instrs(with_instrs(w, a)) == a,
        cursor_ok(with_instrs(w, a)),
{
}

impl Default for AVRWriter {
    /// A fresh, empty buffer with the cursor at the origin.
    fn default() -> (w: AVRWriter)
        ensures
            w@.globals == Seq::<Seq<char>>::empty(),
            w@.sections == Seq::<SectionView>::empty(),
            w@.section == 0,
            w@.label == 0,
    {
        AVRWriter::new()
    }
}

impl AVRWriter {
    /// A fresh, empty buffer with the cursor at the origin.
    pub fn new() -> (w: AVRWriter)
        ensures
            w@.globals == Seq::<Seq<char>>::empty(),
            w@.sections == Seq::<SectionView>::empty(),
            w@.section == 0,
            w@.label == 0,
    {
        let w = AVRWriter { sections: Vec::new(), globals: Vec::new(), section: 0, label: 0 };
        proof {
            assert(w@.globals =~= Seq::<Seq<char>>::empty());
            assert(w@.sections =~= Seq::<SectionView>::empty());
        }
        w
    }

    /// Create a new, empty section after the existing ones and return its
    /// identifier.  Does not select it.
    pub fn create_section(&mut self, name: &str) -> (id: u16)
        requires
            old(self)@.sections.len() < 65536,
        ensures
            final(self)@.sections == old(self)@.sections.push(
                SectionView { name: name@, labels: Seq::empty() },
            ),
            final(self)@.globals == old(self)@.globals,
            final(self)@.section == old(self)@.section,
            final(self)@.label == old(self)@.label,
            id as int == old(self)@.sections.len(),
    {
        let section = Section { name: name.to_owned(), data: Vec::new() };
        self.sections.push(section);
        proof {
            assert(self@.sections =~~= old(self)@.sections.push(
                SectionView { name: name@, labels: Seq::empty() },
            ));
        }
        (self.sections.len() - 1) as u16
    }

    /// Move the section cursor.  The identifier is only checked when an
    /// operation next uses the cursor.
    pub fn select_section(&mut self, section: u16)
        ensures
            final(self)@.sections == old(self)@.sections,
            final(self)@.globals == old(self)@.globals,
            final(self)@.section == section as int,
            final(self)@.label == old(self)@.label,
    {
        self.section = section as usize;
    }

    /// Create a new, empty label at the end of the currently selected
    /// section and return its identifier.  Does not select it.
    pub fn create_label(&mut self, name: &str) -> (id: u16)
        requires
            0 <= old(self)@.section < old(self)@.sections.len(),
            old(self)@.sections[old(self)@.section].labels.len() < 65536,
        ensures
            final(self)@.sections == old(self)@.sections.update(
                old(self)@.section,
                SectionView {
                    name: old(self)@.sections[old(self)@.section].name,
                    labels: old(self)@.sections[old(self)@.section].labels.push(
                        LabelView { name: name@, instructions: Seq::empty() },
                    ),
                },
            ),
            final(self)@.globals == old(self)@.globals,
            final(self)@.section == old(self)@.section,
            final(self)@.label == old(self)@.label,
            id as int == old(self)@.sections[old(self)@.section].labels.len(),
    {
        let label = Label { name: name.to_owned(), instructions: Vec::new() };
        let si = self.section;
        let sec = &mut self.sections[si];
        sec.data.push(label);
        let n = self.sections[si].data.len();
        proof {
            assert(self@.sections =~~= old(self)@.sections.update(
                old(self)@.section,
                SectionView {
                    name: old(self)@.sections[old(self)@.section].name,
                    labels: old(self)@.sections[old(self)@.section].labels.push(
                        LabelView { name: name@, instructions: Seq::empty() },
                    ),
                },
            ));
        }
        (n - 1) as u16
    }

    /// Move the label cursor.  The identifier is only checked when an
    /// operation next uses the cursor.
    pub fn select_label(&mut self, label: u16)
        ensures
            final(self)@.sections == old(self)@.sections,
            final(self)@.globals == old(self)@.globals,
            final(self)@.section == old(self)@.section,
            final(self)@.label == label as int,
    {
        self.label = label as usize;
    }

    /// Register one global symbol name.
    pub fn new_global(&mut self, name: &str)
        ensures
            final(self)@.globals == old(self)@.globals.push(name@),
            final(self)@.sections == old(self)@.sections,
            final(self)@.section == old(self)@.section,
            final(self)@.label == old(self)@.label,
    {
        self.globals.push(name.to_owned());
        proof {
            assert(self@.globals =~~= old(self)@.globals.push(name@));
        }
    }

    /// Append one instruction line to the currently selected label.
    pub fn append_instruction(&mut self, instruction: String)
        requires
            cursor_ok(old(self)@),
        ensures
            final(self)@ == with_instrs(old(self)@, cur_instrs(old(self)@).push(instruction@)),
    {
        let si = self.section;
        let li = self.label;
        let sec = &mut self.sections[si];
        let lab = &mut sec.data[li];
        lab.instructions.push(instruction);
        proof {
            assert(self@ =~~= with_instrs(old(self)@, cur_instrs(old(self)@).push(instruction@)));
        }
    }

    /// Insert one instruction line at `index` within the currently selected
    /// label's lines, shifting the later ones.
    pub fn insert_instruction(&mut self, instruction: String, index: usize)
        requires
            cursor_ok(old(self)@),
            index <= cur_instrs(old(self)@).len(),
        ensures
            final(self)@ == with_instrs(
                old(self)@,
                cur_instrs(old(self)@).insert(index as int, instruction@),
            ),
    {
        let si = self.section;
        let li = self.label;
        let sec = &mut self.sections[si];
        let lab = &mut sec.data[li];
        lab.instructions.insert(index, instruction);
        proof {
            assert(self@ =~~= with_instrs(
                old(self)@,
                cur_instrs(old(self)@).insert(index as int, instruction@),
            ));
        }
    }

    /// Insert one instruction line just after `index`.
    pub fn append_after(&mut self, instruction: String, index: usize)
        requires
            cursor_ok(old(self)@),
            index + 1 <= cur_instrs(old(self)@).len(),
        ensures
            final(self)@ == with_instrs(
                old(self)@,
                cur_instrs(old(self)@).insert(index + 1, instruction@),
            ),
    {
        proof {
            let w = old(self)@;
            assert(w.sections[w.section] == self.sections@[w.section]@);
            assert(w.sections[w.section].labels[w.label]
                == self.sections@[w.section].data@[w.label]@);
            assert(cur_instrs(w) =~= self.sections@[w.section].data@[w.label].instructions.deep_view());
            assert(cur_instrs(w).len() == self.sections@[w.section].data@[w.label].instructions.len());
            assert(cur_instrs(w).len() <= usize::MAX as int);
        }
        self.insert_instruction(instruction, index + 1);
    }
}

impl AVRWriter {
    /// Emit `push <register>`.
    pub fn push(&mut self, register: Registers)
        requires
            cursor_ok(old(self)@),
        ensures
            final(self)@ == with_instrs(old(self)@, cur_instrs(old(self)@).push(s_push(register))),
    {
        let mut s: String = "push ".to_owned();
        s.append(reg_name_str(register));
        proof {
            assert(s@ =~= s_push(register));
        }
        self.append_instruction(s);
    }

    /// Emit `in <register>, <port>`, reading a hardware port.
    pub fn in_port(&mut self, register: Registers, port: i16)
        requires
            cursor_ok(old(self)@),
        ensures
            final(self)@ == with_instrs(
                old(self)@,
                cur_instrs(old(self)@).push(s_in(register, port)),
            ),
    {
        let mut s: String = "in ".to_owned();
        s.append(reg_name_str(register));
        s.append(", ");
        let d = dec_i16(port);
        s.append(d.as_str());
        proof {
            assert(s@ =~= s_in(register, port));
        }
        self.append_instruction(s);
    }

    /// Emit `ldi <register>, <value>`, loading an immediate byte.
    pub fn ldi(&mut self, register: Registers, value: i16)
        requires
            cursor_ok(old(self)@),
        ensures
            final(self)@ == with_instrs(
                old(self)@,
                cur_instrs(old(self)@).push(s_ldi(register, value)),
            ),
    {
        let mut s: String = "ldi ".to_owned();
        s.append(reg_name_str(register));
        s.append(", ");
        let d = dec_i16(value);
        s.append(d.as_str());
        proof {
            assert(s@ =~= s_ldi(register, value));
        }
        self.append_instruction(s);
    }

    /// Emit `ret`.
    pub fn ret(&mut self)
        requires
            cursor_ok(old(self)@),
        ensures
            final(self)@ == with_instrs(old(self)@, cur_instrs(old(self)@).push(s_ret())),
    {
        let s: String = "ret".to_owned();
        self.append_instruction(s);
    }

    /// Emit `pop <register>`.
    pub fn pop(&mut self, register: Registers)
        requires
            cursor_ok(old(self)@),
        ensures
            final(self)@ == with_instrs(old(self)@, cur_instrs(old(self)@).push(s_pop(register))),
    {
        let mut s: String = "pop ".to_owned();
        s.append(reg_name_str(register));
        proof {
            assert(s@ =~= s_pop(register));
        }
        self.append_instruction(s);
    }

    /// Emit the displaced store `std <register>+<offset>, <base>`.
    pub fn std_displaced(&mut self, register: Registers, offset: u16, base: Registers)
        requires
            cursor_ok(old(self)@),
        ensures
            final(self)@ == with_instrs(
                old(self)@,
                cur_instrs(old(self)@).push(s_std(register, offset, base)),
            ),
    {
        let mut s: String = "std ".to_owned();
        s.append(reg_name_str(register));
        s.append("+");
        let d = dec_u32(offset as u32);
        s.append(d.as_str());
        s.append(", ");
        s.append(reg_name_str(base));
        proof {
            assert(s@ =~= s_std(register, offset, base));
        }
        self.append_instruction(s);
    }

    /// Emit the displaced load `ldd <register>, <base>+<offset>`.
    pub fn ldd(&mut self, register: Registers, base: Registers, offset: u16)
        requires
            cursor_ok(old(self)@),
        ensures
            final(self)@ == with_instrs(
                old(self)@,
                cur_instrs(old(self)@).push(s_ldd(register, base, offset)),
            ),
    {
        let mut s: String = "ldd ".to_owned();
        s.append(reg_name_str(register));
        s.append(", ");
        s.append(reg_name_str(base));
        s.append("+");
        let d = dec_u32(offset as u32);
        s.append(d.as_str());
        proof {
            assert(s@ =~= s_ldd(register, base, offset));
        }
        self.append_instruction(s);
    }

    /// Emit `add <dest>, <source>`.
    pub fn add(&mut self, dest: Registers, source: Registers)
        requires
            cursor_ok(old(self)@),
        ensures
            final(self)@ == with_instrs(
                old(self)@,
                cur_instrs(old(self)@).push(s_add(dest, source)),
            ),
    {
        let mut s: String = "add ".to_owned();
        s.append(reg_name_str(dest));
        s.append(", ");
        s.append(reg_name_str(source));
        proof {
            assert(s@ =~= s_add(dest, source));
        }
        self.append_instruction(s);
    }

    /// Emit `adc <dest>, <source>` (add with carry).
    pub fn adc(&mut self, dest: Registers, source: Registers)
        requires
            cursor_ok(old(self)@),
        ensures
            final(self)@ == with_instrs(
                old(self)@,
                cur_instrs(old(self)@).push(s_adc(dest, source)),
            ),
    {
        let mut s: String = "adc ".to_owned();
        s.append(reg_name_str(dest));
        s.append(", ");
        s.append(reg_name_str(source));
        proof {
            assert(s@ =~= s_adc(dest, source));
        }
        self.append_instruction(s);
    }

    /// Emit `mov <dest>, <source>`.
    pub fn mov(&mut self, dest: Registers, source: Registers)
        requires
            cursor_ok(old(self)@),
        ensures
            final(self)@ == with_instrs(
                old(self)@,
                cur_instrs(old(self)@).push(s_mov(dest, source)),
            ),
    {
        let mut s: String = "mov ".to_owned();
        s.append(reg_name_str(dest));
        s.append(", ");
        s.append(reg_name_str(source));
        proof {
            assert(s@ =~= s_mov(dest, source));
        }
        self.append_instruction(s);
    }
}

/// The four lines of a function prologue: save the frame-pointer pair and
/// read the hardware stack pointer's low and high ports into it.
pub open spec fn prologue_instrs() -> Seq<Seq<char>> {
    seq![
        s_push(Registers::R28),
        s_push(Registers::R29),
        s_in(Registers::R28, 0x3D),
        s_in(Registers::R29, 0x3E),
    ]
}

/// The three lines of a function epilogue: restore the frame-pointer pair
/// and return.
pub open spec fn epilogue_instrs() -> Seq<Seq<char>> {
    seq![s_pop(Registers::R29), s_pop(Registers::R28), s_ret()]
}

impl AVRWriter {
    /// Emit the standard function prologue, establishing a frame pointer
    /// equal to the stack pointer at entry.
    pub fn function_prologue(&mut self)
        requires
            cursor_ok(old(self)@),
        ensures
            final(self)@ == with_instrs(old(self)@, cur_instrs(old(self)@) + prologue_instrs()),
    {
        let ghost w0 = self@;
        let ghost c0 = cur_instrs(w0);
        self.push(Registers::R28);
        proof {
            lemma_with_instrs_cur(w0, c0.push(s_push(Registers::R28)));
        }
        self.push(Registers::R29);
        proof {
            lemma_with_instrs_twice(
                w0,
                c0.push(s_push(Registers::R28)),
                c0.push(s_push(Registers::R28)).push(s_push(Registers::R29)),
            );
            lemma_with_instrs_cur(
                w0,
                c0.push(s_push(Registers::R28)).push(s_push(Registers::R29)),
            );
        }
        self.in_port(Registers::R28, 0x3D);
        proof {
            lemma_with_instrs_twice(
                w0,
                c0.push(s_push(Registers::R28)).push(s_push(Registers::R29)),
                c0.push(s_push(Registers::R28)).push(s_push(Registers::R29)).push(
                    s_in(Registers::R28, 0x3D),
                ),
            );
            lemma_with_instrs_cur(
                w0,
                c0.push(s_push(Registers::R28)).push(s_push(Registers::R29)).push(
                    s_in(Registers::R28, 0x3D),
                ),
            );
        }
        self.in_port(Registers::R29, 0x3E);
        proof {
            lemma_with_instrs_twice(
                w0,
                c0.push(s_push(Registers::R28)).push(s_push(Registers::R29)).push(
                    s_in(Registers::R28, 0x3D),
                ),
                c0.push(s_push(Registers::R28)).push(s_push(Registers::R29)).push(
                    s_in(Registers::R28, 0x3D),
                ).push(s_in(Registers::R29, 0x3E)),
            );
            assert(c0.push(s_push(Registers::R28)).push(s_push(Registers::R29)).push(
                s_in(Registers::R28, 0x3D),
            ).push(s_in(Registers::R29, 0x3E)) =~= c0 + prologue_instrs());
        }
    }

    /// Emit the standard function epilogue.
    pub fn function_epilogue(&mut self)
        requires
            cursor_ok(old(self)@),
        ensures
            final(self)@ == with_instrs(old(self)@, cur_instrs(old(self)@) + epilogue_instrs()),
    {
        let ghost w0 = self@;
        let ghost c0 = cur_instrs(w0);
        self.pop(Registers::R29);
        proof {
            lemma_with_instrs_cur(w0, c0.push(s_pop(Registers::R29)));
        }
        self.pop(Registers::R28);
        proof {
            lemma_with_instrs_twice(
                w0,
                c0.push(s_pop(Registers::R29)),
                c0.push(s_pop(Registers::R29)).push(s_pop(Registers::R28)),
            );
            lemma_with_instrs_cur(
                w0,
                c0.push(s_pop(Registers::R29)).push(s_pop(Registers::R28)),
            );
        }
        self.ret();
        proof {
            lemma_with_instrs_twice(
                w0,
                c0.push(s_pop(Registers::R29)).push(s_pop(Registers::R28)),
                c0.push(s_pop(Registers::R29)).push(s_pop(Registers::R28)).push(s_ret()),
            );
            assert(c0.push(s_pop(Registers::R29)).push(s_pop(Registers::R28)).push(s_ret())
                =~= c0 + epilogue_instrs());
        }
    }
}

/// Text of the `.global` lines, one per registered global, in order.
pub open spec fn render_globals(gs: Seq<Seq<char>>) -> Seq<char>
    decreases gs,
{
    if gs.len() == 0 {
        Seq::empty()
    } else {
        ".global "@ + gs[0] + "\n"@ + render_globals(gs.drop_first())
    }
}

/// Text of one label block: the label line, then its instruction lines,
/// each indented by four spaces.
pub open spec fn render_instrs(is: Seq<Seq<char>>) -> Seq<char>
    decreases is,
{
    if is.len() == 0 {
        Seq::empty()
    } else {
        "    "@ + is[0] + "\n"@ + render_instrs(is.drop_first())
    }
}

/// Text of one label: `<name>:` then the indented instruction lines.
pub open spec fn render_label(l: LabelView) -> Seq<char> {
    l.name + ":\n"@ + render_instrs(l.instructions)
}

/// Text of a run of labels, in order.
pub open spec fn render_labels(ls: Seq<LabelView>) -> Seq<char>
    decreases ls,
{
    if ls.len() == 0 {
        Seq::empty()
    } else {
        render_label(ls[0]) + render_labels(ls.drop_first())
    }
}

/// Text of one section: the `.section` line, then its labels.
pub open spec fn render_section(s: SectionView) -> Seq<char> {
    ".section "@ + s.name + "\n"@ + render_labels(s.labels)
}

/// Text of a run of sections, in order.
pub open spec fn render_sections(ss: Seq<SectionView>) -> Seq<char>
    decreases ss,
{
    if ss.len() == 0 {
        Seq::empty()
    } else {
        render_section(ss[0]) + render_sections(ss.drop_first())
    }
}

/// The rendering of the whole buffer: global lines first, then every
/// section in creation order.  The cursor plays no part in rendering.
pub open spec fn spec_render(w: WriterView) -> Seq<char> {
    render_globals(w.globals) + render_sections(w.sections)
}

/// Law: the rendered text is a function of the buffer contents alone, so
/// rendering twice without intervening mutation yields identical text.
pub proof fn lemma_render_deterministic(w: WriterView, r1: Seq<char>, r2: Seq<char>)
    requires
        r1 == spec_render(w),
        r2 == spec_render(w),
    ensures
        r1 == r2,
{
}

impl AVRWriter {
    /// Render the buffer to assembly text.
    pub fn repr(&self) -> (r: String)
        ensures
            r@ == spec_render(self@),
    {
        let ghost w = self@;
        let mut acc = String::new();
        let gn = self.globals.len();
        let mut gi: usize = 0;
        proof {
            assert(w.globals.skip(0) =~= w.globals);
        }
        while gi < gn
            invariant
                gi <= gn,
                gn == self.globals.len(),
                w == self@,
                render_globals(w.globals) == acc@ + render_globals(w.globals.skip(gi as int)),
            decreases gn - gi,
        {
            acc.append(".global ");
            acc.append(self.globals[gi].as_str());
            acc.append("\n");
            proof {
                assert(w.globals.skip(gi as int).drop_first() =~= w.globals.skip(gi + 1));
                assert(w.globals.skip(gi as int)[0] == w.globals[gi as int]);
                assert(render_globals(w.globals) =~= acc@ + render_globals(
                    w.globals.skip(gi + 1),
                ));
            }
            gi += 1;
        }
        proof {
            assert(w.globals.skip(gn as int) =~= Seq::<Seq<char>>::empty());
            assert(acc@ =~= render_globals(w.globals));
        }
        let sn = self.sections.len();
        let mut si: usize = 0;
        proof {
            assert(w.sections.skip(0) =~= w.sections);
        }
        while si < sn
            invariant
                si <= sn,
                sn == self.sections.len(),
                w == self@,
                spec_render(w) == acc@ + render_sections(w.sections.skip(si as int)),
            decreases sn - si,
        {
            let ghost acc_sec = acc@;
            acc.append(".section ");
            acc.append(self.sections[si].name.as_str());
            acc.append("\n");
            let ln = self.sections[si].data.len();
            let mut li: usize = 0;
            proof {
                assert(w.sections[si as int] == self.sections@[si as int]@);
            }
            while li < ln
                invariant
                    li <= ln,
                    si < sn,
                    sn == self.sections.len(),
                    ln == self.sections[si as int].data.len(),
                    w == self@,
                    w.sections[si as int] == self.sections@[si as int]@,
                    acc@ == acc_sec + ".section "@ + w.sections[si as int].name + "\n"@
                        + render_labels(w.sections[si as int].labels.take(li as int)),
                decreases ln - li,
            {
                let ghost acc_lab = acc@;
                let ghost labels = w.sections[si as int].labels;
                acc.append(self.sections[si].data[li].name.as_str());
                acc.append(":\n");
                let kn = self.sections[si].data[li].instructions.len();
                let mut ki: usize = 0;
                proof {
                    assert(labels[li as int] == self.sections@[si as int].data@[li as int]@);
                }
                while ki < kn
                    invariant
                        ki <= kn,
                        li < ln,
                        si < sn,
                        sn == self.sections.len(),
                        ln == self.sections[si as int].data.len(),
                        kn == self.sections[si as int].data[li as int].instructions.len(),
                        w == self@,
                        w.sections[si as int] == self.sections@[si as int]@,
                        labels == w.sections[si as int].labels,
                        labels[li as int] == self.sections@[si as int].data@[li as int]@,
                        acc@ == acc_lab + labels[li as int].name + ":\n"@ + render_instrs(
                            labels[li as int].instructions.take(ki as int),
                        ),
                    decreases kn - ki,
                {
                    acc.append("    ");
                    acc.append(self.sections[si].data[li].instructions[ki].as_str());
                    acc.append("\n");
                    proof {
                        let is = labels[li as int].instructions;
                        lemma_render_instrs_take(is, ki as int);
                        assert(acc@ =~= acc_lab + labels[li as int].name + ":\n"@
                            + render_instrs(is.take(ki + 1)));
                    }
                    ki += 1;
                }
                proof {
                    let is = labels[li as int].instructions;
                    assert(is.take(kn as int) =~= is);
                    lemma_render_labels_take(labels, li as int);
                    assert(acc@ =~= acc_sec + ".section "@ + w.sections[si as int].name + "\n"@
                        + render_labels(labels.take(li + 1)));
                }
                li += 1;
            }
            proof {
                let labels = w.sections[si as int].labels;
                assert(labels.take(ln as int) =~= labels);
                assert(w.sections.skip(si as int).drop_first() =~= w.sections.skip(si + 1));
                assert(w.sections.skip(si as int)[0] == w.sections[si as int]);
                assert(acc@ =~= acc_sec + render_section(w.sections[si as int]));
                assert(spec_render(w) =~= acc@ + render_sections(w.sections.skip(si + 1)));
            }
            si += 1;
        }
        proof {
            assert(w.sections.skip(sn as int) =~= Seq::<SectionView>::empty());
            assert(acc@ =~= spec_render(w));
        }
        acc
    }
}

/// Rendering one more instruction extends the rendered prefix by one
/// indented line.
proof fn lemma_render_instrs_take(is: Seq<Seq<char>>, k: int)
    requires
        0 <= k < is.len(),
    ensures
        render_instrs(is.take(k + 1)) == render_instrs(is.take(k)) + "    "@ + is[k] + "\n"@,
    decreases k,
{
    if k == 0 {
        assert(is.take(0) =~= Seq::<Seq<char>>::empty());
        assert(is.take(1).drop_first() =~= Seq::<Seq<char>>::empty());
        assert(render_instrs(is.take(1)) =~= render_instrs(is.take(0)) + "    "@ + is[0] + "\n"@);
    } else {
        lemma_render_instrs_take(is.drop_first(), k - 1);
        assert(is.take(k + 1).drop_first() =~= is.drop_first().take(k));
        assert(is.take(k).drop_first() =~= is.drop_first().take(k - 1));
        assert(is.take(k + 1)[0] == is[0]);
        assert(render_instrs(is.take(k + 1)) =~= render_instrs(is.take(k)) + "    "@ + is[k]
            + "\n"@);
    }
}

/// Rendering one more label extends the rendered prefix by that label's
/// block.
proof fn lemma_render_labels_take(ls: Seq<LabelView>, k: int)
    requires
        0 <= k < ls.len(),
    ensures
        render_labels(ls.take(k + 1)) == render_labels(ls.take(k)) + render_label(ls[k]),
    decreases k,
{
    if k == 0 {
        assert(ls.take(0) =~= Seq::<LabelView>::empty());
        assert(ls.take(1).drop_first() =~= Seq::<LabelView>::empty());
        assert(render_labels(ls.take(1)) =~= render_labels(ls.take(0)) + render_label(ls[0]));
    } else {
        lemma_render_labels_take(ls.drop_first(), k - 1);
        assert(ls.take(k + 1).drop_first() =~= ls.drop_first().take(k));
        assert(ls.take(k).drop_first() =~= ls.drop_first().take(k - 1));
        assert(ls.take(k + 1)[0] == ls[0]);
        assert(render_labels(ls.take(k + 1)) =~= render_labels(ls.take(k)) + render_label(ls[k]));
    }
}

} // verus!
