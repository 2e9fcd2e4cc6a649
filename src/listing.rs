//! A structured form of the emitted assembly and its rendering as text.
use vstd::prelude::*;
use crate::text::{decimal, push_chars, push_decimal};

verus! {

/// The named registers that the generated code addresses.
#[derive(Clone, Copy, Debug, PartialEq, Eq, Structural)]
pub enum Reg {
    Sp,
    Lcl,
    Arg,
    This,
    That,
    R5,
    R13,
    R14,
    R15,
}

/// The three labels of one comparison.
#[derive(Clone, Copy, Debug, PartialEq, Eq, Structural)]
pub enum LabelKind {
    True,
    False,
    Join,
}

/// The computation instructions that the generated code uses.
#[derive(Clone, Copy, Debug, PartialEq, Eq, Structural)]
pub enum Op {
    DIsA,
    DIsM,
    AIsM,
    MIsD,
    AIsDPlusA,
    DIsDPlusA,
    MIsMPlusOne,
    MIsMMinusOne,
    MIsDPlusM,
    MIsMMinusD,
    MIsNegM,
    MIsDAndM,
    MIsDOrM,
    MIsNotM,
    DIsMMinusD,
    DIsDMinusM,
    MIsZero,
    MIsMinusOne,
    JumpIfZero,
    JumpIfPositive,
    JumpIfNegative,
    Jump,
}

/// One line of assembly.
#[derive(Clone, Copy, Debug, PartialEq, Eq, Structural)]
pub enum Asm {
    /// `@n`: loads a number into A.
    AtNum(u32),
    /// `@SP`, `@LCL`, ...: loads a register's address into A.
    AtReg(Reg),
    /// `@<module>.<n>`: loads a static variable's address into A.
    AtStatic(u16),
    /// `@RESULT_TRUE_<n>`, ...: loads a label's address into A.
    AtLabel(LabelKind, usize),
    /// `(RESULT_TRUE_<n>)`, ...: declares a label.
    Label(LabelKind, usize),
    /// A computation, with its destination and jump.
    Compute(Op),
}

pub open spec fn reg_name(r: Reg) -> Seq<char> {
    match r {
        Reg::Sp => seq!['S', 'P'],
        Reg::Lcl => seq!['L', 'C', 'L'],
        Reg::Arg => seq!['A', 'R', 'G'],
        Reg::This => seq!['T', 'H', 'I', 'S'],
        Reg::That => seq!['T', 'H', 'A', 'T'],
        Reg::R5 => seq!['R', '5'],
        Reg::R13 => seq!['R', '1', '3'],
        Reg::R14 => seq!['R', '1', '4'],
        Reg::R15 => seq!['R', '1', '5'],
    }
}

pub open spec fn label_prefix(k: LabelKind) -> Seq<char> {
    match k {
        LabelKind::True => seq!['R', 'E', 'S', 'U', 'L', 'T', '_', 'T', 'R', 'U', 'E', '_'],
        LabelKind::False => seq!['R', 'E', 'S', 'U', 'L', 'T', '_', 'F', 'A', 'L', 'S', 'E', '_'],
        LabelKind::Join => seq!['R', 'E', 'S', 'U', 'L', 'T', '_'],
    }
}

pub open spec fn op_text(o: Op) -> Seq<char> {
    match o {
        Op::DIsA => seq!['D', '=', 'A'],
        Op::DIsM => seq!['D', '=', 'M'],
        Op::AIsM => seq!['A', '=', 'M'],
        Op::MIsD => seq!['M', '=', 'D'],
        Op::AIsDPlusA => seq!['A', '=', 'D', '+', 'A'],
        Op::DIsDPlusA => seq!['D', '=', 'D', '+', 'A'],
        Op::MIsMPlusOne => seq!['M', '=', 'M', '+', '1'],
        Op::MIsMMinusOne => seq!['M', '=', 'M', '-', '1'],
        Op::MIsDPlusM => seq!['M', '=', 'D', '+', 'M'],
        Op::MIsMMinusD => seq!['M', '=', 'M', '-', 'D'],
        Op::MIsNegM => seq!['M', '=', '-', 'M'],
        Op::MIsDAndM => seq!['M', '=', 'D', '&', 'M'],
        Op::MIsDOrM => seq!['M', '=', 'D', '|', 'M'],
        Op::MIsNotM => seq!['M', '=', '!', 'M'],
        Op::DIsMMinusD => seq!['D', '=', 'M', '-', 'D'],
        Op::DIsDMinusM => seq!['D', '=', 'D', '-', 'M'],
        Op::MIsZero => seq!['M', '=', '0'],
        Op::MIsMinusOne => seq!['M', '=', '-', '1'],
        Op::JumpIfZero => seq!['D', ';', 'J', 'E', 'Q'],
        Op::JumpIfPositive => seq!['D', ';', 'J', 'G', 'T'],
        Op::JumpIfNegative => seq!['D', ';', 'J', 'L', 'T'],
        Op::Jump => seq!['0', ';', 'J', 'M', 'P'],
    }
}

/// The text of one line, newline included; `module` names static variables.
pub open spec fn asm_text(a: Asm, module: Seq<char>) -> Seq<char> {
    match a {
        Asm::AtNum(n) => seq!['@'] + decimal(n as nat) + seq!['\n'],
        Asm::AtReg(r) => seq!['@'] + reg_name(r) + seq!['\n'],
        Asm::AtStatic(i) => seq!['@'] + module + seq!['.'] + decimal(i as nat) + seq!['\n'],
        Asm::AtLabel(k, n) => seq!['@'] + label_prefix(k) + decimal(n as nat) + seq!['\n'],
        Asm::Label(k, n) => seq!['('] + label_prefix(k) + decimal(n as nat) + seq![')', '\n'],
        Asm::Compute(o) => op_text(o) + seq!['\n'],
    }
}

/// The text of a block of lines.
pub open spec fn render(code: Seq<Asm>, module: Seq<char>) -> Seq<char>
    decreases code.len(),
{
    if code.len() == 0 {
        seq![]
    } else {
        render(code.drop_last(), module) + asm_text(code.last(), module)
    }
}

fn push_reg(out: &mut String, r: Reg)
    ensures
        final(out)@ == old(out)@ + reg_name(r),
{
    let v: Vec<char> = match r {
        Reg::Sp => vec!['S', 'P'],
        Reg::Lcl => vec!['L', 'C', 'L'],
        Reg::Arg => vec!['A', 'R', 'G'],
        Reg::This => vec!['T', 'H', 'I', 'S'],
        Reg::That => vec!['T', 'H', 'A', 'T'],
        Reg::R5 => vec!['R', '5'],
        Reg::R13 => vec!['R', '1', '3'],
        Reg::R14 => vec!['R', '1', '4'],
        Reg::R15 => vec!['R', '1', '5'],
    };
    assert(v@ =~= reg_name(r));
    push_chars(out, v.as_slice());
}

fn push_label_prefix(out: &mut String, k: LabelKind)
    ensures
        final(out)@ == old(out)@ + label_prefix(k),
{
    let v: Vec<char> = match k {
        LabelKind::True => vec!['R', 'E', 'S', 'U', 'L', 'T', '_', 'T', 'R', 'U', 'E', '_'],
        LabelKind::False => vec!['R', 'E', 'S', 'U', 'L', 'T', '_', 'F', 'A', 'L', 'S', 'E', '_'],
        LabelKind::Join => vec!['R', 'E', 'S', 'U', 'L', 'T', '_'],
    };
    assert(v@ =~= label_prefix(k));
    push_chars(out, v.as_slice());
}

fn push_op(out: &mut String, o: Op)
    ensures
        final(out)@ == old(out)@ + op_text(o),
{
    let v: Vec<char> = match o {
        Op::DIsA => vec!['D', '=', 'A'],
        Op::DIsM => vec!['D', '=', 'M'],
        Op::AIsM => vec!['A', '=', 'M'],
        Op::MIsD => vec!['M', '=', 'D'],
        Op::AIsDPlusA => vec!['A', '=', 'D', '+', 'A'],
        Op::DIsDPlusA => vec!['D', '=', 'D', '+', 'A'],
        Op::MIsMPlusOne => vec!['M', '=', 'M', '+', '1'],
        Op::MIsMMinusOne => vec!['M', '=', 'M', '-', '1'],
        Op::MIsDPlusM => vec!['M', '=', 'D', '+', 'M'],
        Op::MIsMMinusD => vec!['M', '=', 'M', '-', 'D'],
        Op::MIsNegM => vec!['M', '=', '-', 'M'],
        Op::MIsDAndM => vec!['M', '=', 'D', '&', 'M'],
        Op::MIsDOrM => vec!['M', '=', 'D', '|', 'M'],
        Op::MIsNotM => vec!['M', '=', '!', 'M'],
        Op::DIsMMinusD => vec!['D', '=', 'M', '-', 'D'],
        Op::DIsDMinusM => vec!['D', '=', 'D', '-', 'M'],
        Op::MIsZero => vec!['M', '=', '0'],
        Op::MIsMinusOne => vec!['M', '=', '-', '1'],
        Op::JumpIfZero => vec!['D', ';', 'J', 'E', 'Q'],
        Op::JumpIfPositive => vec!['D', ';', 'J', 'G', 'T'],
        Op::JumpIfNegative => vec!['D', ';', 'J', 'L', 'T'],
        Op::Jump => vec!['0', ';', 'J', 'M', 'P'],
    };
    assert(v@ =~= op_text(o));
    push_chars(out, v.as_slice());
}

/// Appends the text of one line.
fn push_asm(out: &mut String, a: Asm, module: &[char])
    ensures
        final(out)@ == old(out)@ + asm_text(a, module@),
{
    match a {
        Asm::AtNum(n) => {
            push_chars(out, &['@']);
            push_decimal(out, n as usize);
            push_chars(out, &['\n']);
        },
        Asm::AtReg(r) => {
            push_chars(out, &['@']);
            push_reg(out, r);
            push_chars(out, &['\n']);
        },
        Asm::AtStatic(i) => {
            push_chars(out, &['@']);
            push_chars(out, module);
            push_chars(out, &['.']);
            push_decimal(out, i as usize);
            push_chars(out, &['\n']);
        },
        Asm::AtLabel(k, n) => {
            push_chars(out, &['@']);
            push_label_prefix(out, k);
            push_decimal(out, n);
            push_chars(out, &['\n']);
        },
        Asm::Label(k, n) => {
            push_chars(out, &['(']);
            push_label_prefix(out, k);
            push_decimal(out, n);
            push_chars(out, &[')', '\n']);
        },
        Asm::Compute(o) => {
            push_op(out, o);
            push_chars(out, &['\n']);
        },
    }
    assert(final(out)@ =~= old(out)@ + asm_text(a, module@));
}

/// Appends the text of a block of lines.
pub(crate) fn push_code(out: &mut String, code: &Vec<Asm>, module: &[char])
    ensures
        final(out)@ == old(out)@ + render(code@, module@),
{
    let mut i: usize = 0;
    while i < code.len()
        invariant
            i <= code@.len(),
            out@ == old(out)@ + render(code@.take(i as int), module@),
        decreases code@.len() - i,
    {
        assert(code@.take(i + 1).drop_last() =~= code@.take(i as int));
        push_asm(out, code[i], module);
        assert(out@ =~= old(out)@ + render(code@.take(i + 1), module@));
        i = i + 1;
    }
    assert(code@.take(i as int) =~= code@);
}

} // verus!
