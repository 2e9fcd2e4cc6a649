//! Translation of stack-machine instructions into assembly.
use vstd::prelude::*;
use vstd::string::StringExecFns;
use crate::listing::{push_code as push_listing, render, Asm, LabelKind, Op, Reg};
use crate::text::{
    chars_of, decimal, parse_index, parse_u16, push_chars, push_decimal, same_chars, split_lines,
    split_tokens, tokens, views, lines,
};

verus! {

/// The memory segments of a push or pop.
#[derive(Clone, Copy, Debug, PartialEq, Eq, Structural)]
pub enum Segment {
    Local,
    Argument,
    This,
    That,
    Pointer,
    Temp,
    Constant,
    Static,
}

/// The arithmetic and logical operators.
#[derive(Clone, Copy, Debug, PartialEq, Eq, Structural)]
pub enum ArithOp {
    Add,
    Sub,
    Neg,
    Eq,
    Gt,
    Lt,
    And,
    Or,
    Not,
}

/// Why an instruction cannot be translated.
#[derive(Clone, Copy, Debug, PartialEq, Eq, Structural)]
pub enum ErrorKind {
    /// A `pointer` index other than 0 or 1.
    PointerIndexOutOfRange(u16),
    /// A `temp` index outside 1 to 7.
    TempIndexOutOfRange(u16),
    /// A one-word instruction that names no operator.
    UnknownOperator,
}

/// A failed translation: the 1-based number of the offending line and why.
#[derive(Clone, Copy, Debug, PartialEq, Eq, Structural)]
pub struct TranslateError {
    pub line: usize,
    pub kind: ErrorKind,
}

pub open spec fn c(o: Op) -> Asm {
    Asm::Compute(o)
}

/// Stores D at the top of the stack and grows the stack by one.
pub open spec fn push_d_code() -> Seq<Asm> {
    seq![Asm::AtReg(Reg::Sp), c(Op::AIsM), c(Op::MIsD), Asm::AtReg(Reg::Sp), c(Op::MIsMPlusOne)]
}

/// Shrinks the stack by one and loads the value that was on top into D.
pub open spec fn pop_d_code() -> Seq<Asm> {
    seq![Asm::AtReg(Reg::Sp), c(Op::MIsMMinusOne), c(Op::AIsM), c(Op::DIsM)]
}

pub open spec fn base_reg(s: Segment) -> Reg {
    match s {
        Segment::Local => Reg::Lcl,
        Segment::Argument => Reg::Arg,
        Segment::This => Reg::This,
        _ => Reg::That,
    }
}

/// Pushes the cell at the base register's value plus `i`.
pub open spec fn push_based_code(r: Reg, i: u16) -> Seq<Asm> {
    seq![
        Asm::AtNum(i as u32),
        c(Op::DIsA),
        Asm::AtReg(r),
        c(Op::AIsM),
        c(Op::AIsDPlusA),
        c(Op::DIsM),
    ] + push_d_code()
}

/// Pops into the cell at the base register's value plus `i`, its address kept in R5.
pub open spec fn pop_based_code(r: Reg, i: u16) -> Seq<Asm> {
    seq![
        Asm::AtNum(i as u32),
        c(Op::DIsA),
        Asm::AtReg(r),
        c(Op::AIsM),
        c(Op::DIsDPlusA),
        Asm::AtReg(Reg::R5),
        c(Op::MIsD),
        Asm::AtReg(Reg::Sp),
        c(Op::MIsMMinusOne),
        Asm::AtReg(Reg::Sp),
        c(Op::AIsM),
        c(Op::DIsM),
        Asm::AtReg(Reg::R5),
        c(Op::AIsM),
        c(Op::MIsD),
    ]
}

pub open spec fn pointer_reg(i: u16) -> Reg {
    if i == 0 {
        Reg::This
    } else {
        Reg::That
    }
}

pub open spec fn pointer_ok(i: u16) -> bool {
    i == 0 || i == 1
}

pub open spec fn temp_ok(i: u16) -> bool {
    1 <= i <= 7
}

/// The address of a temp cell: the temp region starts at 5.
pub open spec fn temp_addr(i: u16) -> u32 {
    (5 + i) as u32
}

/// The code of `push s i`, or why there is none.
pub open spec fn push_code(s: Segment, i: u16) -> Result<Seq<Asm>, ErrorKind> {
    match s {
        Segment::Pointer => if pointer_ok(i) {
            Ok(seq![Asm::AtReg(pointer_reg(i)), c(Op::DIsM)] + push_d_code())
        } else {
            Err(ErrorKind::PointerIndexOutOfRange(i))
        },
        Segment::Temp => if temp_ok(i) {
            Ok(seq![Asm::AtNum(temp_addr(i)), c(Op::DIsM)] + push_d_code())
        } else {
            Err(ErrorKind::TempIndexOutOfRange(i))
        },
        Segment::Constant => Ok(seq![Asm::AtNum(i as u32), c(Op::DIsA)] + push_d_code()),
        Segment::Static => Ok(seq![Asm::AtStatic(i), c(Op::DIsM)] + push_d_code()),
        _ => Ok(push_based_code(base_reg(s), i)),
    }
}

/// The code of `pop s i`, or why there is none; a constant cannot be popped
/// into, and gets no code.
pub open spec fn pop_code(s: Segment, i: u16) -> Result<Seq<Asm>, ErrorKind> {
    match s {
        Segment::Pointer => if pointer_ok(i) {
            Ok(pop_d_code() + seq![Asm::AtReg(pointer_reg(i)), c(Op::MIsD)])
        } else {
            Err(ErrorKind::PointerIndexOutOfRange(i))
        },
        Segment::Temp => if temp_ok(i) {
            Ok(pop_d_code() + seq![Asm::AtNum(temp_addr(i)), c(Op::MIsD)])
        } else {
            Err(ErrorKind::TempIndexOutOfRange(i))
        },
        Segment::Constant => Ok(seq![]),
        Segment::Static => Ok(pop_d_code() + seq![Asm::AtStatic(i), c(Op::MIsD)]),
        _ => Ok(pop_based_code(base_reg(s), i)),
    }
}

/// Pops B into D, then A into M, and writes `o` of the two in A's cell.
pub open spec fn binary_code(o: Op) -> Seq<Asm> {
    pop_d_code() + seq![
        Asm::AtReg(Reg::Sp),
        c(Op::MIsMMinusOne),
        c(Op::AIsM),
        c(o),
        Asm::AtReg(Reg::Sp),
        c(Op::MIsMPlusOne),
    ]
}

/// Rewrites the top of the stack with `o`.
pub open spec fn unary_code(o: Op) -> Seq<Asm> {
    seq![
        Asm::AtReg(Reg::Sp),
        c(Op::MIsMMinusOne),
        c(Op::AIsM),
        c(o),
        Asm::AtReg(Reg::Sp),
        c(Op::MIsMPlusOne),
    ]
}

/// Pops B's address into R14 and A's into R13, computes `diff` of the two
/// values, branches on it with `jump` to the labels numbered `n`, leaves the
/// sentinel in R15 and pushes it. R13 to R15 lie above the temp cells, which
/// the comparison leaves alone.
pub open spec fn compare_code(diff: Op, jump: Op, n: usize) -> Seq<Asm> {
    seq![
        Asm::AtReg(Reg::Sp),
        c(Op::MIsMMinusOne),
        c(Op::DIsM),
        Asm::AtReg(Reg::R14),
        c(Op::MIsD),
        Asm::AtReg(Reg::Sp),
        c(Op::MIsMMinusOne),
        c(Op::DIsM),
        Asm::AtReg(Reg::R13),
        c(Op::MIsD),
        Asm::AtReg(Reg::R13),
        c(Op::AIsM),
        c(Op::DIsM),
        Asm::AtReg(Reg::R14),
        c(Op::AIsM),
        c(diff),
        Asm::AtLabel(LabelKind::True, n),
        c(jump),
        Asm::Label(LabelKind::False, n),
        Asm::AtReg(Reg::R15),
        c(Op::MIsZero),
        Asm::AtLabel(LabelKind::Join, n),
        c(Op::Jump),
        Asm::Label(LabelKind::True, n),
        Asm::AtReg(Reg::R15),
        c(Op::MIsMinusOne),
        Asm::Label(LabelKind::Join, n),
        Asm::AtReg(Reg::R15),
        c(Op::DIsM),
        Asm::AtReg(Reg::Sp),
        c(Op::AIsM),
        c(Op::MIsD),
        Asm::AtReg(Reg::Sp),
        c(Op::MIsMPlusOne),
    ]
}

pub open spec fn is_comparison(o: ArithOp) -> bool {
    o == ArithOp::Eq || o == ArithOp::Gt || o == ArithOp::Lt
}

/// The code of operator `o`; `n` numbers the labels of a comparison.
pub open spec fn arith_code(o: ArithOp, n: usize) -> Seq<Asm> {
    match o {
        ArithOp::Add => binary_code(Op::MIsDPlusM),
        ArithOp::Sub => binary_code(Op::MIsMMinusD),
        ArithOp::And => binary_code(Op::MIsDAndM),
        ArithOp::Or => binary_code(Op::MIsDOrM),
        ArithOp::Neg => unary_code(Op::MIsNegM),
        ArithOp::Not => unary_code(Op::MIsNotM),
        ArithOp::Eq => compare_code(Op::DIsMMinusD, Op::JumpIfZero, n),
        ArithOp::Gt => compare_code(Op::DIsDMinusM, Op::JumpIfPositive, n),
        ArithOp::Lt => compare_code(Op::DIsDMinusM, Op::JumpIfNegative, n),
    }
}

pub open spec fn code_view(r: Result<Vec<Asm>, ErrorKind>) -> Result<Seq<Asm>, ErrorKind> {
    match r {
        Ok(v) => Ok(v@),
        Err(e) => Err(e),
    }
}

fn push_d(v: &mut Vec<Asm>)
    ensures
        final(v)@ == old(v)@ + push_d_code(),
{
    v.push(Asm::AtReg(Reg::Sp));
    v.push(Asm::Compute(Op::AIsM));
    v.push(Asm::Compute(Op::MIsD));
    v.push(Asm::AtReg(Reg::Sp));
    v.push(Asm::Compute(Op::MIsMPlusOne));
    assert(final(v)@ =~= old(v)@ + push_d_code());
}

fn pop_d(v: &mut Vec<Asm>)
    ensures
        final(v)@ == old(v)@ + pop_d_code(),
{
    v.push(Asm::AtReg(Reg::Sp));
    v.push(Asm::Compute(Op::MIsMMinusOne));
    v.push(Asm::Compute(Op::AIsM));
    v.push(Asm::Compute(Op::DIsM));
    assert(final(v)@ =~= old(v)@ + pop_d_code());
}

fn push_based(r: Reg, index: u16) -> (v: Vec<Asm>)
    ensures
        v@ == push_based_code(r, index),
{
    let mut v = vec![
        Asm::AtNum(index as u32),
        Asm::Compute(Op::DIsA),
        Asm::AtReg(r),
        Asm::Compute(Op::AIsM),
        Asm::Compute(Op::AIsDPlusA),
        Asm::Compute(Op::DIsM),
    ];
    push_d(&mut v);
    v
}

fn pop_based(r: Reg, index: u16) -> (v: Vec<Asm>)
    ensures
        v@ == pop_based_code(r, index),
{
    let v = vec![
        Asm::AtNum(index as u32),
        Asm::Compute(Op::DIsA),
        Asm::AtReg(r),
        Asm::Compute(Op::AIsM),
        Asm::Compute(Op::DIsDPlusA),
        Asm::AtReg(Reg::R5),
        Asm::Compute(Op::MIsD),
        Asm::AtReg(Reg::Sp),
        Asm::Compute(Op::MIsMMinusOne),
        Asm::AtReg(Reg::Sp),
        Asm::Compute(Op::AIsM),
        Asm::Compute(Op::DIsM),
        Asm::AtReg(Reg::R5),
        Asm::Compute(Op::AIsM),
        Asm::Compute(Op::MIsD),
    ];
    assert(v@ =~= pop_based_code(r, index));
    v
}

/// The code of `push local index`: the cell at LCL's value plus `index`.
pub fn translate_push_local(index: u16) -> (v: Vec<Asm>)
    ensures
        push_code(Segment::Local, index) == Ok::<Seq<Asm>, ErrorKind>(v@),
{
    push_based(Reg::Lcl, index)
}

/// The code of `push argument index`: the cell at ARG's value plus `index`.
pub fn translate_push_argument(index: u16) -> (v: Vec<Asm>)
    ensures
        push_code(Segment::Argument, index) == Ok::<Seq<Asm>, ErrorKind>(v@),
{
    push_based(Reg::Arg, index)
}

/// The code of `push this index`: the cell at THIS's value plus `index`.
pub fn translate_push_this(index: u16) -> (v: Vec<Asm>)
    ensures
        push_code(Segment::This, index) == Ok::<Seq<Asm>, ErrorKind>(v@),
{
    push_based(Reg::This, index)
}

/// The code of `push that index`: the cell at THAT's value plus `index`.
pub fn translate_push_that(index: u16) -> (v: Vec<Asm>)
    ensures
        push_code(Segment::That, index) == Ok::<Seq<Asm>, ErrorKind>(v@),
{
    push_based(Reg::That, index)
}

/// The code of `push pointer index`: THIS for 0, THAT for 1, an error otherwise.
pub fn translate_push_pointer(index: u16) -> (r: Result<Vec<Asm>, ErrorKind>)
    ensures
        code_view(r) == push_code(Segment::Pointer, index),
{
    let reg = match index {
        0 => Reg::This,
        1 => Reg::That,
        _ => {
            return Err(ErrorKind::PointerIndexOutOfRange(index));
        },
    };
    let mut v = vec![Asm::AtReg(reg), Asm::Compute(Op::DIsM)];
    push_d(&mut v);
    Ok(v)
}

/// The code of `push temp index`: cell 5 plus `index`, for 1 to 7 only.
pub fn translate_push_temp(index: u16) -> (r: Result<Vec<Asm>, ErrorKind>)
    ensures
        code_view(r) == push_code(Segment::Temp, index),
{
    if 1 <= index && index <= 7 {
        let mut v = vec![Asm::AtNum(5 + index as u32), Asm::Compute(Op::DIsM)];
        push_d(&mut v);
        Ok(v)
    } else {
        Err(ErrorKind::TempIndexOutOfRange(index))
    }
}

/// The code of `push constant index`: the number itself.
pub fn translate_push_constant(index: u16) -> (v: Vec<Asm>)
    ensures
        push_code(Segment::Constant, index) == Ok::<Seq<Asm>, ErrorKind>(v@),
{
    let mut v = vec![Asm::AtNum(index as u32), Asm::Compute(Op::DIsA)];
    push_d(&mut v);
    v
}

/// The static cell is named after the module when the code is rendered.
pub fn translate_push_static(index: u16) -> (v: Vec<Asm>)
    ensures
        push_code(Segment::Static, index) == Ok::<Seq<Asm>, ErrorKind>(v@),
{
    let mut v = vec![Asm::AtStatic(index), Asm::Compute(Op::DIsM)];
    push_d(&mut v);
    v
}

/// The code of `pop local index`.
pub fn translate_pop_local(index: u16) -> (v: Vec<Asm>)
    ensures
        pop_code(Segment::Local, index) == Ok::<Seq<Asm>, ErrorKind>(v@),
{
    pop_based(Reg::Lcl, index)
}

/// The code of `pop argument index`.
pub fn translate_pop_argument(index: u16) -> (v: Vec<Asm>)
    ensures
        pop_code(Segment::Argument, index) == Ok::<Seq<Asm>, ErrorKind>(v@),
{
    pop_based(Reg::Arg, index)
}

/// The code of `pop this index`.
pub fn translate_pop_this(index: u16) -> (v: Vec<Asm>)
    ensures
        pop_code(Segment::This, index) == Ok::<Seq<Asm>, ErrorKind>(v@),
{
    pop_based(Reg::This, index)
}

/// The code of `pop that index`.
pub fn translate_pop_that(index: u16) -> (v: Vec<Asm>)
    ensures
        pop_code(Segment::That, index) == Ok::<Seq<Asm>, ErrorKind>(v@),
{
    pop_based(Reg::That, index)
}

/// The code of `pop pointer index`: into THIS for 0, THAT for 1, an error otherwise.
pub fn translate_pop_pointer(index: u16) -> (r: Result<Vec<Asm>, ErrorKind>)
    ensures
        code_view(r) == pop_code(Segment::Pointer, index),
{
    let reg = match index {
        0 => Reg::This,
        1 => Reg::That,
        _ => {
            return Err(ErrorKind::PointerIndexOutOfRange(index));
        },
    };
    let mut v = Vec::new();
    pop_d(&mut v);
    v.push(Asm::AtReg(reg));
    v.push(Asm::Compute(Op::MIsD));
    assert(v@ =~= pop_d_code() + seq![Asm::AtReg(reg), c(Op::MIsD)]);
    Ok(v)
}

/// The code of `pop temp index`: into cell 5 plus `index`, for 1 to 7 only.
pub fn translate_pop_temp(index: u16) -> (r: Result<Vec<Asm>, ErrorKind>)
    ensures
        code_view(r) == pop_code(Segment::Temp, index),
{
    if 1 <= index && index <= 7 {
        let mut v = Vec::new();
        pop_d(&mut v);
        v.push(Asm::AtNum(5 + index as u32));
        v.push(Asm::Compute(Op::MIsD));
        assert(v@ =~= pop_d_code() + seq![Asm::AtNum(temp_addr(index)), c(Op::MIsD)]);
        Ok(v)
    } else {
        Err(ErrorKind::TempIndexOutOfRange(index))
    }
}

/// The code of `pop static index`.
pub fn translate_pop_static(index: u16) -> (v: Vec<Asm>)
    ensures
        pop_code(Segment::Static, index) == Ok::<Seq<Asm>, ErrorKind>(v@),
{
    let mut v = Vec::new();
    pop_d(&mut v);
    v.push(Asm::AtStatic(index));
    v.push(Asm::Compute(Op::MIsD));
    assert(v@ =~= pop_d_code() + seq![Asm::AtStatic(index), c(Op::MIsD)]);
    v
}

fn binary(o: Op) -> (v: Vec<Asm>)
    ensures
        v@ == binary_code(o),
{
    let mut v = Vec::new();
    pop_d(&mut v);
    v.push(Asm::AtReg(Reg::Sp));
    v.push(Asm::Compute(Op::MIsMMinusOne));
    v.push(Asm::Compute(Op::AIsM));
    v.push(Asm::Compute(o));
    v.push(Asm::AtReg(Reg::Sp));
    v.push(Asm::Compute(Op::MIsMPlusOne));
    assert(v@ =~= binary_code(o));
    v
}

fn unary(o: Op) -> (v: Vec<Asm>)
    ensures
        v@ == unary_code(o),
{
    let v = vec![
        Asm::AtReg(Reg::Sp),
        Asm::Compute(Op::MIsMMinusOne),
        Asm::Compute(Op::AIsM),
        Asm::Compute(o),
        Asm::AtReg(Reg::Sp),
        Asm::Compute(Op::MIsMPlusOne),
    ];
    assert(v@ =~= unary_code(o));
    v
}

fn compare(diff: Op, jump: Op, n: usize) -> (v: Vec<Asm>)
    ensures
        v@ == compare_code(diff, jump, n),
{
    let v = vec![
        Asm::AtReg(Reg::Sp),
        Asm::Compute(Op::MIsMMinusOne),
        Asm::Compute(Op::DIsM),
        Asm::AtReg(Reg::R14),
        Asm::Compute(Op::MIsD),
        Asm::AtReg(Reg::Sp),
        Asm::Compute(Op::MIsMMinusOne),
        Asm::Compute(Op::DIsM),
        Asm::AtReg(Reg::R13),
        Asm::Compute(Op::MIsD),
        Asm::AtReg(Reg::R13),
        Asm::Compute(Op::AIsM),
        Asm::Compute(Op::DIsM),
        Asm::AtReg(Reg::R14),
        Asm::Compute(Op::AIsM),
        Asm::Compute(diff),
        Asm::AtLabel(LabelKind::True, n),
        Asm::Compute(jump),
        Asm::Label(LabelKind::False, n),
        Asm::AtReg(Reg::R15),
        Asm::Compute(Op::MIsZero),
        Asm::AtLabel(LabelKind::Join, n),
        Asm::Compute(Op::Jump),
        Asm::Label(LabelKind::True, n),
        Asm::AtReg(Reg::R15),
        Asm::Compute(Op::MIsMinusOne),
        Asm::Label(LabelKind::Join, n),
        Asm::AtReg(Reg::R15),
        Asm::Compute(Op::DIsM),
        Asm::AtReg(Reg::Sp),
        Asm::Compute(Op::AIsM),
        Asm::Compute(Op::MIsD),
        Asm::AtReg(Reg::Sp),
        Asm::Compute(Op::MIsMPlusOne),
    ];
    assert(v@ =~= compare_code(diff, jump, n));
    v
}

/// The code of `add`.
pub fn translate_add_instruction() -> (v: Vec<Asm>)
    ensures
        v@ == arith_code(ArithOp::Add, 0),
{
    binary(Op::MIsDPlusM)
}

/// The code of `sub`: the lower operand minus the upper one.
pub fn translate_sub_instruction() -> (v: Vec<Asm>)
    ensures
        v@ == arith_code(ArithOp::Sub, 0),
{
    binary(Op::MIsMMinusD)
}

/// The code of `and`.
pub fn translate_and_instruction() -> (v: Vec<Asm>)
    ensures
        v@ == arith_code(ArithOp::And, 0),
{
    binary(Op::MIsDAndM)
}

/// The code of `or`.
pub fn translate_or_instruction() -> (v: Vec<Asm>)
    ensures
        v@ == arith_code(ArithOp::Or, 0),
{
    binary(Op::MIsDOrM)
}

/// The code of `neg`.
pub fn translate_neg_instruction() -> (v: Vec<Asm>)
    ensures
        v@ == arith_code(ArithOp::Neg, 0),
{
    unary(Op::MIsNegM)
}

/// The code of `not`.
pub fn translate_not_instruction() -> (v: Vec<Asm>)
    ensures
        v@ == arith_code(ArithOp::Not, 0),
{
    unary(Op::MIsNotM)
}

/// Takes the next label number and emits `eq` with it.
pub fn translate_eq_instruction(index: &mut usize) -> (v: Vec<Asm>)
    requires
        *old(index) < usize::MAX,
    ensures
        *final(index) == *old(index) + 1,
        v@ == arith_code(ArithOp::Eq, *final(index)),
{
    *index = *index + 1;
    compare(Op::DIsMMinusD, Op::JumpIfZero, *index)
}

/// Takes the next label number and emits `gt` with it.
pub fn translate_gt_instruction(index: &mut usize) -> (v: Vec<Asm>)
    requires
        *old(index) < usize::MAX,
    ensures
        *final(index) == *old(index) + 1,
        v@ == arith_code(ArithOp::Gt, *final(index)),
{
    *index = *index + 1;
    compare(Op::DIsDMinusM, Op::JumpIfPositive, *index)
}

/// Takes the next label number and emits `lt` with it.
pub fn translate_lt_instruction(index: &mut usize) -> (v: Vec<Asm>)
    requires
        *old(index) < usize::MAX,
    ensures
        *final(index) == *old(index) + 1,
        v@ == arith_code(ArithOp::Lt, *final(index)),
{
    *index = *index + 1;
    compare(Op::DIsDMinusM, Op::JumpIfNegative, *index)
}

pub open spec fn segment_named(n: Seq<char>) -> Option<Segment> {
    if n == "local"@ {
        Some(Segment::Local)
    } else if n == "argument"@ {
        Some(Segment::Argument)
    } else if n == "this"@ {
        Some(Segment::This)
    } else if n == "that"@ {
        Some(Segment::That)
    } else if n == "pointer"@ {
        Some(Segment::Pointer)
    } else if n == "temp"@ {
        Some(Segment::Temp)
    } else if n == "constant"@ {
        Some(Segment::Constant)
    } else if n == "static"@ {
        Some(Segment::Static)
    } else {
        None
    }
}

pub open spec fn operator_named(n: Seq<char>) -> Option<ArithOp> {
    if n == "add"@ {
        Some(ArithOp::Add)
    } else if n == "sub"@ {
        Some(ArithOp::Sub)
    } else if n == "neg"@ {
        Some(ArithOp::Neg)
    } else if n == "eq"@ {
        Some(ArithOp::Eq)
    } else if n == "gt"@ {
        Some(ArithOp::Gt)
    } else if n == "lt"@ {
        Some(ArithOp::Lt)
    } else if n == "and"@ {
        Some(ArithOp::And)
    } else if n == "or"@ {
        Some(ArithOp::Or)
    } else if n == "not"@ {
        Some(ArithOp::Not)
    } else {
        None
    }
}

/// The index that an operand gives: its value, or 0 where it is no number.
pub open spec fn index_value(t: Seq<char>) -> u16 {
    match parse_u16(t) {
        Some(v) => v,
        None => 0,
    }
}

pub open spec fn push_comment(seg: Seq<char>, i: u16) -> Seq<char> {
    "// Push value from "@ + seg + " at "@ + decimal(i as nat) + " to the stack.\n"@
}

pub open spec fn pop_comment(seg: Seq<char>, i: u16) -> Seq<char> {
    "// Pop value from "@ + seg + " at "@ + decimal(i as nat) + " to the stack.\n"@
}

pub open spec fn arith_comment(op: Seq<char>) -> Seq<char> {
    "// Arithmetic instruction: "@ + op + ".\n"@
}

/// The text of a push (`push` true) or a pop of segment `seg` at operand
/// `idx`: a comment, then the code; an unknown segment gets the comment alone.
pub open spec fn mem_text(push: bool, seg: Seq<char>, idx: Seq<char>, module: Seq<char>) -> Result<
    Seq<char>,
    ErrorKind,
> {
    let i = index_value(idx);
    let comment = if push {
        push_comment(seg, i)
    } else {
        pop_comment(seg, i)
    };
    match segment_named(seg) {
        None => Ok(comment),
        Some(s) => match (if push {
            push_code(s, i)
        } else {
            pop_code(s, i)
        }) {
            Ok(code) => Ok(comment + render(code, module)),
            Err(e) => Err(e),
        },
    }
}

/// The text of an operator instruction whose comparisons take label number `n`.
pub open spec fn arith_text(name: Seq<char>, n: nat) -> Result<Seq<char>, ErrorKind> {
    match operator_named(name) {
        None => Err(ErrorKind::UnknownOperator),
        Some(o) => Ok(arith_comment(name) + render(arith_code(o, n as usize), seq![])),
    }
}

/// The label counter after an operator instruction.
pub open spec fn next_counter(name: Seq<char>, counter: nat) -> nat {
    match operator_named(name) {
        Some(o) => if is_comparison(o) {
            counter + 1
        } else {
            counter
        },
        None => counter,
    }
}

/// The text of one instruction given as its words, and the label counter after it.
pub open spec fn instruction_step(toks: Seq<Seq<char>>, module: Seq<char>, counter: nat) -> Result<
    (Seq<char>, nat),
    ErrorKind,
> {
    if toks.len() == 3 {
        match mem_text(toks[0] == "push"@, toks[1], toks[2], module) {
            Ok(t) => Ok((t, counter)),
            Err(e) => Err(e),
        }
    } else if toks.len() == 1 {
        let n = next_counter(toks[0], counter);
        match arith_text(toks[0], n) {
            Ok(t) => Ok((t, n)),
            Err(e) => Err(e),
        }
    } else {
        Ok((seq![], counter))
    }
}

/// A line that is neither empty nor a `//` comment.
pub open spec fn is_instruction_line(l: Seq<char>) -> bool {
    l.len() > 0 && !(l.len() >= 2 && l[0] == '/' && l[1] == '/')
}

/// The text of lines `ls`, the first numbered `line_no`, with the label counter at `counter`.
pub open spec fn translate_from(ls: Seq<Seq<char>>, module: Seq<char>, line_no: nat, counter: nat) -> Result<
    Seq<char>,
    TranslateError,
>
    decreases ls.len(),
{
    if ls.len() == 0 {
        Ok(seq![])
    } else if !is_instruction_line(ls[0]) {
        translate_from(ls.drop_first(), module, line_no + 1, counter)
    } else {
        match instruction_step(tokens(ls[0]), module, counter) {
            Err(k) => Err(TranslateError { line: line_no as usize, kind: k }),
            Ok((t, n)) => prefixed(t, translate_from(ls.drop_first(), module, line_no + 1, n)),
        }
    }
}

pub open spec fn prefixed(p: Seq<char>, r: Result<Seq<char>, TranslateError>) -> Result<
    Seq<char>,
    TranslateError,
> {
    match r {
        Ok(t) => Ok(p + t),
        Err(e) => Err(e),
    }
}

/// The translation of a whole program; `module` names its static variables.
pub open spec fn translation(program: Seq<char>, module: Seq<char>) -> Result<Seq<char>, TranslateError> {
    translate_from(lines(program), module, 1, 0)
}

pub open spec fn text_view<E>(r: Result<String, E>) -> Result<Seq<char>, E> {
    match r {
        Ok(s) => Ok(s@),
        Err(e) => Err(e),
    }
}

/// The segment that a word names.
pub fn segment_of_name(n: &[char]) -> (r: Option<Segment>)
    ensures
        r == segment_named(n@),
{
    if same_chars(n, "local") {
        Some(Segment::Local)
    } else if same_chars(n, "argument") {
        Some(Segment::Argument)
    } else if same_chars(n, "this") {
        Some(Segment::This)
    } else if same_chars(n, "that") {
        Some(Segment::That)
    } else if same_chars(n, "pointer") {
        Some(Segment::Pointer)
    } else if same_chars(n, "temp") {
        Some(Segment::Temp)
    } else if same_chars(n, "constant") {
        Some(Segment::Constant)
    } else if same_chars(n, "static") {
        Some(Segment::Static)
    } else {
        None
    }
}

/// The operator that a word names.
pub fn operator_of_name(n: &[char]) -> (r: Option<ArithOp>)
    ensures
        r == operator_named(n@),
{
    if same_chars(n, "add") {
        Some(ArithOp::Add)
    } else if same_chars(n, "sub") {
        Some(ArithOp::Sub)
    } else if same_chars(n, "neg") {
        Some(ArithOp::Neg)
    } else if same_chars(n, "eq") {
        Some(ArithOp::Eq)
    } else if same_chars(n, "gt") {
        Some(ArithOp::Gt)
    } else if same_chars(n, "lt") {
        Some(ArithOp::Lt)
    } else if same_chars(n, "and") {
        Some(ArithOp::And)
    } else if same_chars(n, "or") {
        Some(ArithOp::Or)
    } else if same_chars(n, "not") {
        Some(ArithOp::Not)
    } else {
        None
    }
}

fn index_of(t: &Vec<char>) -> (r: u16)
    ensures
        r == index_value(t@),
{
    match parse_index(t) {
        Some(v) => v,
        None => 0,
    }
}

/// Whether a line is an instruction: neither empty nor a `//` comment.
pub fn is_instruction(line: &[char]) -> (r: bool)
    ensures
        r == is_instruction_line(line@),
{
    line.len() > 0 && !(line.len() >= 2 && line[0] == '/' && line[1] == '/')
}

/// Whether the words of a line make a push or a pop.
pub fn is_push_pop_instruction(instruction: &Vec<Vec<char>>) -> (r: bool)
    ensures
        r == (instruction@.len() == 3),
{
    instruction.len() == 3
}

/// Whether the words of a line make an operator instruction.
pub fn is_arithmetic_logical_instruction(instruction: &Vec<Vec<char>>) -> (r: bool)
    ensures
        r == (instruction@.len() == 1),
{
    instruction.len() == 1
}

/// Whether a push or pop is a push.
pub fn is_push_instruction(instruction: &Vec<Vec<char>>) -> (r: bool)
    requires
        instruction@.len() >= 1,
    ensures
        r == (instruction@[0]@ == "push"@),
{
    same_chars(instruction[0].as_slice(), "push")
}

fn push_comment_text(out: &mut String, push: bool, seg: &[char], i: u16)
    ensures
        final(out)@ == old(out)@ + (if push {
            push_comment(seg@, i)
        } else {
            pop_comment(seg@, i)
        }),
{
    if push {
        out.append("// Push value from ");
    } else {
        out.append("// Pop value from ");
    }
    push_chars(out, seg);
    out.append(" at ");
    push_decimal(out, i as usize);
    out.append(" to the stack.\n");
    assert(final(out)@ =~= old(out)@ + (if push {
        push_comment(seg@, i)
    } else {
        pop_comment(seg@, i)
    }));
}

fn code_text(out: String, code: Result<Vec<Asm>, ErrorKind>, module: &[char]) -> (r: Result<
    String,
    ErrorKind,
>)
    ensures
        text_view(r) == (match code_view(code) {
            Ok(c) => Ok(out@ + render(c, module@)),
            Err(e) => Err(e),
        }),
{
    match code {
        Ok(v) => {
            let mut out = out;
            push_listing(&mut out, &v, module);
            Ok(out)
        },
        Err(e) => Err(e),
    }
}

/// Translates `push segment index`, given as its three words.
pub fn translate_push_instruction(instruction: &Vec<Vec<char>>, filename: &[char]) -> (r: Result<
    String,
    ErrorKind,
>)
    requires
        instruction@.len() == 3,
    ensures
        text_view(r) == mem_text(true, instruction@[1]@, instruction@[2]@, filename@),
{
    let segment = instruction[1].as_slice();
    let index = index_of(&instruction[2]);
    let mut result = String::new();
    push_comment_text(&mut result, true, segment, index);
    let code: Result<Vec<Asm>, ErrorKind> = match segment_of_name(segment) {
        Some(Segment::Local) => Ok(translate_push_local(index)),
        Some(Segment::Argument) => Ok(translate_push_argument(index)),
        Some(Segment::This) => Ok(translate_push_this(index)),
        Some(Segment::That) => Ok(translate_push_that(index)),
        Some(Segment::Pointer) => translate_push_pointer(index),
        Some(Segment::Temp) => translate_push_temp(index),
        Some(Segment::Constant) => Ok(translate_push_constant(index)),
        Some(Segment::Static) => Ok(translate_push_static(index)),
        None => Ok(Vec::new()),
    };
    proof {
        if segment_named(segment@) is None {
            assert(render(seq![], filename@) =~= seq![]);
            assert(result@ + render(seq![], filename@) =~= result@);
        }
    }
    code_text(result, code, filename)
}

/// Translates `pop segment index`, given as its three words.
pub fn translate_pop_instruction(instruction: &Vec<Vec<char>>, filename: &[char]) -> (r: Result<
    String,
    ErrorKind,
>)
    requires
        instruction@.len() == 3,
    ensures
        text_view(r) == mem_text(false, instruction@[1]@, instruction@[2]@, filename@),
{
    let segment = instruction[1].as_slice();
    let index = index_of(&instruction[2]);
    let mut result = String::new();
    push_comment_text(&mut result, false, segment, index);
    let code: Result<Vec<Asm>, ErrorKind> = match segment_of_name(segment) {
        Some(Segment::Local) => Ok(translate_pop_local(index)),
        Some(Segment::Argument) => Ok(translate_pop_argument(index)),
        Some(Segment::This) => Ok(translate_pop_this(index)),
        Some(Segment::That) => Ok(translate_pop_that(index)),
        Some(Segment::Pointer) => translate_pop_pointer(index),
        Some(Segment::Temp) => translate_pop_temp(index),
        Some(Segment::Static) => Ok(translate_pop_static(index)),
        Some(Segment::Constant) => Ok(Vec::new()),
        None => Ok(Vec::new()),
    };
    proof {
        assert(render(seq![], filename@) =~= seq![]);
        assert(result@ + render(seq![], filename@) =~= result@);
    }
    code_text(result, code, filename)
}

/// Translates a push or a pop, given as its three words; any first word but
/// `push` makes a pop.
pub fn translate_push_pop_instruction(instruction: &Vec<Vec<char>>, filename: &[char]) -> (r: Result<
    String,
    ErrorKind,
>)
    requires
        instruction@.len() == 3,
    ensures
        text_view(r) == mem_text(
            instruction@[0]@ == "push"@,
            instruction@[1]@,
            instruction@[2]@,
            filename@,
        ),
{
    if is_push_instruction(instruction) {
        translate_push_instruction(instruction, filename)
    } else {
        translate_pop_instruction(instruction, filename)
    }
}

/// Translates an operator instruction, given as its one word; a comparison
/// first advances the label counter and numbers its labels with the new value.
pub fn translate_arithmetic_logical_instruction(
    instruction: &Vec<Vec<char>>,
    index: &mut usize,
) -> (r: Result<String, ErrorKind>)
    requires
        instruction@.len() == 1,
        *old(index) < usize::MAX,
    ensures
        text_view(r) == arith_text(
            instruction@[0]@,
            next_counter(instruction@[0]@, *old(index) as nat),
        ),
        *final(index) == next_counter(instruction@[0]@, *old(index) as nat),
{
    let name = instruction[0].as_slice();
    let mut result = String::new();
    result.append("// Arithmetic instruction: ");
    push_chars(&mut result, name);
    result.append(".\n");
    assert(result@ =~= arith_comment(name@));
    let code: Vec<Asm> = match operator_of_name(name) {
        Some(ArithOp::Add) => translate_add_instruction(),
        Some(ArithOp::Sub) => translate_sub_instruction(),
        Some(ArithOp::Neg) => translate_neg_instruction(),
        Some(ArithOp::Eq) => translate_eq_instruction(index),
        Some(ArithOp::Gt) => translate_gt_instruction(index),
        Some(ArithOp::Lt) => translate_lt_instruction(index),
        Some(ArithOp::And) => translate_and_instruction(),
        Some(ArithOp::Or) => translate_or_instruction(),
        Some(ArithOp::Not) => translate_not_instruction(),
        None => {
            return Err(ErrorKind::UnknownOperator);
        },
    };
    push_listing(&mut result, &code, &[]);
    proof {
        let empty: Seq<char> = seq![];
        assert([]@ =~= empty);
    }
    Ok(result)
}

/// Translates one instruction line and advances the label counter past its
/// comparisons.
pub fn translate_instruction(line: &Vec<char>, filename: &[char], index: &mut usize) -> (r: Result<
    String,
    ErrorKind,
>)
    requires
        *old(index) < usize::MAX,
    ensures
        match instruction_step(tokens(line@), filename@, *old(index) as nat) {
            Ok((t, n)) => r is Ok && r->Ok_0@ == t && *final(index) == n,
            Err(e) => r is Err && r->Err_0 == e && *final(index) == *old(index),
        },
{
    let instruction = split_tokens(line);
    let ghost toks = tokens(line@);
    assert(instruction@.len() == toks.len());
    if is_push_pop_instruction(&instruction) {
        assert(instruction@[0]@ == toks[0] && instruction@[1]@ == toks[1] && instruction@[2]@
            == toks[2]);
        translate_push_pop_instruction(&instruction, filename)
    } else if is_arithmetic_logical_instruction(&instruction) {
        assert(instruction@[0]@ == toks[0]);
        translate_arithmetic_logical_instruction(&instruction, index)
    } else {
        Ok(String::new())
    }
}

/// Translates a whole program; `filename` is the module's base name, which
/// names its static variables. Comment and empty lines give no text; the first
/// line that cannot be translated makes the error, with its 1-based number.
pub fn translate(program: &str, filename: &str) -> (r: Result<String, TranslateError>)
    ensures
        text_view(r) == translation(program@, filename@),
{
    let chars = chars_of(program);
    let module = chars_of(filename);
    let ls = split_lines(&chars);
    let ghost all = views(ls@);
    let mut result = String::new();
    let mut counter: usize = 0;
    let mut i: usize = 0;
    assert(all.skip(0) =~= all);
    assert(prefixed(result@, translate_from(all, module@, 1, 0)) =~= translation(program@, module@)) by {
        match translate_from(all, module@, 1, 0) {
            Ok(t) => {
                assert(result@ + t =~= t);
            },
            Err(e) => {},
        }
    }
    while i < ls.len()
        invariant
            i <= ls@.len(),
            all == views(ls@),
            all == lines(program@),
            module@ == filename@,
            counter <= i,
            prefixed(result@, translate_from(all.skip(i as int), module@, (i + 1) as nat, counter as nat))
                == translation(program@, module@),
        decreases ls@.len() - i,
    {
        let line = &ls[i];
        let ghost rest = all.skip(i as int);
        assert(rest[0] == line@);
        assert(rest.drop_first() =~= all.skip(i + 1));
        if is_instruction(line.as_slice()) {
            match translate_instruction(line, module.as_slice(), &mut counter) {
                Ok(t) => {
                    proof {
                        let tail = translate_from(all.skip(i + 1), module@, (i + 2) as nat, counter as nat);
                        match tail {
                            Ok(u) => {
                                assert(result@ + (t@ + u) =~= (result@ + t@) + u);
                            },
                            Err(e) => {},
                        }
                    }
                    result.append(t.as_str());
                },
                Err(k) => {
                    return Err(TranslateError { line: i + 1, kind: k });
                },
            }
        }
        i = i + 1;
    }
    proof {
        assert(all.skip(i as int) =~= seq![]);
        assert(result@ + seq![] =~= result@);
    }
    Ok(result)
}

} // verus!
