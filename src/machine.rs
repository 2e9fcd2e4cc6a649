//! The meaning of the generated code on the target machine, and the laws
//! that the translation keeps.
use vstd::prelude::*;
use crate::listing::{Asm, LabelKind, Op, Reg};
use crate::codegen::{
    compare_code, arith_code, binary_code, is_comparison, pop_code, pop_d_code, push_code, push_d_code, unary_code,
    ArithOp, Segment,
};

verus! {

/// The machine's registers and memory. Words are modelled as integers; the
/// laws on operators ask that no result leave the 16-bit range (see `fits`),
/// where the integers and the 16-bit machine agree.
pub struct State {
    pub a: int,
    pub d: int,
    pub ram: Map<int, int>,
}

pub open spec fn reg_addr(r: Reg) -> int {
    match r {
        Reg::Sp => 0,
        Reg::Lcl => 1,
        Reg::Arg => 2,
        Reg::This => 3,
        Reg::That => 4,
        Reg::R5 => 5,
        Reg::R13 => 13,
        Reg::R14 => 14,
        Reg::R15 => 15,
    }
}

/// The position of the first declaration of a label, which is where a jump
/// to it lands; the code's length where there is none.
pub open spec fn label_pos(code: Seq<Asm>, k: LabelKind, n: usize) -> int
    decreases code.len(),
{
    if code.len() == 0 {
        0
    } else if code[0] == Asm::Label(k, n) {
        0
    } else {
        1 + label_pos(code.drop_first(), k, n)
    }
}

pub open spec fn word_and(x: int, y: int) -> int {
    ((x as i16) & (y as i16)) as int
}

pub open spec fn word_or(x: int, y: int) -> int {
    ((x as i16) | (y as i16)) as int
}

/// The state after a computation.
pub open spec fn compute(o: Op, s: State) -> State {
    let m = s.ram[s.a];
    let put = |v: int| State { ram: s.ram.insert(s.a, v), ..s };
    match o {
        Op::DIsA => State { d: s.a, ..s },
        Op::DIsM => State { d: m, ..s },
        Op::AIsM => State { a: m, ..s },
        Op::AIsDPlusA => State { a: s.d + s.a, ..s },
        Op::DIsDPlusA => State { d: s.d + s.a, ..s },
        Op::DIsMMinusD => State { d: m - s.d, ..s },
        Op::DIsDMinusM => State { d: s.d - m, ..s },
        Op::MIsD => put(s.d),
        Op::MIsMPlusOne => put(m + 1),
        Op::MIsMMinusOne => put(m - 1),
        Op::MIsDPlusM => put(s.d + m),
        Op::MIsMMinusD => put(m - s.d),
        Op::MIsNegM => put(-m),
        Op::MIsDAndM => put(word_and(s.d, m)),
        Op::MIsDOrM => put(word_or(s.d, m)),
        Op::MIsNotM => put(-m - 1),
        Op::MIsZero => put(0),
        Op::MIsMinusOne => put(-1),
        _ => s,
    }
}

/// Whether a computation jumps, on D.
pub open spec fn jumps(o: Op, d: int) -> bool {
    match o {
        Op::JumpIfZero => d == 0,
        Op::JumpIfPositive => d > 0,
        Op::JumpIfNegative => d < 0,
        Op::Jump => true,
        _ => false,
    }
}

/// One step at position `pc`: the next position and state.
pub open spec fn step(code: Seq<Asm>, statics: spec_fn(u16) -> int, pc: int, s: State) -> (int, State) {
    match code[pc] {
        Asm::AtNum(n) => (pc + 1, State { a: n as int, ..s }),
        Asm::AtReg(r) => (pc + 1, State { a: reg_addr(r), ..s }),
        Asm::AtStatic(i) => (pc + 1, State { a: statics(i), ..s }),
        Asm::AtLabel(k, n) => (pc + 1, State { a: label_pos(code, k, n), ..s }),
        Asm::Label(_, _) => (pc + 1, s),
        Asm::Compute(o) => (if jumps(o, s.d) {
            s.a
        } else {
            pc + 1
        }, compute(o, s)),
    }
}

/// Runs from position `pc` for at most `fuel` steps or until the code ends.
pub open spec fn run_from(code: Seq<Asm>, statics: spec_fn(u16) -> int, pc: int, s: State, fuel: nat) -> State
    decreases fuel,
{
    if fuel == 0 || pc < 0 || pc >= code.len() {
        s
    } else {
        let (p, t) = step(code, statics, pc, s);
        run_from(code, statics, p, t, (fuel - 1) as nat)
    }
}

/// The state after running a block from its start; the generated blocks jump
/// only forward, so as many steps as lines suffice.
pub open spec fn run(code: Seq<Asm>, statics: spec_fn(u16) -> int, s: State) -> State {
    run_from(code, statics, 0, s, code.len())
}

pub open spec fn sp(s: State) -> int {
    s.ram[0]
}

/// The value that `push seg i` reads.
pub open spec fn pushed_value(seg: Segment, i: u16, statics: spec_fn(u16) -> int, s: State) -> int {
    match seg {
        Segment::Pointer => if i == 0 {
            s.ram[3]
        } else {
            s.ram[4]
        },
        Segment::Temp => s.ram[5 + i],
        Segment::Constant => i as int,
        Segment::Static => s.ram[statics(i)],
        Segment::Local => s.ram[s.ram[1] + i],
        Segment::Argument => s.ram[s.ram[2] + i],
        Segment::This => s.ram[s.ram[3] + i],
        Segment::That => s.ram[s.ram[4] + i],
    }
}

pub open spec fn is_jump(o: Op) -> bool {
    o == Op::JumpIfZero || o == Op::JumpIfPositive || o == Op::JumpIfNegative || o == Op::Jump
}

/// A line after which control always goes to the next one.
pub open spec fn straight(a: Asm) -> bool {
    match a {
        Asm::AtNum(_) => true,
        Asm::AtReg(_) => true,
        Asm::AtStatic(_) => true,
        Asm::Label(_, _) => true,
        Asm::Compute(o) => !is_jump(o),
        _ => false,
    }
}

/// The effect of a straight line.
pub open spec fn exec_line(a: Asm, statics: spec_fn(u16) -> int, s: State) -> State {
    match a {
        Asm::AtNum(n) => State { a: n as int, ..s },
        Asm::AtReg(r) => State { a: reg_addr(r), ..s },
        Asm::AtStatic(i) => State { a: statics(i), ..s },
        Asm::Compute(o) => compute(o, s),
        _ => s,
    }
}

/// The effect of straight lines, one after the other.
pub open spec fn exec_straight(code: Seq<Asm>, statics: spec_fn(u16) -> int, s: State) -> State
    decreases code.len(),
{
    if code.len() == 0 {
        s
    } else {
        exec_straight(code.drop_first(), statics, exec_line(code[0], statics, s))
    }
}

proof fn lemma_run_prefix(
    code: Seq<Asm>,
    statics: spec_fn(u16) -> int,
    pc: int,
    k: int,
    s: State,
    fuel: nat,
)
    requires
        0 <= pc <= k <= code.len(),
        fuel >= k - pc,
        forall|j: int| pc <= j < k ==> straight(#[trigger] code[j]),
    ensures
        run_from(code, statics, pc, s, fuel) == run_from(
            code,
            statics,
            k,
            exec_straight(code.subrange(pc, k), statics, s),
            (fuel - (k - pc)) as nat,
        ),
    decreases k - pc,
{
    if pc == k {
        assert(code.subrange(pc, k).len() == 0);
    } else {
        let a = code[pc];
        assert(straight(a));
        let t = exec_line(a, statics, s);
        assert(step(code, statics, pc, s) == (pc + 1, t));
        assert(code.subrange(pc, k).drop_first() =~= code.subrange(pc + 1, k));
        assert(code.subrange(pc, k)[0] == a);
        lemma_run_prefix(code, statics, pc + 1, k, t, (fuel - 1) as nat);
    }
}

proof fn lemma_exec_concat(x: Seq<Asm>, y: Seq<Asm>, statics: spec_fn(u16) -> int, s: State)
    ensures
        exec_straight(x + y, statics, s) == exec_straight(y, statics, exec_straight(x, statics, s)),
    decreases x.len(),
{
    if x.len() == 0 {
        assert(x + y =~= y);
    } else {
        assert((x + y).drop_first() =~= x.drop_first() + y);
        assert((x + y)[0] == x[0]);
        lemma_exec_concat(x.drop_first(), y, statics, exec_line(x[0], statics, s));
    }
}

/// Straight code runs line after line.
proof fn lemma_run_straight(code: Seq<Asm>, statics: spec_fn(u16) -> int, s: State)
    requires
        forall|j: int| 0 <= j < code.len() ==> straight(#[trigger] code[j]),
    ensures
        run(code, statics, s) == exec_straight(code, statics, s),
{
    lemma_run_prefix(code, statics, 0, code.len() as int, s, code.len());
    assert(code.subrange(0, code.len() as int) =~= code);
}

/// A line that leaves memory alone.
pub open spec fn reads_only(a: Asm) -> bool {
    match a {
        Asm::Compute(o) => o == Op::DIsA || o == Op::DIsM || o == Op::AIsM || o == Op::AIsDPlusA
            || o == Op::DIsDPlusA,
        Asm::AtNum(_) => true,
        Asm::AtReg(_) => true,
        Asm::AtStatic(_) => true,
        _ => false,
    }
}

proof fn lemma_reads_only(code: Seq<Asm>, statics: spec_fn(u16) -> int, s: State)
    requires
        forall|j: int| 0 <= j < code.len() ==> reads_only(#[trigger] code[j]),
    ensures
        exec_straight(code, statics, s).ram == s.ram,
    decreases code.len(),
{
    if code.len() > 0 {
        assert(reads_only(code[0]));
        let t = exec_line(code[0], statics, s);
        assert(t.ram == s.ram);
        assert forall|j: int| 0 <= j < code.drop_first().len() implies reads_only(
            #[trigger] code.drop_first()[j],
        ) by {
            assert(code.drop_first()[j] == code[j + 1]);
        }
        lemma_reads_only(code.drop_first(), statics, t);
    }
}

proof fn lemma_push_d(statics: spec_fn(u16) -> int, s: State)
    requires
        sp(s) >= 16,
    ensures
        exec_straight(push_d_code(), statics, s).ram == s.ram.insert(sp(s), s.d).insert(0, sp(s) + 1),
{
    reveal_with_fuel(exec_straight, 6);
    let t = exec_straight(push_d_code(), statics, s);
    assert(t.ram =~= s.ram.insert(sp(s), s.d).insert(0, sp(s) + 1));
}

proof fn lemma_pop_d(statics: spec_fn(u16) -> int, s: State)
    requires
        sp(s) >= 17,
    ensures
        exec_straight(pop_d_code(), statics, s).ram == s.ram.insert(0, sp(s) - 1),
        exec_straight(pop_d_code(), statics, s).d == s.ram[sp(s) - 1],
        exec_straight(pop_d_code(), statics, s).a == sp(s) - 1,
{
    reveal_with_fuel(exec_straight, 5);
}

/// Every `push` grows the stack by one cell and stores there the value that
/// its segment and index address; the rest of memory is left as it was.
pub proof fn push_grows_stack(seg: Segment, i: u16, statics: spec_fn(u16) -> int, s: State)
    requires
        push_code(seg, i) is Ok,
        sp(s) >= 16,
    ensures
        sp(run(push_code(seg, i)->Ok_0, statics, s)) == sp(s) + 1,
        run(push_code(seg, i)->Ok_0, statics, s).ram == s.ram.insert(sp(s), pushed_value(seg, i, statics, s)).insert(0, sp(s) + 1),
{
    let code = push_code(seg, i)->Ok_0;
    let load = code.take(code.len() - 5);
    assert(code =~= load + push_d_code());
    assert forall|j: int| 0 <= j < code.len() implies straight(#[trigger] code[j]) by {}
    lemma_run_straight(code, statics, s);
    lemma_exec_concat(load, push_d_code(), statics, s);
    assert forall|j: int| 0 <= j < load.len() implies reads_only(#[trigger] load[j]) by {}
    lemma_reads_only(load, statics, s);
    let t = exec_straight(load, statics, s);
    reveal_with_fuel(exec_straight, 7);
    assert(t.d == pushed_value(seg, i, statics, s));
    lemma_push_d(statics, t);
}

/// Where `pop seg i` writes.
pub open spec fn popped_addr(seg: Segment, i: u16, statics: spec_fn(u16) -> int, s: State) -> int {
    match seg {
        Segment::Pointer => if i == 0 {
            3
        } else {
            4
        },
        Segment::Temp => 5 + i,
        Segment::Static => statics(i),
        Segment::Local => s.ram[1] + i,
        Segment::Argument => s.ram[2] + i,
        Segment::This => s.ram[3] + i,
        Segment::That => s.ram[4] + i,
        Segment::Constant => 0,
    }
}

/// The cell that `pop seg i` uses to hold its target address, if any (0, the
/// stack pointer's own cell, where there is none).
pub open spec fn pop_scratch(seg: Segment) -> int {
    match seg {
        Segment::Local | Segment::Argument | Segment::This | Segment::That => 5,
        _ => 0,
    }
}

/// Every `pop` into a segment shrinks the stack by one cell and stores the
/// value that was on top where its segment and index address, provided that
/// address is not the stack pointer's own cell.
pub proof fn pop_shrinks_stack(seg: Segment, i: u16, statics: spec_fn(u16) -> int, s: State)
    requires
        pop_code(seg, i) is Ok,
        seg != Segment::Constant,
        sp(s) >= 17,
        popped_addr(seg, i, statics, s) != 0,
    ensures
        sp(run(pop_code(seg, i)->Ok_0, statics, s)) == sp(s) - 1,
        run(pop_code(seg, i)->Ok_0, statics, s).ram[popped_addr(seg, i, statics, s)] == s.ram[sp(s)
            - 1],
        forall|j: int|
            j != 0 && j != popped_addr(seg, i, statics, s) && j != pop_scratch(seg) ==> #[trigger] run(
                pop_code(seg, i)->Ok_0,
                statics,
                s,
            ).ram[j] == s.ram[j],
{
    let code = pop_code(seg, i)->Ok_0;
    assert forall|j: int| 0 <= j < code.len() implies straight(#[trigger] code[j]) by {}
    lemma_run_straight(code, statics, s);
    let target = popped_addr(seg, i, statics, s);
    if seg == Segment::Pointer || seg == Segment::Temp || seg == Segment::Static {
        let store = code.skip(4);
        assert(code =~= pop_d_code() + store);
        lemma_exec_concat(pop_d_code(), store, statics, s);
        lemma_pop_d(statics, s);
        let t = exec_straight(pop_d_code(), statics, s);
        reveal_with_fuel(exec_straight, 3);
        let u = exec_straight(store, statics, t);
        assert(u.ram == t.ram.insert(target, t.d));
    } else {
        reveal_with_fuel(exec_straight, 16);
        let u = exec_straight(code, statics, s);
        let v = s.ram[sp(s) - 1];
        assert(u.ram == s.ram.insert(5, target).insert(0, sp(s) - 1).insert(target, v));
    }
}

/// What an operator leaves on top of the stack, from the operands `x` (below)
/// and `y` (on top); a unary operator reads `y` alone. True is -1, all bits
/// set, and false is 0.
pub open spec fn op_result(o: ArithOp, x: int, y: int) -> int {
    match o {
        ArithOp::Add => x + y,
        ArithOp::Sub => x - y,
        ArithOp::And => word_and(y, x),
        ArithOp::Or => word_or(y, x),
        ArithOp::Neg => -y,
        ArithOp::Not => -y - 1,
        ArithOp::Eq => if x == y {
            -1
        } else {
            0
        },
        ArithOp::Gt => if x > y {
            -1
        } else {
            0
        },
        ArithOp::Lt => if x < y {
            -1
        } else {
            0
        },
    }
}

pub open spec fn is_unary(o: ArithOp) -> bool {
    o == ArithOp::Neg || o == ArithOp::Not
}

/// The stack depth after an operator: one less for a binary one, the same for
/// a unary one.
pub open spec fn depth_after(o: ArithOp, depth: int) -> int {
    if is_unary(o) {
        depth
    } else {
        depth - 1
    }
}

proof fn lemma_binary(o: Op, statics: spec_fn(u16) -> int, s: State)
    requires
        sp(s) >= 18,
        !is_jump(o),
    ensures
        run(binary_code(o), statics, s).ram[0] == sp(s) - 1,
        run(binary_code(o), statics, s).ram == compute(
            o,
            State { a: sp(s) - 2, d: s.ram[sp(s) - 1], ram: s.ram.insert(0, sp(s) - 2) },
        ).ram.insert(0, sp(s) - 1),
{
    let code = binary_code(o);
    assert forall|j: int| 0 <= j < code.len() implies straight(#[trigger] code[j]) by {}
    lemma_run_straight(code, statics, s);
    let rest = code.skip(4);
    assert(code =~= pop_d_code() + rest);
    lemma_exec_concat(pop_d_code(), rest, statics, s);
    lemma_pop_d(statics, s);
    let t = exec_straight(pop_d_code(), statics, s);
    let m = State { a: sp(s) - 2, d: s.ram[sp(s) - 1], ram: s.ram.insert(0, sp(s) - 2) };
    let head = rest.take(3);
    let tail = rest.skip(3);
    assert(head =~= seq![Asm::AtReg(Reg::Sp), Asm::Compute(Op::MIsMMinusOne), Asm::Compute(Op::AIsM)]);
    assert(tail =~= seq![Asm::Compute(o), Asm::AtReg(Reg::Sp), Asm::Compute(Op::MIsMPlusOne)]);
    reveal_with_fuel(exec_straight, 4);
    let h = exec_straight(head, statics, t);
    assert(h.ram =~= m.ram);
    assert(h == m);
    assert(rest =~= head + tail);
    lemma_exec_concat(head, tail, statics, t);
    assert(exec_straight(tail, statics, m).ram =~= compute(o, m).ram.insert(0, sp(s) - 1));
}

proof fn lemma_unary(o: Op, statics: spec_fn(u16) -> int, s: State)
    requires
        sp(s) >= 17,
        !is_jump(o),
    ensures
        run(unary_code(o), statics, s).ram[0] == sp(s),
        run(unary_code(o), statics, s).ram == compute(
            o,
            State { a: sp(s) - 1, d: s.d, ram: s.ram.insert(0, sp(s) - 1) },
        ).ram.insert(0, sp(s)),
{
    let code = unary_code(o);
    assert forall|j: int| 0 <= j < code.len() implies straight(#[trigger] code[j]) by {}
    lemma_run_straight(code, statics, s);
    reveal_with_fuel(exec_straight, 7);
    let m = State { a: sp(s) - 1, d: s.d, ram: s.ram.insert(0, sp(s) - 1) };
    assert(exec_straight(code.take(3), statics, s) == m);
    assert(code =~= code.take(3) + code.skip(3));
    lemma_exec_concat(code.take(3), code.skip(3), statics, s);
    assert(code.skip(3) =~= seq![Asm::Compute(o), Asm::AtReg(Reg::Sp), Asm::Compute(Op::MIsMPlusOne)]);
    assert(exec_straight(code.skip(3), statics, m).ram =~= compute(o, m).ram.insert(0, sp(s)));
}

/// A value that a 16-bit word holds.
pub open spec fn is_word(v: int) -> bool {
    -32768 <= v <= 32767
}

/// The operands are words and the operator's sum, difference or negation is
/// one too, so that the 16-bit machine computes what the integers do.
pub open spec fn fits(o: ArithOp, x: int, y: int) -> bool {
    is_word(x) && is_word(y) && match o {
        ArithOp::Add => is_word(x + y),
        ArithOp::Sub | ArithOp::Gt | ArithOp::Lt => is_word(x - y),
        ArithOp::Neg => is_word(-y),
        _ => true,
    }
}

/// Every operator takes its operands from the top of the stack and leaves its
/// result there: a binary one, comparisons included, shrinks the stack by one
/// cell, a unary one keeps its depth. A comparison leaves -1 (all bits set)
/// when it holds and 0 when it does not; `sub` leaves the lower operand minus
/// the upper one. Besides the stack pointer and the result cell, only a
/// comparison writes memory, and only R13 to R15.
pub proof fn operator_stack_effect(o: ArithOp, n: usize, statics: spec_fn(u16) -> int, s: State)
    requires
        sp(s) >= 18,
        fits(o, s.ram[sp(s) - 2], s.ram[sp(s) - 1]),
    ensures
        forall|j: int|
            j != 0 && j != depth_after(o, sp(s)) - 1 && !(is_comparison(o) && 13 <= j <= 15)
                ==> #[trigger] run(arith_code(o, n), statics, s).ram[j] == s.ram[j],
        sp(run(arith_code(o, n), statics, s)) == depth_after(o, sp(s)),
        run(arith_code(o, n), statics, s).ram[depth_after(o, sp(s)) - 1] == op_result(
            o,
            s.ram[sp(s) - 2],
            s.ram[sp(s) - 1],
        ),
{
    match o {
        ArithOp::Add => lemma_binary(Op::MIsDPlusM, statics, s),
        ArithOp::Sub => lemma_binary(Op::MIsMMinusD, statics, s),
        ArithOp::And => lemma_binary(Op::MIsDAndM, statics, s),
        ArithOp::Or => lemma_binary(Op::MIsDOrM, statics, s),
        ArithOp::Neg => lemma_unary(Op::MIsNegM, statics, s),
        ArithOp::Not => lemma_unary(Op::MIsNotM, statics, s),
        ArithOp::Eq => {
            let x = s.ram[sp(s) - 2];
            let y = s.ram[sp(s) - 1];
            lemma_compare(Op::DIsMMinusD, Op::JumpIfZero, n, statics, s, x == y);
        },
        ArithOp::Gt => {
            let x = s.ram[sp(s) - 2];
            let y = s.ram[sp(s) - 1];
            lemma_compare(Op::DIsDMinusM, Op::JumpIfPositive, n, statics, s, x > y);
        },
        ArithOp::Lt => {
            let x = s.ram[sp(s) - 2];
            let y = s.ram[sp(s) - 1];
            lemma_compare(Op::DIsDMinusM, Op::JumpIfNegative, n, statics, s, x < y);
        },
    }
}

proof fn lemma_label_pos(code: Seq<Asm>, k: LabelKind, n: usize, p: int)
    requires
        0 <= p < code.len(),
        code[p] == Asm::Label(k, n),
        forall|j: int| 0 <= j < p ==> #[trigger] code[j] != Asm::Label(k, n),
    ensures
        label_pos(code, k, n) == p,
    decreases p,
{
    if p > 0 {
        assert(code[0] != Asm::Label(k, n));
        assert forall|j: int| 0 <= j < p - 1 implies #[trigger] code.drop_first()[j] != Asm::Label(
            k,
            n,
        ) by {
            assert(code.drop_first()[j] == code[j + 1]);
        }
        lemma_label_pos(code.drop_first(), k, n, p - 1);
    }
}

/// Runs a comparison block: the stack loses one cell, and the cell now on
/// top holds -1 where `holds` and 0 elsewhere.
proof fn lemma_compare(diff: Op, jump: Op, n: usize, statics: spec_fn(u16) -> int, s: State, holds: bool)
    requires
        sp(s) >= 18,
        diff == Op::DIsMMinusD || diff == Op::DIsDMinusM,
        jump == Op::JumpIfZero || jump == Op::JumpIfPositive || jump == Op::JumpIfNegative,
        holds == jumps(
            jump,
            if diff == Op::DIsMMinusD {
                s.ram[sp(s) - 1] - s.ram[sp(s) - 2]
            } else {
                s.ram[sp(s) - 2] - s.ram[sp(s) - 1]
            },
        ),
    ensures
        sp(run(compare_code(diff, jump, n), statics, s)) == sp(s) - 1,
        run(compare_code(diff, jump, n), statics, s).ram[sp(s) - 2] == if holds {
            -1int
        } else {
            0
        },
        forall|j: int|
            j != 0 && j != sp(s) - 2 && !(13 <= j <= 15) ==> #[trigger] run(
                compare_code(diff, jump, n),
                statics,
                s,
            ).ram[j] == s.ram[j],
{
    let code = compare_code(diff, jump, n);
    let x = s.ram[sp(s) - 2];
    let y = s.ram[sp(s) - 1];
    let sv = sp(s);
    assert(code.len() == 34);
    assert forall|j: int| 0 <= j < 23 implies #[trigger] code[j] != Asm::Label(LabelKind::True, n) by {}
    lemma_label_pos(code, LabelKind::True, n, 23);
    assert forall|j: int| 0 <= j < 26 implies #[trigger] code[j] != Asm::Label(LabelKind::Join, n) by {}
    lemma_label_pos(code, LabelKind::Join, n, 26);
    // the operands
    assert forall|j: int| 0 <= j < 16 implies straight(#[trigger] code[j]) by {}
    lemma_run_prefix(code, statics, 0, 16, s, 34);
    let ops = code.subrange(0, 16);
    reveal_with_fuel(exec_straight, 17);
    let s16 = exec_straight(ops, statics, s);
    let r16 = s.ram.insert(0, sv - 1).insert(14, sv - 1).insert(0, sv - 2).insert(13, sv - 2);
    assert(s16.ram =~= r16);
    assert(s16.d == if diff == Op::DIsMMinusD {
        y - x
    } else {
        x - y
    });
    let s17 = State { a: 23, ..s16 };
    assert(run_from(code, statics, 16, s16, 18) == run_from(code, statics, 17, s17, 17));
    let join_ram;
    if holds {
        assert(run_from(code, statics, 17, s17, 17) == run_from(code, statics, 23, s17, 16));
        assert forall|j: int| 23 <= j < 26 implies straight(#[trigger] code[j]) by {}
        lemma_run_prefix(code, statics, 23, 26, s17, 16);
        join_ram = s17.ram.insert(15, -1);
        assert(exec_straight(code.subrange(23, 26), statics, s17).ram =~= join_ram);
        assert forall|j: int| 26 <= j < 34 implies straight(#[trigger] code[j]) by {}
        let s26 = exec_straight(code.subrange(23, 26), statics, s17);
        lemma_run_prefix(code, statics, 26, 34, s26, 13);
        let end = exec_straight(code.subrange(26, 34), statics, s26);
        assert(end.ram =~= join_ram.insert(sv - 2, -1).insert(0, sv - 1));
    } else {
        assert(run_from(code, statics, 17, s17, 17) == run_from(code, statics, 18, s17, 16));
        assert forall|j: int| 18 <= j < 21 implies straight(#[trigger] code[j]) by {}
        lemma_run_prefix(code, statics, 18, 21, s17, 16);
        let s21 = exec_straight(code.subrange(18, 21), statics, s17);
        join_ram = s17.ram.insert(15, 0);
        assert(s21.ram =~= join_ram);
        let s22 = State { a: 26, ..s21 };
        assert(run_from(code, statics, 21, s21, 13) == run_from(code, statics, 22, s22, 12));
        assert(run_from(code, statics, 22, s22, 12) == run_from(code, statics, 26, s22, 11));
        assert forall|j: int| 26 <= j < 34 implies straight(#[trigger] code[j]) by {}
        lemma_run_prefix(code, statics, 26, 34, s22, 11);
        let end = exec_straight(code.subrange(26, 34), statics, s22);
        assert(end.ram =~= join_ram.insert(sv - 2, 0).insert(0, sv - 1));
    }
}

/// A constant pushed, popped into a temp cell and pushed back from it is on
/// top of the stack again, one cell above where the stack began.
pub proof fn temp_round_trip(v: u16, t: u16, statics: spec_fn(u16) -> int, s: State)
    requires
        1 <= t <= 7,
        sp(s) >= 16,
    ensures
        ({
            let s1 = run(push_code(Segment::Constant, v)->Ok_0, statics, s);
            let s2 = run(pop_code(Segment::Temp, t)->Ok_0, statics, s1);
            let s3 = run(push_code(Segment::Temp, t)->Ok_0, statics, s2);
            sp(s3) == sp(s) + 1 && s3.ram[sp(s3) - 1] == v as int
        }),
{
    let s1 = run(push_code(Segment::Constant, v)->Ok_0, statics, s);
    push_grows_stack(Segment::Constant, v, statics, s);
    assert(s1.ram[sp(s)] == v as int);
    pop_shrinks_stack(Segment::Temp, t, statics, s1);
    let s2 = run(pop_code(Segment::Temp, t)->Ok_0, statics, s1);
    assert(s2.ram[5 + t] == v as int);
    push_grows_stack(Segment::Temp, t, statics, s2);
}

} // verus!
