//! The code of a whole program, and the uniqueness of its labels.
use vstd::prelude::*;
use crate::codegen::{
    arith_comment, pop_comment, push_comment, arith_code, compare_code, index_value, instruction_step, is_comparison, is_instruction_line,
    next_counter, operator_named, translate_from, TranslateError, pop_code, push_code, segment_named,
};
use crate::listing::{render, Asm, LabelKind};
use crate::text::{lines, lines_from, strip_cr, tokens};

verus! {

/// The code of one instruction, given as its words, with the label counter
/// at `counter` before it; the comment and anything that is no code are left out.
pub open spec fn instruction_code(toks: Seq<Seq<char>>, counter: nat) -> Seq<Asm> {
    if toks.len() == 3 {
        match segment_named(toks[1]) {
            Some(s) => match (if toks[0] == "push"@ {
                push_code(s, index_value(toks[2]))
            } else {
                pop_code(s, index_value(toks[2]))
            }) {
                Ok(c) => c,
                Err(_) => seq![],
            },
            None => seq![],
        }
    } else if toks.len() == 1 {
        match operator_named(toks[0]) {
            Some(o) => arith_code(o, next_counter(toks[0], counter) as usize),
            None => seq![],
        }
    } else {
        seq![]
    }
}

/// The label counter after one instruction.
pub open spec fn counter_after(toks: Seq<Seq<char>>, counter: nat) -> nat {
    if toks.len() == 1 {
        next_counter(toks[0], counter)
    } else {
        counter
    }
}

/// The code of lines `ls`, one instruction after the other.
pub open spec fn listing_from(ls: Seq<Seq<char>>, counter: nat) -> Seq<Asm>
    decreases ls.len(),
{
    if ls.len() == 0 {
        seq![]
    } else if !is_instruction_line(ls[0]) {
        listing_from(ls.drop_first(), counter)
    } else {
        let toks = tokens(ls[0]);
        instruction_code(toks, counter) + listing_from(ls.drop_first(), counter_after(toks, counter))
    }
}

/// Whether a line is a comparison.
pub open spec fn is_comparison_line(l: Seq<char>) -> bool {
    is_instruction_line(l) && tokens(l).len() == 1 && match operator_named(tokens(l)[0]) {
        Some(o) => is_comparison(o),
        None => false,
    }
}

/// How many of the lines are comparisons.
pub open spec fn comparisons(ls: Seq<Seq<char>>) -> nat
    decreases ls.len(),
{
    if ls.len() == 0 {
        0
    } else {
        (if is_comparison_line(ls[0]) {
            1nat
        } else {
            0
        }) + comparisons(ls.drop_first())
    }
}

pub open spec fn label_num(a: Asm) -> int {
    match a {
        Asm::Label(_, n) => n as int,
        _ => -1,
    }
}

/// No label is declared twice.
pub open spec fn labels_unique(code: Seq<Asm>) -> bool {
    forall|p: int, q: int|
        0 <= p < q < code.len() && (#[trigger] code[p]) is Label && (#[trigger] code[q]) is Label
            ==> code[p] != code[q]
}

/// Every label is numbered between `lo` and `hi`, both included.
pub open spec fn labels_within(code: Seq<Asm>, lo: int, hi: int) -> bool {
    forall|p: int| 0 <= p < code.len() && (#[trigger] code[p]) is Label ==> lo <= label_num(code[p]) <= hi
}

/// Every label numbered between `lo` and `hi` is declared, in each of its three kinds.
pub open spec fn labels_cover(code: Seq<Asm>, lo: int, hi: int) -> bool {
    forall|n: int, k: LabelKind| lo <= n <= hi ==> #[trigger] declares(code, k, n)
}

/// Whether the code declares label `k` numbered `n`.
pub open spec fn declares(code: Seq<Asm>, k: LabelKind, n: int) -> bool {
    exists|p: int| 0 <= p < code.len() && code[p] == Asm::Label(k, n as usize)
}

proof fn lemma_compare_labels(diff: crate::listing::Op, jump: crate::listing::Op, n: usize)
    ensures
        labels_unique(compare_code(diff, jump, n)),
        labels_within(compare_code(diff, jump, n), n as int, n as int),
        labels_cover(compare_code(diff, jump, n), n as int, n as int),
{
    let code = compare_code(diff, jump, n);
    assert(labels_within(code, n as int, n as int));
    assert(labels_unique(code));
    assert forall|m: int, k: LabelKind| n <= m <= n implies #[trigger] declares(code, k, m) by {
        match k {
            LabelKind::False => assert(code[18] == Asm::Label(k, m as usize)),
            LabelKind::True => assert(code[23] == Asm::Label(k, m as usize)),
            LabelKind::Join => assert(code[26] == Asm::Label(k, m as usize)),
        }
    }
}

proof fn lemma_instruction_labels(toks: Seq<Seq<char>>, c: nat)
    requires
        c < usize::MAX,
    ensures
        labels_unique(instruction_code(toks, c)),
        labels_within(instruction_code(toks, c), (c + 1) as int, counter_after(toks, c) as int),
        labels_cover(instruction_code(toks, c), (c + 1) as int, counter_after(toks, c) as int),
        counter_after(toks, c) == c || counter_after(toks, c) == c + 1,
{
    let code = instruction_code(toks, c);
    if toks.len() == 1 && operator_named(toks[0]) is Some && is_comparison(
        operator_named(toks[0])->Some_0,
    ) {
        let n = (c + 1) as usize;
        match operator_named(toks[0])->Some_0 {
            crate::codegen::ArithOp::Eq => lemma_compare_labels(crate::listing::Op::DIsMMinusD, crate::listing::Op::JumpIfZero, n),
            crate::codegen::ArithOp::Gt => lemma_compare_labels(crate::listing::Op::DIsDMinusM, crate::listing::Op::JumpIfPositive, n),
            _ => lemma_compare_labels(crate::listing::Op::DIsDMinusM, crate::listing::Op::JumpIfNegative, n),
        }
    } else {
        assert(counter_after(toks, c) == c);
        assert forall|p: int| 0 <= p < code.len() implies !(#[trigger] code[p] is Label) by {}
    }
}

proof fn lemma_concat_labels(x: Seq<Asm>, y: Seq<Asm>, lo: int, mid: int, hi: int)
    requires
        lo <= mid + 1,
        mid <= hi,
        labels_unique(x),
        labels_unique(y),
        labels_within(x, lo, mid),
        labels_within(y, mid + 1, hi),
        labels_cover(x, lo, mid),
        labels_cover(y, mid + 1, hi),
    ensures
        labels_unique(x + y),
        labels_within(x + y, lo, hi),
        labels_cover(x + y, lo, hi),
{
    let z = x + y;
    assert forall|p: int, q: int|
        0 <= p < q < z.len() && (#[trigger] z[p]) is Label && (#[trigger] z[q]) is Label implies z[p]
        != z[q] by {
        if q < x.len() {
            assert(z[p] == x[p] && z[q] == x[q]);
        } else if p >= x.len() {
            assert(z[p] == y[p - x.len()] && z[q] == y[q - x.len()]);
        } else {
            assert(z[p] == x[p] && z[q] == y[q - x.len()]);
            assert(label_num(x[p]) <= mid);
            assert(label_num(y[q - x.len()]) >= mid + 1);
        }
    }
    assert forall|p: int| 0 <= p < z.len() && (#[trigger] z[p]) is Label implies lo <= label_num(z[p])
        <= hi by {
        if p < x.len() {
            assert(z[p] == x[p]);
            assert(lo <= label_num(x[p]) <= mid);
        } else {
            assert(z[p] == y[p - x.len()]);
            assert(mid + 1 <= label_num(y[p - x.len()]) <= hi);
        }
    }
    assert forall|n: int, k: LabelKind| lo <= n <= hi implies #[trigger] declares(z, k, n) by {
        if n <= mid {
            assert(declares(x, k, n));
            let p = choose|p: int| 0 <= p < x.len() && x[p] == Asm::Label(k, n as usize);
            assert(z[p] == x[p]);
        } else {
            assert(declares(y, k, n));
            let p = choose|p: int| 0 <= p < y.len() && y[p] == Asm::Label(k, n as usize);
            assert(z[p + x.len()] == y[p]);
        }
    }
}

proof fn lemma_listing_labels(ls: Seq<Seq<char>>, c: nat)
    requires
        c + comparisons(ls) < usize::MAX,
    ensures
        labels_unique(listing_from(ls, c)),
        labels_within(listing_from(ls, c), (c + 1) as int, (c + comparisons(ls)) as int),
        labels_cover(listing_from(ls, c), (c + 1) as int, (c + comparisons(ls)) as int),
    decreases ls.len(),
{
    let code = listing_from(ls, c);
    if ls.len() == 0 {
        assert(code.len() == 0);
        assert forall|n: int, k: LabelKind| c + 1 <= n <= (c + comparisons(ls)) as int implies #[trigger] declares(
            code,
            k,
            n,
        ) by {}
    } else {
        let rest = ls.drop_first();
        if !is_instruction_line(ls[0]) {
            lemma_listing_labels(rest, c);
        } else {
            let toks = tokens(ls[0]);
            let c1 = counter_after(toks, c);
            lemma_instruction_labels(toks, c);
            assert(c1 == c + (if is_comparison_line(ls[0]) {
                1nat
            } else {
                0
            }));
            lemma_listing_labels(rest, c1);
            lemma_concat_labels(
                instruction_code(toks, c),
                listing_from(rest, c1),
                (c + 1) as int,
                c1 as int,
                (c + comparisons(ls)) as int,
            );
        }
    }
}

/// No label is declared twice in the code of a whole program, and the labels
/// form exactly one group of three per comparison: the k-th comparison
/// numbers its labels k, and every number from 1 to the number of
/// comparisons is declared in each of the three kinds.
pub proof fn comparison_labels_unique(program: Seq<char>)
    requires
        comparisons(crate::text::lines(program)) < usize::MAX,
    ensures
        labels_unique(listing_from(crate::text::lines(program), 0)),
        labels_within(
            listing_from(crate::text::lines(program), 0),
            1,
            comparisons(crate::text::lines(program)) as int,
        ),
        labels_cover(
            listing_from(crate::text::lines(program), 0),
            1,
            comparisons(crate::text::lines(program)) as int,
        ),
{
    lemma_listing_labels(crate::text::lines(program), 0);
}

/// The comment line that heads an instruction's text.
pub open spec fn instruction_comment(toks: Seq<Seq<char>>) -> Seq<char> {
    if toks.len() == 3 {
        if toks[0] == "push"@ {
            push_comment(toks[1], index_value(toks[2]))
        } else {
            pop_comment(toks[1], index_value(toks[2]))
        }
    } else if toks.len() == 1 {
        arith_comment(toks[0])
    } else {
        seq![]
    }
}

proof fn lemma_render_without_statics(code: Seq<Asm>, m1: Seq<char>, m2: Seq<char>)
    requires
        forall|j: int| 0 <= j < code.len() ==> !((#[trigger] code[j]) is AtStatic),
    ensures
        render(code, m1) == render(code, m2),
    decreases code.len(),
{
    if code.len() > 0 {
        assert(!(code[code.len() - 1] is AtStatic));
        lemma_render_without_statics(code.drop_last(), m1, m2);
    }
}

/// The text of an instruction that translates is its comment followed by its
/// code, and the label counter moves past it as the code listing says.
pub proof fn instruction_text_is_code(toks: Seq<Seq<char>>, module: Seq<char>, counter: nat)
    requires
        instruction_step(toks, module, counter) is Ok,
    ensures
        instruction_step(toks, module, counter)->Ok_0.0 == instruction_comment(toks) + render(
            instruction_code(toks, counter),
            module,
        ),
        instruction_step(toks, module, counter)->Ok_0.1 == counter_after(toks, counter),
{
    if toks.len() == 3 {
        if segment_named(toks[1]) is None {
            assert(render(seq![], module) =~= seq![]);
            assert(instruction_comment(toks) + seq![] =~= instruction_comment(toks));
        } else {
            let s = segment_named(toks[1])->Some_0;
            if s == crate::codegen::Segment::Constant && toks[0] != "push"@ {
                assert(instruction_comment(toks) + seq![] =~= instruction_comment(toks));
            }
        }
    } else if toks.len() == 1 {
        let o = operator_named(toks[0])->Some_0;
        let code = arith_code(o, next_counter(toks[0], counter) as usize);
        assert forall|j: int| 0 <= j < code.len() implies !((#[trigger] code[j]) is AtStatic) by {}
        lemma_render_without_statics(code, seq![], module);
    } else {
        assert(render(seq![], module) =~= seq![]);
    }
}

/// Two outcomes that agree but for the line number of an error.
pub open spec fn same_outcome(r1: Result<Seq<char>, TranslateError>, r2: Result<Seq<char>, TranslateError>) -> bool {
    match (r1, r2) {
        (Ok(t1), Ok(t2)) => t1 == t2,
        (Err(e1), Err(e2)) => e1.kind == e2.kind,
        _ => false,
    }
}

proof fn lemma_line_numbers_only_name(ls: Seq<Seq<char>>, module: Seq<char>, n1: nat, n2: nat, c: nat)
    ensures
        same_outcome(translate_from(ls, module, n1, c), translate_from(ls, module, n2, c)),
    decreases ls.len(),
{
    if ls.len() > 0 {
        let rest = ls.drop_first();
        if !is_instruction_line(ls[0]) {
            lemma_line_numbers_only_name(rest, module, n1 + 1, n2 + 1, c);
        } else {
            match instruction_step(tokens(ls[0]), module, c) {
                Ok((t, n)) => lemma_line_numbers_only_name(rest, module, n1 + 1, n2 + 1, n),
                Err(_) => {},
            }
        }
    }
}

proof fn lemma_same_outcome_prefixed(p: Seq<char>, r1: Result<Seq<char>, TranslateError>, r2: Result<Seq<char>, TranslateError>)
    requires
        same_outcome(r1, r2),
    ensures
        same_outcome(crate::codegen::prefixed(p, r1), crate::codegen::prefixed(p, r2)),
{
}

proof fn lemma_insert_filtered(ls: Seq<Seq<char>>, k: int, l: Seq<char>, module: Seq<char>, n: nat, c: nat)
    requires
        0 <= k <= ls.len(),
        !is_instruction_line(l),
    ensures
        same_outcome(translate_from(ls.insert(k, l), module, n, c), translate_from(ls, module, n, c)),
    decreases k,
{
    let longer = ls.insert(k, l);
    if k == 0 {
        assert(longer[0] == l);
        assert(longer.drop_first() =~= ls);
        lemma_line_numbers_only_name(ls, module, n + 1, n, c);
    } else {
        let rest = ls.drop_first();
        assert(longer[0] == ls[0]);
        assert(longer.drop_first() =~= rest.insert(k - 1, l));
        if !is_instruction_line(ls[0]) {
            lemma_insert_filtered(rest, k - 1, l, module, n + 1, c);
        } else {
            match instruction_step(tokens(ls[0]), module, c) {
                Ok((t, m)) => {
                    lemma_insert_filtered(rest, k - 1, l, module, n + 1, m);
                    lemma_same_outcome_prefixed(
                        t,
                        translate_from(rest.insert(k - 1, l), module, n + 1, m),
                        translate_from(rest, module, n + 1, m),
                    );
                },
                Err(_) => {},
            }
        }
    }
}

/// A comment line or an empty line adds nothing to a program's translation,
/// wherever it stands: the text is the same, and so is the kind of error of a
/// program that fails.
pub proof fn filtered_line_adds_nothing(ls: Seq<Seq<char>>, k: int, l: Seq<char>, module: Seq<char>)
    requires
        0 <= k <= ls.len(),
        !is_instruction_line(l),
    ensures
        same_outcome(translate_from(ls.insert(k, l), module, 1, 0), translate_from(ls, module, 1, 0)),
{
    lemma_insert_filtered(ls, k, l, module, 1, 0);
}

proof fn lemma_lines_from_concat(a: Seq<char>, b: Seq<char>, cur: Seq<char>)
    requires
        a.len() > 0,
        a.last() == '\n',
    ensures
        lines_from(a + b, cur) == lines_from(a, cur) + lines(b),
    decreases a.len(),
{
    assert((a + b)[0] == a[0]);
    assert((a + b).drop_first() =~= a.drop_first() + b);
    if a[0] == '\n' {
        if a.len() == 1 {
            assert(a.drop_first() + b =~= b);
            assert(a.drop_first().len() == 0);
        } else {
            lemma_lines_from_concat(a.drop_first(), b, seq![]);
        }
        assert(lines_from(a + b, cur) =~= lines_from(a, cur) + lines(b));
    } else {
        lemma_lines_from_concat(a.drop_first(), b, cur.push(a[0]));
    }
}

/// Lines split apart at a line boundary.
proof fn lemma_lines_concat(a: Seq<char>, b: Seq<char>)
    requires
        a.len() == 0 || a.last() == '\n',
    ensures
        lines(a + b) == lines(a) + lines(b),
{
    if a.len() == 0 {
        assert(a + b =~= b);
        assert(lines(a) + lines(b) =~= lines(b));
    } else {
        lemma_lines_from_concat(a, b, seq![]);
    }
}

proof fn lemma_one_line(l: Seq<char>, cur: Seq<char>)
    requires
        forall|j: int| 0 <= j < l.len() ==> #[trigger] l[j] != '\n',
    ensures
        lines_from(l.push('\n'), cur) == seq![strip_cr(cur + l)],
    decreases l.len(),
{
    if l.len() == 0 {
        assert(l.push('\n').drop_first().len() == 0);
        assert(l.push('\n')[0] == '\n');
        let e: Seq<char> = seq![];
        assert(l.push('\n').drop_first() =~= e);
        assert(lines_from(e, e) =~= Seq::<Seq<char>>::empty());
        assert(cur + l =~= cur);
        assert(lines_from(l.push('\n'), cur) =~= seq![strip_cr(cur + l)]);
    } else {
        assert(l.push('\n')[0] == l[0]);
        assert(l.push('\n').drop_first() =~= l.drop_first().push('\n'));
        assert(l[0] != '\n');
        assert forall|j: int| 0 <= j < l.drop_first().len() implies #[trigger] l.drop_first()[j] != '\n' by {
            assert(l.drop_first()[j] == l[j + 1]);
        }
        lemma_one_line(l.drop_first(), cur.push(l[0]));
        assert(cur.push(l[0]) + l.drop_first() =~= cur + l);
    }
}

/// A comment line or an empty line, with its line break, adds nothing to the
/// translation of a program, wherever it stands between lines: the text is
/// the same, and so is the kind of error of a program that fails (whose line
/// number moves past the added line).
pub proof fn comment_line_adds_nothing(before: Seq<char>, l: Seq<char>, after: Seq<char>, module: Seq<char>)
    requires
        before.len() == 0 || before.last() == '\n',
        forall|j: int| 0 <= j < l.len() ==> #[trigger] l[j] != '\n',
        !is_instruction_line(l),
    ensures
        same_outcome(
            crate::codegen::translation(before + l.push('\n') + after, module),
            crate::codegen::translation(before + after, module),
        ),
{
    let mid = l.push('\n');
    lemma_one_line(l, seq![]);
    assert(seq![] + l =~= l);
    let sl = strip_cr(l);
    assert(!is_instruction_line(sl)) by {
        if sl.len() > 0 && sl != l {
            assert(sl[0] == l[0] && l.len() >= 2);
            assert(sl.len() >= 2 ==> sl[1] == l[1]);
        }
    }
    lemma_lines_concat(before, mid + after);
    lemma_lines_concat(mid, after);
    assert(before + mid + after =~= before + (mid + after));
    lemma_lines_concat(before, after);
    let k = lines(before).len() as int;
    assert(lines(before) + (seq![sl] + lines(after)) =~= (lines(before) + lines(after)).insert(k, sl));
    filtered_line_adds_nothing(lines(before) + lines(after), k, sl, module);
}

/// The text of lines `ls`: for each instruction, its comment and then its
/// code, rendered, one instruction after the other as `listing_from` lays
/// out the code.
pub open spec fn program_text(ls: Seq<Seq<char>>, module: Seq<char>, counter: nat) -> Seq<char>
    decreases ls.len(),
{
    if ls.len() == 0 {
        seq![]
    } else if !is_instruction_line(ls[0]) {
        program_text(ls.drop_first(), module, counter)
    } else {
        let toks = tokens(ls[0]);
        instruction_comment(toks) + render(instruction_code(toks, counter), module) + program_text(
            ls.drop_first(),
            module,
            counter_after(toks, counter),
        )
    }
}

proof fn lemma_text_from(ls: Seq<Seq<char>>, module: Seq<char>, n: nat, c: nat)
    requires
        translate_from(ls, module, n, c) is Ok,
    ensures
        translate_from(ls, module, n, c)->Ok_0 == program_text(ls, module, c),
    decreases ls.len(),
{
    if ls.len() > 0 {
        let rest = ls.drop_first();
        if !is_instruction_line(ls[0]) {
            lemma_text_from(rest, module, n + 1, c);
        } else {
            let toks = tokens(ls[0]);
            instruction_text_is_code(toks, module, c);
            lemma_text_from(rest, module, n + 1, counter_after(toks, c));
        }
    }
}

/// The whole text of a program that translates is its code listing, each
/// instruction's code rendered after its comment; so the labels that
/// `comparison_labels_unique` counts in the listing are those of the text.
pub proof fn output_is_listing(program: Seq<char>, module: Seq<char>)
    requires
        crate::codegen::translation(program, module) is Ok,
    ensures
        crate::codegen::translation(program, module)->Ok_0 == program_text(
            crate::text::lines(program),
            module,
            0,
        ),
{
    lemma_text_from(crate::text::lines(program), module, 1, 0);
}

} // verus!
