//! The target: lines of RISC-V assembly that compute in the single register
//! `a0`, what they look like as text, and what they do when run.

use vstd::prelude::*;
use vstd::string::*;
use crate::numeral::{decimal, push_decimal};

verus! {

/// One line of assembly.
#[derive(Debug, PartialEq, Eq)]
pub enum AsmLine {
    /// `.text`: what follows is code.
    Text,
    /// `.global main`: the entry point is visible to the linker.
    GlobalMain,
    /// `name:`, the start of a function.
    Label(String),
    /// `li a0, n`: `a0` becomes `n`.
    LoadImm(i32),
    /// `sub a0, x0, a0`: `a0` becomes zero minus `a0`.
    SubFromZero,
    /// `seqz a0, a0`: `a0` becomes 1 if it was zero, else 0.
    SetEqZero,
    /// `ret`: the function returns what `a0` holds.
    Ret,
}

/// A line of assembly as a mathematical value.
pub enum LineView {
    Text,
    GlobalMain,
    Label(Seq<char>),
    LoadImm(i32),
    SubFromZero,
    SetEqZero,
    Ret,
}

impl View for AsmLine {
    type V = LineView;

    open spec fn view(&self) -> LineView {
        match self {
            AsmLine::Text => LineView::Text,
            AsmLine::GlobalMain => LineView::GlobalMain,
            AsmLine::Label(name) => LineView::Label(name@),
            AsmLine::LoadImm(n) => LineView::LoadImm(*n),
            AsmLine::SubFromZero => LineView::SubFromZero,
            AsmLine::SetEqZero => LineView::SetEqZero,
            AsmLine::Ret => LineView::Ret,
        }
    }
}

impl DeepView for AsmLine {
    type V = LineView;

    open spec fn deep_view(&self) -> LineView {
        self@
    }
}

impl LineView {
    /// The line as it is written, without the line break.
    pub open spec fn text(self) -> Seq<char> {
        match self {
            LineView::Text => "\t.text"@,
            LineView::GlobalMain => "\t.global main"@,
            LineView::Label(name) => name + ":"@,
            LineView::LoadImm(n) => "\tli a0, "@ + decimal(n as int),
            LineView::SubFromZero => "\tsub a0, x0, a0"@,
            LineView::SetEqZero => "\tseqz a0, a0"@,
            LineView::Ret => "\tret"@,
        }
    }

    /// What `a0` holds after the line, if it held `a0` before. A directive or
    /// a label changes nothing; so does `ret`, after which nothing runs.
    pub open spec fn step(self, a0: i32) -> i32 {
        match self {
            LineView::LoadImm(n) => n,
            LineView::SubFromZero => if a0 == i32::MIN {
                a0
            } else {
                (0 - a0) as i32
            },
            LineView::SetEqZero => if a0 == 0 {
                1i32
            } else {
                0i32
            },
            _ => a0,
        }
    }
}

/// The text of a listing: each line followed by a line break.
pub open spec fn listing(lines: Seq<LineView>) -> Seq<char>
    decreases lines.len(),
{
    if lines.len() == 0 {
        Seq::empty()
    } else {
        listing(lines.drop_last()) + lines.last().text() + "\n"@
    }
}

/// How a run of straight-line code ends.
#[derive(Debug, Clone, Copy, PartialEq, Eq)]
pub enum Outcome {
    /// A `ret` was reached with this value in `a0`.
    Returned(i32),
    /// The code ran off its end with this value in `a0`.
    Running(i32),
}

/// What running `code` from its first line does, with `a0` in the register at
/// the start.
pub open spec fn run(code: Seq<LineView>, a0: i32) -> Outcome
    decreases code.len(),
{
    if code.len() == 0 {
        Outcome::Running(a0)
    } else if code[0] is Ret {
        Outcome::Returned(a0)
    } else {
        run(code.drop_first(), code[0].step(a0))
    }
}

/// The place of the first label `name` in `code` at or after `from`.
pub open spec fn find_label(code: Seq<LineView>, name: Seq<char>, from: int) -> Option<int>
    decreases code.len() - from,
{
    if from < 0 || from >= code.len() {
        None
    } else if code[from] == LineView::Label(name) {
        Some(from)
    } else {
        find_label(code, name, from + 1)
    }
}

/// What a call of the function labelled `name` returns: the code is run from
/// the first such label with 0 in `a0`. There is no result where no line
/// carries the label or the code runs off its end.
pub open spec fn call_result(code: Seq<LineView>, name: Seq<char>) -> Option<i32> {
    match find_label(code, name, 0) {
        None => None,
        Some(at) => match run(code.skip(at), 0) {
            Outcome::Returned(r) => Some(r),
            Outcome::Running(_) => None,
        },
    }
}

/// Running two pieces of code in a row: the second runs only if the first
/// did not return, and starts with what the first left in `a0`.
pub proof fn lemma_run_concat(first: Seq<LineView>, second: Seq<LineView>, a0: i32)
    ensures
        run(first + second, a0) == match run(first, a0) {
            Outcome::Returned(r) => Outcome::Returned(r),
            Outcome::Running(a) => run(second, a),
        },
    decreases first.len(),
{
    if first.len() == 0 {
        assert(first + second =~= second);
    } else {
        assert((first + second)[0] == first[0]);
        assert((first + second).drop_first() =~= first.drop_first() + second);
        if !(first[0] is Ret) {
            lemma_run_concat(first.drop_first(), second, first[0].step(a0));
        }
    }
}

/// Running a single line: a `ret` returns what `a0` holds, any other line
/// leaves its effect in `a0`.
pub proof fn lemma_run_single(line: LineView, a0: i32)
    ensures
        run(seq![line], a0) == if line is Ret {
            Outcome::Returned(a0)
        } else {
            Outcome::Running(line.step(a0))
        },
{
    reveal_with_fuel(run, 2);
    assert(seq![line].drop_first().len() == 0);
}

impl AsmLine {
    /// The line as it is written, without the line break.
    pub fn render(&self) -> (s: String)
        ensures
            s@ == self@.text(),
    {
        match self {
            AsmLine::Text => String::from_str("\t.text"),
            AsmLine::GlobalMain => String::from_str("\t.global main"),
            AsmLine::Label(name) => {
                let mut s = name.clone();
                s.append(":");
                s
            },
            AsmLine::LoadImm(n) => {
                let mut s = String::from_str("\tli a0, ");
                push_decimal(&mut s, *n);
                s
            },
            AsmLine::SubFromZero => String::from_str("\tsub a0, x0, a0"),
            AsmLine::SetEqZero => String::from_str("\tseqz a0, a0"),
            AsmLine::Ret => String::from_str("\tret"),
        }
    }
}

/// The text of a listing: each line followed by a line break.
pub fn render_lines(lines: &Vec<AsmLine>) -> (text: String)
    ensures
        text@ == listing(lines.deep_view()),
{
    let mut text = String::new();
    let mut i: usize = 0;
    while i < lines.len()
        invariant
            i <= lines.len(),
            text@ == listing(lines.deep_view().take(i as int)),
        decreases lines.len() - i,
    {
        let line = lines[i].render();
        text.append(line.as_str());
        text.append("\n");
        proof {
            let all = lines.deep_view();
            assert(all.take(i + 1).drop_last() =~= all.take(i as int));
            assert(all.take(i + 1).last() == lines@[i as int]@);
            assert(text@ =~= listing(all.take(i as int)) + lines@[i as int]@.text() + "\n"@);
        }
        i += 1;
    }
    assert(lines.deep_view().take(i as int) =~= lines.deep_view());
    text
}

/// Runs `code` from line `start` with `a0` in the register.
pub fn execute(code: &Vec<AsmLine>, start: usize, a0: i32) -> (end: Outcome)
    requires
        start <= code.len(),
    ensures
        end == run(code.deep_view().skip(start as int), a0),
{
    let mut pc: usize = start;
    let mut reg: i32 = a0;
    while pc < code.len()
        invariant
            start <= pc <= code.len(),
            run(code.deep_view().skip(start as int), a0) == run(
                code.deep_view().skip(pc as int),
                reg,
            ),
        decreases code.len() - pc,
    {
        proof {
            let rest = code.deep_view().skip(pc as int);
            assert(rest[0] == code@[pc as int]@);
            assert(rest.drop_first() =~= code.deep_view().skip(pc + 1));
        }
        match &code[pc] {
            AsmLine::Ret => {
                return Outcome::Returned(reg);
            },
            AsmLine::LoadImm(n) => {
                reg = *n;
            },
            AsmLine::SubFromZero => {
                reg = if reg == i32::MIN {
                    reg
                } else {
                    0 - reg
                };
            },
            AsmLine::SetEqZero => {
                reg = if reg == 0 {
                    1
                } else {
                    0
                };
            },
            _ => {},
        }
        pc += 1;
    }
    Outcome::Running(reg)
}

/// Calls the function labelled `name`: runs the code from the first such
/// label with 0 in `a0` and hands back what it returns.
pub fn call(code: &Vec<AsmLine>, name: &str) -> (result: Option<i32>)
    ensures
        result == call_result(code.deep_view(), name@),
{
    let wanted = String::from_str(name);
    let mut at: usize = 0;
    while at < code.len()
        invariant
            at <= code.len(),
            wanted@ == name@,
            find_label(code.deep_view(), name@, 0) == find_label(
                code.deep_view(),
                name@,
                at as int,
            ),
        decreases code.len() - at,
    {
        assert(code.deep_view()[at as int] == code@[at as int]@);
        let found = match &code[at] {
            AsmLine::Label(label) => *label == wanted,
            _ => false,
        };
        if found {
            return match execute(code, at, 0) {
                Outcome::Returned(r) => Some(r),
                Outcome::Running(_) => None,
            };
        }
        at += 1;
    }
    None
}

} // verus!
