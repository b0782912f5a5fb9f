//! The instruction-level representation: real x86-64 instructions, the pseudo
//! instructions that stand in for them before homes are assigned and conditionals are
//! lowered, and the containers that hold them.

use vstd::prelude::*;
use crate::ast::CC;
use crate::names::Name;
use crate::seqs::{empty_deep, lemma_deep_view_index, lemma_take_all, lemma_take_push, push_deep};

verus! {

/// A general-purpose register.
#[derive(Clone, Copy, Debug, PartialEq, Eq, Structural)]
pub enum Reg {
    RAX,
    RBX,
    RBP,
    RCX,
    RDX,
    RDI,
    RSI,
    R8,
    R9,
    R10,
    R11,
    R12,
    R13,
    R14,
    R15,
}

/// An operand.
#[derive(Debug, PartialEq)]
pub enum X86Arg {
    Reg(Reg),
    Imm(i32),
    /// The memory cell at a register plus a displacement.
    RegOffset(Reg, i32),
    /// A variable that has no home yet.
    Var(String),
}

/// The view of an operand.
pub enum ArgView {
    Reg(Reg),
    Imm(i32),
    RegOffset(Reg, i32),
    Var(Name),
}

impl DeepView for X86Arg {
    type V = ArgView;

    open spec fn deep_view(&self) -> ArgView {
        match self {
            X86Arg::Reg(r) => ArgView::Reg(*r),
            X86Arg::Imm(n) => ArgView::Imm(*n),
            X86Arg::RegOffset(r, d) => ArgView::RegOffset(*r, *d),
            X86Arg::Var(name) => ArgView::Var(name@),
        }
    }
}

impl View for X86Arg {
    type V = ArgView;

    open spec fn view(&self) -> ArgView {
        self.deep_view()
    }
}

impl Clone for X86Arg {
    fn clone(&self) -> (copy: Self)
        ensures
            copy@ == self@,
    {
        match self {
            X86Arg::Reg(r) => X86Arg::Reg(*r),
            X86Arg::Imm(n) => X86Arg::Imm(*n),
            X86Arg::RegOffset(r, d) => X86Arg::RegOffset(*r, *d),
            X86Arg::Var(name) => X86Arg::Var(name.clone()),
        }
    }
}

/// An instruction or a container of instructions.
#[derive(Debug, PartialEq)]
pub enum X86 {
    Mov(X86Arg, X86Arg),
    Add(X86Arg, X86Arg),
    Cmp(X86Arg, X86Arg),
    /// The equality test of a structured conditional.
    EqP(X86Arg, X86Arg),
    /// Condition, then-branch, else-branch.
    If(Box<X86>, Vec<X86>, Vec<X86>),
    /// A structured conditional whose branches carry their live-after sets.
    IfWithLives(Box<X86>, Vec<X86>, Vec<Vec<String>>, Vec<X86>, Vec<Vec<String>>),
    /// Name, variables, instructions.
    Define(String, Vec<String>, Vec<X86>),
    /// Name, variables, live-after sets, instructions.
    DefineWithLives(String, Vec<String>, Vec<Vec<String>>, Vec<X86>),
    /// Definitions, main instructions, main variables.
    Prog(Vec<X86>, Vec<X86>, Vec<String>),
    /// Definitions, main instructions, main variables, live-after sets.
    ProgWithLives(Vec<X86>, Vec<X86>, Vec<String>, Vec<Vec<String>>),
    Call(String),
    JmpIf(CC, String),
    Jmp(String),
    Label(String),
}

/// The view of an [`X86`].
pub enum X86View {
    Mov(ArgView, ArgView),
    Add(ArgView, ArgView),
    Cmp(ArgView, ArgView),
    EqP(ArgView, ArgView),
    If(Box<X86View>, Seq<X86View>, Seq<X86View>),
    IfWithLives(Box<X86View>, Seq<X86View>, Seq<Seq<Name>>, Seq<X86View>, Seq<Seq<Name>>),
    Define(Name, Seq<Name>, Seq<X86View>),
    DefineWithLives(Name, Seq<Name>, Seq<Seq<Name>>, Seq<X86View>),
    Prog(Seq<X86View>, Seq<X86View>, Seq<Name>),
    ProgWithLives(Seq<X86View>, Seq<X86View>, Seq<Name>, Seq<Seq<Name>>),
    Call(Name),
    JmpIf(CC, Name),
    Jmp(Name),
    Label(Name),
}

/// The views of the elements of a vector of instructions.
pub open spec fn x86_views(v: &Vec<X86>) -> Seq<X86View>
    decreases v, 1nat,
{
    Seq::new(
        v.len() as nat,
        |i: int|
            if 0 <= i < v.len() {
                x86_view(&v[i])
            } else {
                X86View::Call(Seq::empty())
            },
    )
}

/// The view of an instruction, defined by recursion on it.
pub open spec fn x86_view(x: &X86) -> X86View
    decreases x, 0nat,
{
    match x {
        X86::Mov(dst, src) => X86View::Mov(dst@, src@),
        X86::Add(dst, src) => X86View::Add(dst@, src@),
        X86::Cmp(left, right) => X86View::Cmp(left@, right@),
        X86::EqP(left, right) => X86View::EqP(left@, right@),
        X86::If(cnd, thn, els) => X86View::If(
            Box::new(x86_view(cnd)),
            x86_views(thn),
            x86_views(els),
        ),
        X86::IfWithLives(cnd, thn, thn_lives, els, els_lives) => X86View::IfWithLives(
            Box::new(x86_view(cnd)),
            x86_views(thn),
            thn_lives.deep_view(),
            x86_views(els),
            els_lives.deep_view(),
        ),
        X86::Define(name, vars, instrs) => X86View::Define(
            name@,
            vars.deep_view(),
            x86_views(instrs),
        ),
        X86::DefineWithLives(name, vars, lives, instrs) => X86View::DefineWithLives(
            name@,
            vars.deep_view(),
            lives.deep_view(),
            x86_views(instrs),
        ),
        X86::Prog(defs, instrs, vars) => X86View::Prog(
            x86_views(defs),
            x86_views(instrs),
            vars.deep_view(),
        ),
        X86::ProgWithLives(defs, instrs, vars, lives) => X86View::ProgWithLives(
            x86_views(defs),
            x86_views(instrs),
            vars.deep_view(),
            lives.deep_view(),
        ),
        X86::Call(label) => X86View::Call(label@),
        X86::JmpIf(cc, label) => X86View::JmpIf(*cc, label@),
        X86::Jmp(label) => X86View::Jmp(label@),
        X86::Label(label) => X86View::Label(label@),
    }
}

impl DeepView for X86 {
    type V = X86View;

    open spec fn deep_view(&self) -> X86View {
        x86_view(self)
    }
}

impl View for X86 {
    type V = X86View;

    open spec fn view(&self) -> X86View {
        x86_view(self)
    }
}

/// The two ways of viewing a vector of instructions agree.
pub proof fn lemma_x86_views(v: &Vec<X86>)
    ensures
        x86_views(v) == v.deep_view(),
{
    assert(x86_views(v) =~= v.deep_view());
}

/// The view of an instruction, written over the deep views of its parts.
pub proof fn lemma_x86_view(x: &X86)
    ensures
        x matches X86::Mov(dst, src) ==> x@ == X86View::Mov(dst@, src@),
        x matches X86::Add(dst, src) ==> x@ == X86View::Add(dst@, src@),
        x matches X86::Cmp(left, right) ==> x@ == X86View::Cmp(left@, right@),
        x matches X86::EqP(left, right) ==> x@ == X86View::EqP(left@, right@),
        x matches X86::If(cnd, thn, els) ==> x@ == X86View::If(
            Box::new(cnd@),
            thn.deep_view(),
            els.deep_view(),
        ),
        x matches X86::IfWithLives(cnd, thn, thn_lives, els, els_lives) ==> x@
            == X86View::IfWithLives(
            Box::new(cnd@),
            thn.deep_view(),
            thn_lives.deep_view(),
            els.deep_view(),
            els_lives.deep_view(),
        ),
        x matches X86::Define(name, vars, instrs) ==> x@ == X86View::Define(
            name@,
            vars.deep_view(),
            instrs.deep_view(),
        ),
        x matches X86::DefineWithLives(name, vars, lives, instrs) ==> x@
            == X86View::DefineWithLives(
            name@,
            vars.deep_view(),
            lives.deep_view(),
            instrs.deep_view(),
        ),
        x matches X86::Prog(defs, instrs, vars) ==> x@ == X86View::Prog(
            defs.deep_view(),
            instrs.deep_view(),
            vars.deep_view(),
        ),
        x matches X86::ProgWithLives(defs, instrs, vars, lives) ==> x@ == X86View::ProgWithLives(
            defs.deep_view(),
            instrs.deep_view(),
            vars.deep_view(),
            lives.deep_view(),
        ),
        x matches X86::Call(label) ==> x@ == X86View::Call(label@),
        x matches X86::JmpIf(cc, label) ==> x@ == X86View::JmpIf(*cc, label@),
        x matches X86::Jmp(label) ==> x@ == X86View::Jmp(label@),
        x matches X86::Label(label) ==> x@ == X86View::Label(label@),
{
    match x {
        X86::If(_, thn, els) => {
            lemma_x86_views(thn);
            lemma_x86_views(els);
        },
        X86::IfWithLives(_, thn, _, els, _) => {
            lemma_x86_views(thn);
            lemma_x86_views(els);
        },
        X86::Define(_, _, instrs) => {
            lemma_x86_views(instrs);
        },
        X86::DefineWithLives(_, _, _, instrs) => {
            lemma_x86_views(instrs);
        },
        X86::Prog(defs, instrs, _) => {
            lemma_x86_views(defs);
            lemma_x86_views(instrs);
        },
        X86::ProgWithLives(defs, instrs, _, _) => {
            lemma_x86_views(defs);
            lemma_x86_views(instrs);
        },
        _ => {},
    }
}

impl X86 {
    /// The structured conditional.
    pub fn branch(cnd: X86, thn: Vec<X86>, els: Vec<X86>) -> (x: X86)
        ensures
            x@ == X86View::If(Box::new(cnd@), thn.deep_view(), els.deep_view()),
    {
        let x = X86::If(Box::new(cnd), thn, els);
        proof {
            lemma_x86_view(&x);
        }
        x
    }

    /// The structured conditional with the live-after sets of its branches.
    pub fn branch_with_lives(
        cnd: X86,
        thn: Vec<X86>,
        thn_lives: Vec<Vec<String>>,
        els: Vec<X86>,
        els_lives: Vec<Vec<String>>,
    ) -> (x: X86)
        ensures
            x@ == X86View::IfWithLives(
                Box::new(cnd@),
                thn.deep_view(),
                thn_lives.deep_view(),
                els.deep_view(),
                els_lives.deep_view(),
            ),
    {
        let x = X86::IfWithLives(Box::new(cnd), thn, thn_lives, els, els_lives);
        proof {
            lemma_x86_view(&x);
        }
        x
    }

    /// The definition of a function.
    pub fn define(name: String, vars: Vec<String>, instrs: Vec<X86>) -> (x: X86)
        ensures
            x@ == X86View::Define(name@, vars.deep_view(), instrs.deep_view()),
    {
        let x = X86::Define(name, vars, instrs);
        proof {
            lemma_x86_view(&x);
        }
        x
    }

    /// The definition of a function with its live-after sets.
    pub fn define_with_lives(
        name: String,
        vars: Vec<String>,
        lives: Vec<Vec<String>>,
        instrs: Vec<X86>,
    ) -> (x: X86)
        ensures
            x@ == X86View::DefineWithLives(
                name@,
                vars.deep_view(),
                lives.deep_view(),
                instrs.deep_view(),
            ),
    {
        let x = X86::DefineWithLives(name, vars, lives, instrs);
        proof {
            lemma_x86_view(&x);
        }
        x
    }

    /// The program.
    pub fn prog(defs: Vec<X86>, instrs: Vec<X86>, vars: Vec<String>) -> (x: X86)
        ensures
            x@ == X86View::Prog(defs.deep_view(), instrs.deep_view(), vars.deep_view()),
    {
        let x = X86::Prog(defs, instrs, vars);
        proof {
            lemma_x86_view(&x);
        }
        x
    }

    /// The program with the live-after sets of its main body.
    pub fn prog_with_lives(
        defs: Vec<X86>,
        instrs: Vec<X86>,
        vars: Vec<String>,
        lives: Vec<Vec<String>>,
    ) -> (x: X86)
        ensures
            x@ == X86View::ProgWithLives(
                defs.deep_view(),
                instrs.deep_view(),
                vars.deep_view(),
                lives.deep_view(),
            ),
    {
        let x = X86::ProgWithLives(defs, instrs, vars, lives);
        proof {
            lemma_x86_view(&x);
        }
        x
    }
}

/// A copy of a list of instructions.
pub fn copy_instrs(v: &Vec<X86>) -> (copy: Vec<X86>)
    ensures
        copy.deep_view() == v.deep_view(),
    decreases v, 0nat,
{
    let mut copy: Vec<X86> = empty_deep();
    let mut i: usize = 0;
    while i < v.len()
        invariant
            i <= v.len(),
            copy.deep_view() == v.deep_view().take(i as int),
        decreases v.len() - i,
    {
        proof {
            lemma_take_push(v.deep_view(), i as int);
            lemma_deep_view_index(v);
        }
        push_deep(&mut copy, copy_instr(&v[i]));
        i = i + 1;
    }
    proof {
        lemma_take_all(v.deep_view());
    }
    copy
}

/// A copy of an instruction.
pub fn copy_instr(x: &X86) -> (copy: X86)
    ensures
        copy@ == x@,
    decreases x, 1nat,
{
    proof {
        lemma_x86_view(x);
    }
    match x {
        X86::Mov(dst, src) => X86::Mov(dst.clone(), src.clone()),
        X86::Add(dst, src) => X86::Add(dst.clone(), src.clone()),
        X86::Cmp(left, right) => X86::Cmp(left.clone(), right.clone()),
        X86::EqP(left, right) => X86::EqP(left.clone(), right.clone()),
        X86::If(cnd, thn, els) => X86::branch(copy_instr(cnd), copy_instrs(thn), copy_instrs(els)),
        X86::IfWithLives(cnd, thn, thn_lives, els, els_lives) => X86::branch_with_lives(
            copy_instr(cnd),
            copy_instrs(thn),
            thn_lives.clone(),
            copy_instrs(els),
            els_lives.clone(),
        ),
        X86::Define(name, vars, instrs) => X86::define(
            name.clone(),
            vars.clone(),
            copy_instrs(instrs),
        ),
        X86::DefineWithLives(name, vars, lives, instrs) => X86::define_with_lives(
            name.clone(),
            vars.clone(),
            lives.clone(),
            copy_instrs(instrs),
        ),
        X86::Prog(defs, instrs, vars) => X86::prog(
            copy_instrs(defs),
            copy_instrs(instrs),
            vars.clone(),
        ),
        X86::ProgWithLives(defs, instrs, vars, lives) => X86::prog_with_lives(
            copy_instrs(defs),
            copy_instrs(instrs),
            vars.clone(),
            lives.clone(),
        ),
        X86::Call(label) => X86::Call(label.clone()),
        X86::JmpIf(cc, label) => X86::JmpIf(*cc, label.clone()),
        X86::Jmp(label) => X86::Jmp(label.clone()),
        X86::Label(label) => X86::Label(label.clone()),
    }
}

impl Clone for X86 {
    fn clone(&self) -> (copy: Self)
        ensures
            copy@ == self@,
    {
        copy_instr(self)
    }
}

} // verus!
