//! Emission: the text of a program in NASM syntax.

use vstd::prelude::*;
use vstd::string::*;
use crate::ast::CC;
use crate::error::CompileError;
use crate::homes::{all_no_vars, no_vars};
use crate::lower::{all_plain, is_lowered};
use crate::names::{decimal, push_decimal, push_signed_decimal, signed_decimal};
use crate::seqs::{lemma_deep_view_index, lemma_take_all, lemma_take_push};
use crate::x86::{ArgView, Reg, X86, X86Arg, X86View, lemma_x86_view};

verus! {

/// The name of a register.
pub open spec fn reg_name(r: Reg) -> Seq<char> {
    match r {
        Reg::RAX => "rax"@,
        Reg::RBX => "rbx"@,
        Reg::RBP => "rbp"@,
        Reg::RCX => "rcx"@,
        Reg::RDX => "rdx"@,
        Reg::RDI => "rdi"@,
        Reg::RSI => "rsi"@,
        Reg::R8 => "r8"@,
        Reg::R9 => "r9"@,
        Reg::R10 => "r10"@,
        Reg::R11 => "r11"@,
        Reg::R12 => "r12"@,
        Reg::R13 => "r13"@,
        Reg::R14 => "r14"@,
        Reg::R15 => "r15"@,
    }
}

/// The suffix of a conditional jump.
pub open spec fn cc_name(cc: CC) -> Seq<char> {
    match cc {
        CC::E => "e"@,
        CC::L => "l"@,
        CC::LE => "le"@,
        CC::G => "g"@,
        CC::GE => "ge"@,
    }
}

/// A displacement with its sign.
pub open spec fn offset_text(d: i32) -> Seq<char> {
    if d < 0 {
        signed_decimal(d as int)
    } else {
        "+"@ + decimal(d as nat)
    }
}

/// The text of an operand; a variable has none.
pub open spec fn arg_text(a: ArgView) -> Result<Seq<char>, CompileError> {
    match a {
        ArgView::Reg(r) => Ok(reg_name(r)),
        ArgView::Imm(n) => Ok(signed_decimal(n as int)),
        ArgView::RegOffset(r, d) => Ok("QWORD ["@ + reg_name(r) + offset_text(d) + "]"@),
        ArgView::Var(_) => Err(CompileError::PseudoOperand),
    }
}

/// The line of an instruction with two operands.
pub open spec fn two_operand_text(op: Seq<char>, first: ArgView, second: ArgView) -> Result<
    Seq<char>,
    CompileError,
> {
    match arg_text(first) {
        Err(err) => Err(err),
        Ok(a) => match arg_text(second) {
            Err(err) => Err(err),
            Ok(b) => Ok("    "@ + op + " "@ + a + ", "@ + b + "\n"@),
        },
    }
}

/// The line of an instruction: indented by four spaces, but for a label, and ended by a
/// newline.
pub open spec fn instr_text(x: X86View) -> Result<Seq<char>, CompileError> {
    match x {
        X86View::Mov(dst, src) => two_operand_text("mov"@, dst, src),
        X86View::Add(dst, src) => two_operand_text("add"@, dst, src),
        X86View::Cmp(left, right) => two_operand_text("cmp"@, left, right),
        X86View::JmpIf(cc, label) => Ok("    j"@ + cc_name(cc) + " "@ + label + "\n"@),
        X86View::Jmp(label) => Ok("    jmp "@ + label + "\n"@),
        X86View::Label(label) => Ok(label + ":\n"@),
        X86View::Call(label) => Ok("    call "@ + label + "\n"@),
        _ => Err(CompileError::UnsupportedInstruction),
    }
}

/// The lines of a list of instructions.
pub open spec fn instrs_text(instrs: Seq<X86View>) -> Result<Seq<char>, CompileError>
    decreases instrs.len(),
{
    if instrs.len() == 0 {
        Ok(Seq::empty())
    } else {
        match instrs_text(instrs.drop_last()) {
            Err(err) => Err(err),
            Ok(init) => match instr_text(instrs.last()) {
                Err(err) => Err(err),
                Ok(line) => Ok(init + line),
            },
        }
    }
}

/// How many bytes below the frame pointer an operand reaches.
pub open spec fn arg_depth(a: ArgView) -> nat {
    match a {
        ArgView::RegOffset(Reg::RBP, d) => {
            if d < 0 {
                (-d) as nat
            } else {
                0
            }
        },
        _ => 0,
    }
}

/// How many bytes below the frame pointer an instruction reaches.
pub open spec fn instr_depth(x: X86View) -> nat {
    match x {
        X86View::Mov(a, b) => vstd::math::max(arg_depth(a) as int, arg_depth(b) as int) as nat,
        X86View::Add(a, b) => vstd::math::max(arg_depth(a) as int, arg_depth(b) as int) as nat,
        X86View::Cmp(a, b) => vstd::math::max(arg_depth(a) as int, arg_depth(b) as int) as nat,
        _ => 0,
    }
}

/// The size of the stack frame of a body in bytes: as far below the frame pointer as
/// any of its instructions reaches.
pub open spec fn frame_size(instrs: Seq<X86View>) -> nat
    decreases instrs.len(),
{
    if instrs.len() == 0 {
        0
    } else {
        vstd::math::max(frame_size(instrs.drop_last()) as int, instr_depth(instrs.last()) as int)
            as nat
    }
}

/// The entry of a function: its label, the new frame, room for the frame's slots, and
/// the callee-saved registers.
pub open spec fn prologue_text(name: Seq<char>, frame: nat) -> Seq<char> {
    name + ":\n    push rbp\n    mov rbp, rsp\n    sub rsp, "@ + decimal(frame)
        + "\n    push rbx\n    push r12\n    push r13\n    push r14\n"@
}

/// The exit of a function: the callee-saved registers in reverse, the frame's slots,
/// the old frame, and the return.
pub open spec fn epilogue_text(frame: nat) -> Seq<char> {
    "    pop r14\n    pop r13\n    pop r12\n    pop rbx\n    add rsp, "@ + decimal(frame)
        + "\n    mov rsp, rbp\n    pop rbp\n    ret\n"@
}

/// The text of a function.
pub open spec fn function_text(name: Seq<char>, instrs: Seq<X86View>) -> Result<
    Seq<char>,
    CompileError,
> {
    match instrs_text(instrs) {
        Err(err) => Err(err),
        Ok(body) => Ok(
            prologue_text(name, frame_size(instrs)) + body + epilogue_text(frame_size(instrs)),
        ),
    }
}

/// What [`print_x86`] computes. A program is its header, `main`, which prints the value
/// in `rax` before it returns, and then its definitions in order.
pub open spec fn print_x86_spec(x: X86View) -> Result<Seq<char>, CompileError>
    decreases x, 1nat,
{
    match x {
        X86View::Define(name, _, instrs) => function_text(name, instrs),
        X86View::Prog(defs, instrs, _) => match defs_text(defs) {
            Err(err) => Err(err),
            Ok(defs_part) => match instrs_text(instrs) {
                Err(err) => Err(err),
                Ok(body) => Ok(
                    "section .text\nextern print_int\nglobal main\n"@ + prologue_text(
                        "main"@,
                        frame_size(instrs),
                    ) + body + "    mov rdi, rax\n    call print_int\n"@ + epilogue_text(
                        frame_size(instrs),
                    ) + defs_part,
                ),
            },
        },
        _ => Err(CompileError::NotTopLevel),
    }
}

/// The texts of the definitions of a program, in order.
pub open spec fn defs_text(defs: Seq<X86View>) -> Result<Seq<char>, CompileError>
    decreases defs, 0nat,
{
    if defs.len() == 0 {
        Ok(Seq::empty())
    } else {
        match defs_text(defs.drop_last()) {
            Err(err) => Err(err),
            Ok(init) => match print_x86_spec(defs.last()) {
                Err(err) => Err(err),
                Ok(text) => Ok(init + text),
            },
        }
    }
}

/// An error among the first `k` instructions is the error of all of them.
proof fn lemma_instrs_text_error(instrs: Seq<X86View>, k: int)
    requires
        0 <= k <= instrs.len(),
        instrs_text(instrs.take(k)) is Err,
    ensures
        instrs_text(instrs) == instrs_text(instrs.take(k)),
    decreases instrs.len(),
{
    if k == instrs.len() {
        lemma_take_all(instrs);
    } else {
        assert(instrs.drop_last().take(k) =~= instrs.take(k));
        lemma_instrs_text_error(instrs.drop_last(), k);
    }
}

/// An error among the first `k` definitions is the error of all of them.
proof fn lemma_defs_text_error(defs: Seq<X86View>, k: int)
    requires
        0 <= k <= defs.len(),
        defs_text(defs.take(k)) is Err,
    ensures
        defs_text(defs) == defs_text(defs.take(k)),
    decreases defs.len(),
{
    if k == defs.len() {
        lemma_take_all(defs);
    } else {
        assert(defs.drop_last().take(k) =~= defs.take(k));
        lemma_defs_text_error(defs.drop_last(), k);
    }
}

/// The name of a register.
pub fn display_reg(reg: &Reg) -> (text: String)
    ensures
        text@ == reg_name(*reg),
{
    match reg {
        Reg::RAX => String::from_str("rax"),
        Reg::RBX => String::from_str("rbx"),
        Reg::RBP => String::from_str("rbp"),
        Reg::RCX => String::from_str("rcx"),
        Reg::RDX => String::from_str("rdx"),
        Reg::RDI => String::from_str("rdi"),
        Reg::RSI => String::from_str("rsi"),
        Reg::R8 => String::from_str("r8"),
        Reg::R9 => String::from_str("r9"),
        Reg::R10 => String::from_str("r10"),
        Reg::R11 => String::from_str("r11"),
        Reg::R12 => String::from_str("r12"),
        Reg::R13 => String::from_str("r13"),
        Reg::R14 => String::from_str("r14"),
        Reg::R15 => String::from_str("r15"),
    }
}

/// The text of an operand.
pub fn print_x86_arg(arg: &X86Arg) -> (result: Result<String, CompileError>)
    ensures
        match result {
            Ok(text) => arg_text(arg@) == Ok::<_, CompileError>(text@),
            Err(err) => arg_text(arg@) == Err::<Seq<char>, _>(err),
        },
{
    match arg {
        X86Arg::Reg(r) => Ok(display_reg(r)),
        X86Arg::Imm(n) => {
            let mut text = String::new();
            push_signed_decimal(&mut text, *n);
            assert(text@ =~= signed_decimal(*n as int));
            Ok(text)
        },
        X86Arg::RegOffset(r, d) => {
            let mut text = String::from_str("QWORD [");
            let name = display_reg(r);
            text.append(name.as_str());
            if *d < 0 {
                push_signed_decimal(&mut text, *d);
            } else {
                text.append("+");
                push_decimal(&mut text, *d as u64);
            }
            text.append("]");
            assert(text@ =~= "QWORD ["@ + reg_name(*r) + offset_text(*d) + "]"@);
            Ok(text)
        },
        X86Arg::Var(_) => Err(CompileError::PseudoOperand),
    }
}

/// The suffix of a conditional jump.
#[allow(non_snake_case)]
pub fn print_CC(cc: CC) -> (text: String)
    ensures
        text@ == cc_name(cc),
{
    match cc {
        CC::E => String::from_str("e"),
        CC::L => String::from_str("l"),
        CC::LE => String::from_str("le"),
        CC::G => String::from_str("g"),
        CC::GE => String::from_str("ge"),
    }
}

/// The line of an instruction with two operands.
fn print_two_operands(op: &str, first: &X86Arg, second: &X86Arg) -> (result: Result<
    String,
    CompileError,
>)
    ensures
        match result {
            Ok(text) => two_operand_text(op@, first@, second@) == Ok::<_, CompileError>(text@),
            Err(err) => two_operand_text(op@, first@, second@) == Err::<Seq<char>, _>(err),
        },
{
    let a = print_x86_arg(first)?;
    let b = print_x86_arg(second)?;
    let mut text = String::from_str("    ");
    text.append(op);
    text.append(" ");
    text.append(a.as_str());
    text.append(", ");
    text.append(b.as_str());
    text.append("\n");
    assert(text@ =~= "    "@ + op@ + " "@ + a@ + ", "@ + b@ + "\n"@);
    Ok(text)
}

/// The line of an instruction.
pub fn print_instr(instr: &X86) -> (result: Result<String, CompileError>)
    ensures
        match result {
            Ok(text) => instr_text(instr@) == Ok::<_, CompileError>(text@),
            Err(err) => instr_text(instr@) == Err::<Seq<char>, _>(err),
        },
{
    proof {
        lemma_x86_view(instr);
    }
    match instr {
        X86::Mov(dst, src) => print_two_operands("mov", dst, src),
        X86::Add(dst, src) => print_two_operands("add", dst, src),
        X86::Cmp(left, right) => print_two_operands("cmp", left, right),
        X86::JmpIf(cc, label) => {
            let mut text = String::from_str("    j");
            let suffix = print_CC(*cc);
            text.append(suffix.as_str());
            text.append(" ");
            text.append(label.as_str());
            text.append("\n");
            assert(text@ =~= "    j"@ + cc_name(*cc) + " "@ + label@ + "\n"@);
            Ok(text)
        },
        X86::Jmp(label) => {
            let mut text = String::from_str("    jmp ");
            text.append(label.as_str());
            text.append("\n");
            assert(text@ =~= "    jmp "@ + label@ + "\n"@);
            Ok(text)
        },
        X86::Label(label) => {
            let mut text = label.clone();
            text.append(":\n");
            Ok(text)
        },
        X86::Call(label) => {
            let mut text = String::from_str("    call ");
            text.append(label.as_str());
            text.append("\n");
            assert(text@ =~= "    call "@ + label@ + "\n"@);
            Ok(text)
        },
        _ => Err(CompileError::UnsupportedInstruction),
    }
}

/// The lines of a list of instructions.
fn print_instrs(instrs: &Vec<X86>) -> (result: Result<String, CompileError>)
    ensures
        match result {
            Ok(text) => instrs_text(instrs.deep_view()) == Ok::<_, CompileError>(text@),
            Err(err) => instrs_text(instrs.deep_view()) == Err::<Seq<char>, _>(err) && !(all_plain(
                instrs.deep_view(),
            ) && all_no_vars(instrs.deep_view())),
        },
{
    let mut text = String::new();
    let mut i: usize = 0;
    while i < instrs.len()
        invariant
            i <= instrs.len(),
            instrs_text(instrs.deep_view().take(i as int)) == Ok::<_, CompileError>(text@),
        decreases instrs.len() - i,
    {
        proof {
            lemma_take_push(instrs.deep_view(), i as int);
            lemma_deep_view_index(instrs);
        }
        match print_instr(&instrs[i]) {
            Err(err) => {
                proof {
                    lemma_instrs_text_error(instrs.deep_view(), i + 1);
                }
                return Err(err);
            },
            Ok(line) => {
                text.append(line.as_str());
            },
        }
        i = i + 1;
    }
    proof {
        lemma_take_all(instrs.deep_view());
    }
    Ok(text)
}

/// How many bytes below the frame pointer an operand reaches.
fn depth_of_arg(arg: &X86Arg) -> (depth: u64)
    ensures
        depth == arg_depth(arg@),
        depth <= 0x8000_0000,
{
    match arg {
        X86Arg::RegOffset(Reg::RBP, d) => {
            if *d < 0 {
                (-(*d as i64)) as u64
            } else {
                0
            }
        },
        _ => 0,
    }
}

/// The size of the stack frame of a body in bytes.
fn frame_size_of(instrs: &Vec<X86>) -> (size: u64)
    ensures
        size == frame_size(instrs.deep_view()),
{
    let mut size: u64 = 0;
    let mut i: usize = 0;
    while i < instrs.len()
        invariant
            i <= instrs.len(),
            size == frame_size(instrs.deep_view().take(i as int)),
        decreases instrs.len() - i,
    {
        proof {
            lemma_take_push(instrs.deep_view(), i as int);
            lemma_deep_view_index(instrs);
            lemma_x86_view(&instrs[i as int]);
        }
        let depth = match &instrs[i] {
            X86::Mov(a, b) => {
                let x = depth_of_arg(a);
                let y = depth_of_arg(b);
                if x >= y {
                    x
                } else {
                    y
                }
            },
            X86::Add(a, b) => {
                let x = depth_of_arg(a);
                let y = depth_of_arg(b);
                if x >= y {
                    x
                } else {
                    y
                }
            },
            X86::Cmp(a, b) => {
                let x = depth_of_arg(a);
                let y = depth_of_arg(b);
                if x >= y {
                    x
                } else {
                    y
                }
            },
            _ => 0,
        };
        if depth > size {
            size = depth;
        }
        i = i + 1;
    }
    proof {
        lemma_take_all(instrs.deep_view());
    }
    size
}

/// Appends the entry of a function.
fn push_prologue(out: &mut String, name: &str, frame: u64)
    ensures
        final(out)@ == old(out)@ + prologue_text(name@, frame as nat),
{
    out.append(name);
    out.append(":\n    push rbp\n    mov rbp, rsp\n    sub rsp, ");
    push_decimal(out, frame);
    out.append("\n    push rbx\n    push r12\n    push r13\n    push r14\n");
    assert(out@ =~= old(out)@ + prologue_text(name@, frame as nat));
}

/// Appends the exit of a function.
fn push_epilogue(out: &mut String, frame: u64)
    ensures
        final(out)@ == old(out)@ + epilogue_text(frame as nat),
{
    out.append("    pop r14\n    pop r13\n    pop r12\n    pop rbx\n    add rsp, ");
    push_decimal(out, frame);
    out.append("\n    mov rsp, rbp\n    pop rbp\n    ret\n");
    assert(out@ =~= old(out)@ + epilogue_text(frame as nat));
}

/// The texts of the definitions of a program.
fn print_defs(defs: &Vec<X86>) -> (result: Result<String, CompileError>)
    ensures
        match result {
            Ok(text) => defs_text(defs.deep_view()) == Ok::<_, CompileError>(text@),
            Err(err) => defs_text(defs.deep_view()) == Err::<Seq<char>, _>(err) && !(forall|i: int|
                0 <= i < defs.deep_view().len() ==> is_lowered(#[trigger] defs.deep_view()[i])
                    && no_vars(defs.deep_view()[i])),
        },
    decreases defs, 0nat,
{
    let mut text = String::new();
    let mut i: usize = 0;
    while i < defs.len()
        invariant
            i <= defs.len(),
            defs_text(defs.deep_view().take(i as int)) == Ok::<_, CompileError>(text@),
        decreases defs.len() - i,
    {
        proof {
            lemma_take_push(defs.deep_view(), i as int);
            lemma_deep_view_index(defs);
        }
        match print_x86(&defs[i]) {
            Err(err) => {
                proof {
                    lemma_defs_text_error(defs.deep_view(), i + 1);
                }
                return Err(err);
            },
            Ok(def) => {
                text.append(def.as_str());
            },
        }
        i = i + 1;
    }
    proof {
        lemma_take_all(defs.deep_view());
    }
    Ok(text)
}

/// The text of a program or of a definition. A program that holds real instructions
/// only, none of them with a variable, always has a text.
pub fn print_x86(prog: &X86) -> (result: Result<String, CompileError>)
    ensures
        match result {
            Ok(text) => print_x86_spec(prog@) == Ok::<_, CompileError>(text@),
            Err(err) => print_x86_spec(prog@) == Err::<Seq<char>, _>(err) && !(is_lowered(prog@)
                && no_vars(prog@)),
        },
    decreases prog, 1nat,
{
    proof {
        lemma_x86_view(prog);
    }
    match prog {
        X86::Define(name, _, instrs) => {
            let body = print_instrs(instrs)?;
            let frame = frame_size_of(instrs);
            let mut text = String::new();
            push_prologue(&mut text, name.as_str(), frame);
            text.append(body.as_str());
            push_epilogue(&mut text, frame);
            assert(text@ =~= prologue_text(name@, frame as nat) + body@ + epilogue_text(
                frame as nat,
            ));
            Ok(text)
        },
        X86::Prog(defs, instrs, _) => {
            let defs_part = print_defs(defs)?;
            let body = print_instrs(instrs)?;
            let frame = frame_size_of(instrs);
            let mut text = String::from_str("section .text\nextern print_int\nglobal main\n");
            push_prologue(&mut text, "main", frame);
            text.append(body.as_str());
            text.append("    mov rdi, rax\n    call print_int\n");
            push_epilogue(&mut text, frame);
            text.append(defs_part.as_str());
            Ok(text)
        },
        _ => Err(CompileError::NotTopLevel),
    }
}

} // verus!
