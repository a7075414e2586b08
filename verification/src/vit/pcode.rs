//! The instructions of the stack machine, as lines of text.
//!
//! A jump names its target by the target's label; nothing here knows an
//! instruction's offset.

use vstd::prelude::*;
use crate::ast::Opcode;
use crate::text::{decimal, push_decimal};

verus! {

/// `lda #a`: push the address `a`.
pub open spec fn load_address(address: nat) -> Seq<char> {
    "lda #"@ + decimal(address) + "\n"@
}

/// `lod #a`: push the value stored at `a`.
pub open spec fn load_value(address: nat) -> Seq<char> {
    "lod #"@ + decimal(address) + "\n"@
}

/// `ldc n`: push a number, written as in the source.
pub open spec fn push_number(written: Seq<char>) -> Seq<char> {
    "ldc "@ + written + "\n"@
}

/// `ldc "t"`: push a text.
pub open spec fn push_text(content: Seq<char>) -> Seq<char> {
    "ldc \""@ + content + "\"\n"@
}

/// `sto`: store the value on top at the address below it.
pub open spec fn store() -> Seq<char> {
    "sto\n"@
}

/// `rd`: push a value read from the input.
pub open spec fn read_input() -> Seq<char> {
    "rd\n"@
}

/// `wri`: write the value on top to the output.
pub open spec fn output() -> Seq<char> {
    "wri\n"@
}

/// `stp`: stop.
pub open spec fn halt() -> Seq<char> {
    "stp\n"@
}

/// `to int`: drop the fraction of the value on top.
pub open spec fn truncate() -> Seq<char> {
    "to int\n"@
}

/// The letter that begins the labels of a kind: where a loop starts, where
/// an else branch starts, where a construct ends.
pub enum Mark {
    Start,
    Else,
    Exit,
}

/// The letter of a kind of label.
pub open spec fn mark_text(mark: Mark) -> Seq<char> {
    match mark {
        Mark::Start => "L"@,
        Mark::Else => "F"@,
        Mark::Exit => "E"@,
    }
}

/// The name of the label `k` of a kind.
pub open spec fn label_name(mark: Mark, k: nat) -> Seq<char> {
    mark_text(mark) + decimal(k)
}

/// The line that defines a label.
pub open spec fn label(mark: Mark, k: nat) -> Seq<char> {
    label_name(mark, k) + ":\n"@
}

/// `ujp`: jump.
pub open spec fn jump(mark: Mark, k: nat) -> Seq<char> {
    "ujp "@ + label_name(mark, k) + "\n"@
}

/// `fjp`: jump if the value on top is false.
pub open spec fn jump_if_false(mark: Mark, k: nat) -> Seq<char> {
    "fjp "@ + label_name(mark, k) + "\n"@
}

/// Whether the machine has an instruction for the operator. Modulo and
/// exponentiation have none.
pub open spec fn native(op: Opcode) -> bool {
    op != Opcode::Mod && op != Opcode::Exp
}

/// The instruction of a native operator.
pub open spec fn mnemonic(op: Opcode) -> Seq<char> {
    match op {
        Opcode::Add => "add\n"@,
        Opcode::Sub => "sub\n"@,
        Opcode::Mul => "mul\n"@,
        Opcode::Div => "div\n"@,
        Opcode::And => "and\n"@,
        Opcode::Or => "or\n"@,
        Opcode::Not => "not\n"@,
        Opcode::Eq => "equ\n"@,
        Opcode::Neq => "neq\n"@,
        Opcode::Grt => "grt\n"@,
        Opcode::Geq => "gte\n"@,
        Opcode::Let => "let\n"@,
        Opcode::Leq => "lte\n"@,
        _ => ""@,
    }
}

/// What follows the two operands of an operator: its instruction where it
/// has one, and for modulo the rest of `a - trunc(a / b) * b`, for which
/// `a` is evaluated twice before `b` and `b` once more after the division.
pub open spec fn modulo(a: Seq<char>, b: Seq<char>) -> Seq<char> {
    a + a + b + mnemonic(Opcode::Div) + truncate() + b + mnemonic(Opcode::Mul) + mnemonic(
        Opcode::Sub,
    )
}

/// Appends `lda #address`.
pub fn emit_load_address(out: &mut String, address: u32)
    ensures
        final(out)@ == old(out)@ + load_address(address as nat),
{
    out.append("lda #");
    push_decimal(out, address as u64);
    out.append("\n");
}

/// Appends `lod #address`.
pub fn emit_load_value(out: &mut String, address: u32)
    ensures
        final(out)@ == old(out)@ + load_value(address as nat),
{
    out.append("lod #");
    push_decimal(out, address as u64);
    out.append("\n");
}

/// Appends `ldc written`.
pub fn emit_push_number(out: &mut String, written: &str)
    ensures
        final(out)@ == old(out)@ + push_number(written@),
{
    out.append("ldc ");
    out.append(written);
    out.append("\n");
}

/// Appends `ldc "content"`.
pub fn emit_push_text(out: &mut String, content: &str)
    ensures
        final(out)@ == old(out)@ + push_text(content@),
{
    out.append("ldc \"");
    out.append(content);
    out.append("\"\n");
}

fn mark_letter(mark: Mark) -> (r: &'static str)
    ensures
        r@ == mark_text(mark),
{
    match mark {
        Mark::Start => "L",
        Mark::Else => "F",
        Mark::Exit => "E",
    }
}

/// Appends the line that defines the label `k` of a kind.
pub fn emit_label(out: &mut String, mark: Mark, k: u32)
    ensures
        final(out)@ == old(out)@ + label(mark, k as nat),
{
    out.append(mark_letter(mark));
    push_decimal(out, k as u64);
    out.append(":\n");
}

/// Appends `ujp` to the label `k` of a kind.
pub fn emit_jump(out: &mut String, mark: Mark, k: u32)
    ensures
        final(out)@ == old(out)@ + jump(mark, k as nat),
{
    out.append("ujp ");
    out.append(mark_letter(mark));
    push_decimal(out, k as u64);
    out.append("\n");
}

/// Appends `fjp` to the label `k` of a kind.
pub fn emit_jump_if_false(out: &mut String, mark: Mark, k: u32)
    ensures
        final(out)@ == old(out)@ + jump_if_false(mark, k as nat),
{
    out.append("fjp ");
    out.append(mark_letter(mark));
    push_decimal(out, k as u64);
    out.append("\n");
}

} // verus!
