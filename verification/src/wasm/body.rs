//! Statements and expressions of method bodies in WAT, on the operand
//! stack, with pointer locals kept in the shadow-stack frame.
use vstd::prelude::*;
use super::{WatGen, WatSt, WatCtx, blank_s, comment_s, dec_s, inc_s, ln_s, dec, push_chars, lookup, copy_vec};
use super::sections::{t_num, t_txt};
use crate::wasm_layout::{ValTy, slot_find};
use crate::ir::{IrBinOp, IrExpr, IrStmt, IrUnOp, SpecIrExpr, SpecIrStmt, ir_exprs_view, ir_stmts_view};
use crate::updater::decimal;
use crate::spelling::hex_digit;
use crate::testgen::{int_text, push_decimal, push_int};
use crate::text::{chars_vec, push_str, str_eq};
use crate::optimizer::{quot, rem};

verus! {

/// Local names with their value types.
pub type Locals = Seq<(Seq<char>, ValTy)>;

/// The offset and value type of field `name` of class `cls` (offset 0 and
/// `i32` when unknown).
pub open spec fn fslot(c: WatCtx, cls: Seq<char>, name: Seq<char>) -> (u32, ValTy) {
    match lookup(c.layouts, cls) {
        Some(l) => match slot_find(l.slots, name) {
            Some((o, v)) => (o as u32, v),
            None => (0, ValTy::I32),
        },
        None => (0, ValTy::I32),
    }
}

/// The value type an expression leaves, as far as the backend tracks it.
pub open spec fn vt_of(c: WatCtx, cls: Seq<char>, locals: Locals, e: SpecIrExpr) -> ValTy
    decreases e,
{
    match e {
        SpecIrExpr::Int(_) => ValTy::I64,
        SpecIrExpr::Local(n) => match lookup(locals, n) {
            Some(v) => v,
            None => ValTy::I32,
        },
        SpecIrExpr::Field { name, .. } => fslot(c, cls, name).1,
        SpecIrExpr::Bin { op, lhs, .. } => if arith(op) {
            vt_of(c, cls, locals, *lhs)
        } else {
            ValTy::I32
        },
        SpecIrExpr::Unary { op, .. } => match op {
            IrUnOp::Not => ValTy::I32,
            IrUnOp::Neg => ValTy::I64,
        },
        _ => ValTy::I32,
    }
}

/// An arithmetic operator.
pub open spec fn arith(op: IrBinOp) -> bool {
    op == IrBinOp::Add || op == IrBinOp::Sub || op == IrBinOp::Mul || op == IrBinOp::Div || op == IrBinOp::Mod
}

/// The instruction of a binary operator on operands of type `t`.
pub open spec fn binop_text(op: IrBinOp, t: ValTy) -> Seq<char> {
    match op {
        IrBinOp::Add => if t == ValTy::I64 { "i64.add"@ } else { "i32.add"@ },
        IrBinOp::Sub => if t == ValTy::I64 { "i64.sub"@ } else { "i32.sub"@ },
        IrBinOp::Mul => if t == ValTy::I64 { "i64.mul"@ } else { "i32.mul"@ },
        IrBinOp::Div => if t == ValTy::I64 { "i64.div_s"@ } else { "i32.div_s"@ },
        IrBinOp::Mod => if t == ValTy::I64 { "i64.rem_s"@ } else { "i32.rem_s"@ },
        IrBinOp::Eq => if t == ValTy::I64 { "i64.eq"@ } else { "i32.eq"@ },
        IrBinOp::Ne => if t == ValTy::I64 { "i64.ne"@ } else { "i32.ne"@ },
        IrBinOp::Lt => if t == ValTy::I64 { "i64.lt_s"@ } else { "i32.lt_s"@ },
        IrBinOp::Gt => if t == ValTy::I64 { "i64.gt_s"@ } else { "i32.gt_s"@ },
        IrBinOp::Le => if t == ValTy::I64 { "i64.le_s"@ } else { "i32.le_s"@ },
        IrBinOp::Ge => if t == ValTy::I64 { "i64.ge_s"@ } else { "i32.ge_s"@ },
        IrBinOp::And => "i32.and"@,
        IrBinOp::Or => "i32.or"@,
    }
}

/// What a WebAssembly integer instruction of the text format computes on
/// two operands read as signed integers: arithmetic (division and
/// remainder rounded toward zero, trapping by zero), comparisons giving 1
/// or 0, and `and` and `or` on the truth values 0 and 1. Wrapping is left
/// out, as it only concerns results outside the operand type. `None` for
/// any other text.
pub open spec fn wat_value(instr: Seq<char>, a: int, b: int) -> Option<int> {
    let flag = |c: bool| if c { 1int } else { 0int };
    if instr == "i64.add"@ || instr == "i32.add"@ { Some(a + b) }
    else if instr == "i64.sub"@ || instr == "i32.sub"@ { Some(a - b) }
    else if instr == "i64.mul"@ || instr == "i32.mul"@ { Some(a * b) }
    else if instr == "i64.div_s"@ || instr == "i32.div_s"@ { if b == 0 { None } else { Some(quot(a, b)) } }
    else if instr == "i64.rem_s"@ || instr == "i32.rem_s"@ { if b == 0 { None } else { Some(rem(a, b)) } }
    else if instr == "i64.eq"@ || instr == "i32.eq"@ { Some(flag(a == b)) }
    else if instr == "i64.ne"@ || instr == "i32.ne"@ { Some(flag(a != b)) }
    else if instr == "i64.lt_s"@ || instr == "i32.lt_s"@ { Some(flag(a < b)) }
    else if instr == "i64.gt_s"@ || instr == "i32.gt_s"@ { Some(flag(a > b)) }
    else if instr == "i64.le_s"@ || instr == "i32.le_s"@ { Some(flag(a <= b)) }
    else if instr == "i64.ge_s"@ || instr == "i32.ge_s"@ { Some(flag(a >= b)) }
    else if instr == "i32.and"@ && (a == 0 || a == 1) && (b == 0 || b == 1) { Some(flag(a == 1 && b == 1)) }
    else if instr == "i32.or"@ && (a == 0 || a == 1) && (b == 0 || b == 1) { Some(flag(a == 1 || b == 1)) }
    else { None }
}

/// What an IR operator means on the values of its operands, booleans
/// being 1 and 0.
pub open spec fn ir_op_value(op: IrBinOp, a: int, b: int) -> Option<int> {
    let flag = |c: bool| if c { 1int } else { 0int };
    match op {
        IrBinOp::Add => Some(a + b),
        IrBinOp::Sub => Some(a - b),
        IrBinOp::Mul => Some(a * b),
        IrBinOp::Div => if b == 0 { None } else { Some(quot(a, b)) },
        IrBinOp::Mod => if b == 0 { None } else { Some(rem(a, b)) },
        IrBinOp::Eq => Some(flag(a == b)),
        IrBinOp::Ne => Some(flag(a != b)),
        IrBinOp::Lt => Some(flag(a < b)),
        IrBinOp::Gt => Some(flag(a > b)),
        IrBinOp::Le => Some(flag(a <= b)),
        IrBinOp::Ge => Some(flag(a >= b)),
        IrBinOp::And => Some(flag(a != 0 && b != 0)),
        IrBinOp::Or => Some(flag(a != 0 || b != 0)),
    }
}

/// The text-format type prefix of instructions on values of type `t`.
pub open spec fn type_prefix(t: ValTy) -> Seq<char> {
    if t == ValTy::I64 { "i64."@ } else { "i32."@ }
}

/// The instruction emitted for each operator computes that operator: on
/// any operands (truth values for `&&` and `||`), the instruction gives
/// the operator's value. It works on the operands' type, except `&&` and
/// `||`, which work on 32-bit truth values.
pub proof fn lemma_binop_computes(op: IrBinOp, t: ValTy, a: int, b: int)
    requires
        (op is And || op is Or) ==> (a == 0 || a == 1) && (b == 0 || b == 1),
    ensures
        wat_value(binop_text(op, t), a, b) == ir_op_value(op, a, b),
        !(op is And || op is Or) ==> binop_text(op, t).take(4) == type_prefix(t),
        (op is And || op is Or) ==> binop_text(op, t).take(4) == type_prefix(ValTy::I32),
{
    reveal_strlit("i64.add");
    reveal_strlit("i32.add");
    reveal_strlit("i64.sub");
    reveal_strlit("i32.sub");
    reveal_strlit("i64.mul");
    reveal_strlit("i32.mul");
    reveal_strlit("i64.div_s");
    reveal_strlit("i32.div_s");
    reveal_strlit("i64.rem_s");
    reveal_strlit("i32.rem_s");
    reveal_strlit("i64.eq");
    reveal_strlit("i32.eq");
    reveal_strlit("i64.ne");
    reveal_strlit("i32.ne");
    reveal_strlit("i64.lt_s");
    reveal_strlit("i32.lt_s");
    reveal_strlit("i64.gt_s");
    reveal_strlit("i32.gt_s");
    reveal_strlit("i64.le_s");
    reveal_strlit("i32.le_s");
    reveal_strlit("i64.ge_s");
    reveal_strlit("i32.ge_s");
    reveal_strlit("i64.and");
    reveal_strlit("i32.and");
    reveal_strlit("i64.or");
    reveal_strlit("i32.or");
    reveal_strlit("i64.");
    reveal_strlit("i32.");
    assert("i64.add"@.len() == 7 && "i64.add"@[1] == '6' && "i64.add"@[4] == 'a' && "i64.add"@[5] == 'd');
    assert("i32.add"@.len() == 7 && "i32.add"@[1] == '3' && "i32.add"@[4] == 'a' && "i32.add"@[5] == 'd');
    assert("i64.sub"@.len() == 7 && "i64.sub"@[1] == '6' && "i64.sub"@[4] == 's' && "i64.sub"@[5] == 'u');
    assert("i32.sub"@.len() == 7 && "i32.sub"@[1] == '3' && "i32.sub"@[4] == 's' && "i32.sub"@[5] == 'u');
    assert("i64.mul"@.len() == 7 && "i64.mul"@[1] == '6' && "i64.mul"@[4] == 'm' && "i64.mul"@[5] == 'u');
    assert("i32.mul"@.len() == 7 && "i32.mul"@[1] == '3' && "i32.mul"@[4] == 'm' && "i32.mul"@[5] == 'u');
    assert("i64.div_s"@.len() == 9 && "i64.div_s"@[1] == '6' && "i64.div_s"@[4] == 'd' && "i64.div_s"@[5] == 'i');
    assert("i32.div_s"@.len() == 9 && "i32.div_s"@[1] == '3' && "i32.div_s"@[4] == 'd' && "i32.div_s"@[5] == 'i');
    assert("i64.rem_s"@.len() == 9 && "i64.rem_s"@[1] == '6' && "i64.rem_s"@[4] == 'r' && "i64.rem_s"@[5] == 'e');
    assert("i32.rem_s"@.len() == 9 && "i32.rem_s"@[1] == '3' && "i32.rem_s"@[4] == 'r' && "i32.rem_s"@[5] == 'e');
    assert("i64.eq"@.len() == 6 && "i64.eq"@[1] == '6' && "i64.eq"@[4] == 'e' && "i64.eq"@[5] == 'q');
    assert("i32.eq"@.len() == 6 && "i32.eq"@[1] == '3' && "i32.eq"@[4] == 'e' && "i32.eq"@[5] == 'q');
    assert("i64.ne"@.len() == 6 && "i64.ne"@[1] == '6' && "i64.ne"@[4] == 'n' && "i64.ne"@[5] == 'e');
    assert("i32.ne"@.len() == 6 && "i32.ne"@[1] == '3' && "i32.ne"@[4] == 'n' && "i32.ne"@[5] == 'e');
    assert("i64.lt_s"@.len() == 8 && "i64.lt_s"@[1] == '6' && "i64.lt_s"@[4] == 'l' && "i64.lt_s"@[5] == 't');
    assert("i32.lt_s"@.len() == 8 && "i32.lt_s"@[1] == '3' && "i32.lt_s"@[4] == 'l' && "i32.lt_s"@[5] == 't');
    assert("i64.gt_s"@.len() == 8 && "i64.gt_s"@[1] == '6' && "i64.gt_s"@[4] == 'g' && "i64.gt_s"@[5] == 't');
    assert("i32.gt_s"@.len() == 8 && "i32.gt_s"@[1] == '3' && "i32.gt_s"@[4] == 'g' && "i32.gt_s"@[5] == 't');
    assert("i64.le_s"@.len() == 8 && "i64.le_s"@[1] == '6' && "i64.le_s"@[4] == 'l' && "i64.le_s"@[5] == 'e');
    assert("i32.le_s"@.len() == 8 && "i32.le_s"@[1] == '3' && "i32.le_s"@[4] == 'l' && "i32.le_s"@[5] == 'e');
    assert("i64.ge_s"@.len() == 8 && "i64.ge_s"@[1] == '6' && "i64.ge_s"@[4] == 'g' && "i64.ge_s"@[5] == 'e');
    assert("i32.ge_s"@.len() == 8 && "i32.ge_s"@[1] == '3' && "i32.ge_s"@[4] == 'g' && "i32.ge_s"@[5] == 'e');
    assert("i64.and"@.len() == 7 && "i64.and"@[1] == '6' && "i64.and"@[4] == 'a' && "i64.and"@[5] == 'n');
    assert("i32.and"@.len() == 7 && "i32.and"@[1] == '3' && "i32.and"@[4] == 'a' && "i32.and"@[5] == 'n');
    assert("i64.or"@.len() == 6 && "i64.or"@[1] == '6' && "i64.or"@[4] == 'o' && "i64.or"@[5] == 'r');
    assert("i32.or"@.len() == 6 && "i32.or"@[1] == '3' && "i32.or"@[4] == 'o' && "i32.or"@[5] == 'r');
    assert(binop_text(op, t).take(4) =~= type_prefix(if op is And || op is Or { ValTy::I32 } else { t }));
}

/// The instruction of a binary operator on operands of type `t`.
pub fn binop_instr(op: IrBinOp, t: ValTy) -> (s: &'static str)
    ensures
        s@ == binop_text(op, t),
{
    match op {
        IrBinOp::Add => match t { ValTy::I64 => "i64.add", ValTy::I32 => "i32.add" },
        IrBinOp::Sub => match t { ValTy::I64 => "i64.sub", ValTy::I32 => "i32.sub" },
        IrBinOp::Mul => match t { ValTy::I64 => "i64.mul", ValTy::I32 => "i32.mul" },
        IrBinOp::Div => match t { ValTy::I64 => "i64.div_s", ValTy::I32 => "i32.div_s" },
        IrBinOp::Mod => match t { ValTy::I64 => "i64.rem_s", ValTy::I32 => "i32.rem_s" },
        IrBinOp::Eq => match t { ValTy::I64 => "i64.eq", ValTy::I32 => "i32.eq" },
        IrBinOp::Ne => match t { ValTy::I64 => "i64.ne", ValTy::I32 => "i32.ne" },
        IrBinOp::Lt => match t { ValTy::I64 => "i64.lt_s", ValTy::I32 => "i32.lt_s" },
        IrBinOp::Gt => match t { ValTy::I64 => "i64.gt_s", ValTy::I32 => "i32.gt_s" },
        IrBinOp::Le => match t { ValTy::I64 => "i64.le_s", ValTy::I32 => "i32.le_s" },
        IrBinOp::Ge => match t { ValTy::I64 => "i64.ge_s", ValTy::I32 => "i32.ge_s" },
        IrBinOp::And => "i32.and",
        IrBinOp::Or => "i32.or",
    }
}

/// Lower-case hexadecimal digits, without leading zeros.
pub open spec fn hex_text(n: nat) -> Seq<char>
    decreases n,
{
    if n < 16 {
        seq![hex_digit(n)]
    } else {
        hex_text(n / 16).push(hex_digit(n % 16))
    }
}

/// `char::escape_default`: tab, return, newline, backslash and both quotes
/// escaped with a backslash, printable ASCII as it is, anything else as
/// `\u{..}`.
pub open spec fn esc_char(c: char) -> Seq<char> {
    if c == '\t' {
        seq!['\\', 't']
    } else if c == '\r' {
        seq!['\\', 'r']
    } else if c == '\n' {
        seq!['\\', 'n']
    } else if c == '\\' || c == '\'' || c == '"' {
        seq!['\\', c]
    } else if 0x20 <= (c as u32) <= 0x7e {
        seq![c]
    } else {
        seq!['\\', 'u', '{'] + hex_text(c as u32 as nat) + seq!['}']
    }
}

/// `str::escape_default`.
pub open spec fn esc(s: Seq<char>) -> Seq<char>
    decreases s.len(),
{
    if s.len() == 0 {
        Seq::empty()
    } else {
        esc(s.drop_last()) + esc_char(s.last())
    }
}

/// The offset of a pooled string (0 when absent).
pub open spec fn pool_off(c: WatCtx, s: Seq<char>) -> u32 {
    match lookup(c.pool, s) {
        Some(o) => o,
        None => 0,
    }
}

/// A store of `v` into the frame slot at `off`.
pub open spec fn frame_store(off: u32, v: Seq<char>) -> Seq<char> {
    if off == 0 {
        "(i32.store (local.get $__gc_frame) "@ + v + ")"@
    } else {
        "(i32.store offset="@ + dec(off as nat) + " (local.get $__gc_frame) "@ + v + ")"@
    }
}

/// Restoring the shadow stack, when the function has a frame.
pub open spec fn cleanup_s(st: WatSt) -> WatSt {
    if st.frame_size > 0 {
        let st = comment_s(st, "Restore GC shadow stack"@);
        ln_s(st, "(global.set $__gc_shadow_ptr (local.get $__gc_frame))"@)
    } else {
        st
    }
}

/// The next node local is taken.
pub open spec fn bump_node(st: WatSt) -> WatSt {
    WatSt { node_idx: if st.node_idx < usize::MAX { st.node_idx + 1 } else { st.node_idx }, ..st }
}

/// The next loop label is taken.
pub open spec fn bump_loop(st: WatSt) -> WatSt {
    WatSt { loop_idx: if st.loop_idx < usize::MAX { st.loop_idx + 1 } else { st.loop_idx }, ..st }
}

/// The comment text of a string literal.
pub open spec fn str_note(off: u32, s: Seq<char>) -> Seq<char> {
    "i32.const "@ + dec(off as nat) + "  ;; \""@ + esc(s) + "\""@
}

/// An expression: the state after it, and whether it leaves a value.
pub open spec fn expr_s(c: WatCtx, st: WatSt, l: Locals, e: SpecIrExpr) -> (WatSt, bool)
    decreases e,
{
    match e {
        SpecIrExpr::Int(n) => (ln_s(st, "i64.const "@ + int_text(n)), true),
        SpecIrExpr::Bool(b) => (ln_s(st, if b { "i32.const 1"@ } else { "i32.const 0"@ }), true),
        SpecIrExpr::Str(s) => (ln_s(st, str_note(pool_off(c, s), s)), true),
        SpecIrExpr::Local(n) => if lookup(st.frame, n) is Some {
            (ln_s(st, "(call $gc_reload_if_forwarded (local.get $"@ + n + "))"@), true)
        } else {
            (ln_s(st, "local.get $"@ + n), true)
        },
        SpecIrExpr::SelfRef => (ln_s(st, "(call $gc_reload_if_forwarded (local.get $self))"@), true),
        SpecIrExpr::Field { receiver, name } => {
            let st = expr_s(c, st, l, *receiver).0;
            let (off, vt) = fslot(c, st.current_class, name);
            (ln_s(st, vt.access(".load"@, off)), true)
        },
        SpecIrExpr::Bin { op, lhs, rhs } => {
            let lt = vt_of(c, st.current_class, l, *lhs);
            let st = expr_s(c, st, l, *lhs).0;
            let st = expr_s(c, st, l, *rhs).0;
            (ln_s(st, binop_text(op, lt)), true)
        },
        SpecIrExpr::Unary { op, operand } => match op {
            IrUnOp::Not => (ln_s(expr_s(c, st, l, *operand).0, "i32.eqz"@), true),
            IrUnOp::Neg => (ln_s(expr_s(c, ln_s(st, "i64.const 0"@), l, *operand).0, "i64.sub"@), true),
        },
        SpecIrExpr::Call { receiver, method, args } => {
            let st = expr_s(c, st, l, *receiver).0;
            let st = exprs_s(c, st, l, args);
            let cls = st.current_class;
            (ln_s(st, "call $"@ + cls + "_"@ + method), !c.void_methods.contains((cls, method)))
        },
        SpecIrExpr::Invoke { callee, args } => {
            let st = exprs_s(c, st, l, args);
            (ln_s(st, "call $"@ + callee + "_new"@), true)
        },
        SpecIrExpr::Node { tag, children } => {
            let nl = "$__node_"@ + dec(st.node_idx);
            let st = bump_node(st);
            let st = ln_s(st, "i32.const "@ + dec(pool_off(c, tag) as nat) + "  ;; tag \""@ + tag + "\""@);
            let st = ln_s(st, "call $env_dom_create_element"@);
            let st = ln_s(st, "local.set "@ + nl);
            let st = children_s(c, st, l, nl, children);
            (ln_s(st, "local.get "@ + nl), true)
        },
        SpecIrExpr::Closure { .. } => (ln_s(st, "i32.const 0  ;; closure (function-references not yet supported)"@), true),
        SpecIrExpr::Await(inner) => (expr_s(c, st, l, *inner).0, true),
        SpecIrExpr::List(_) => (ln_s(st, "i32.const 0  ;; list (not yet supported in WASM backend)"@), true),
        SpecIrExpr::DynamicImport(_) => (
            ln_s(st, "i32.const 0  ;; dynamic import (not yet supported in WASM backend)"@),
            true,
        ),
    }
}

/// Expressions in order.
pub open spec fn exprs_s(c: WatCtx, st: WatSt, l: Locals, es: Seq<SpecIrExpr>) -> WatSt
    decreases es,
{
    if es.len() == 0 {
        st
    } else {
        exprs_s(c, expr_s(c, st, l, es[0]).0, l, es.drop_first())
    }
}

/// The children of a DOM node: a string sets its text, anything else that
/// leaves a value is appended to it.
pub open spec fn children_s(c: WatCtx, st: WatSt, l: Locals, nl: Seq<char>, cs: Seq<SpecIrExpr>) -> WatSt
    decreases cs,
{
    if cs.len() == 0 {
        st
    } else {
        let st = match cs[0] {
            SpecIrExpr::Str(s) => {
                let st = ln_s(st, "local.get "@ + nl + "  ;; element"@);
                let st = ln_s(st, str_note(pool_off(c, s), s));
                ln_s(st, "call $env_dom_set_text_content"@)
            },
            _ => {
                let st = ln_s(st, "local.get "@ + nl + "  ;; parent"@);
                let (st, p) = expr_s(c, st, l, cs[0]);
                if p { ln_s(st, "call $env_dom_append_child"@) } else { st }
            },
        };
        children_s(c, st, l, nl, cs.drop_first())
    }
}

/// Coercing an `i64` condition to a boolean.
pub open spec fn coerce_s(st: WatSt, t: ValTy, note: bool) -> WatSt {
    if t == ValTy::I64 {
        ln_s(ln_s(st, "i64.const 0"@), if note { "i64.ne  ;; coerce i64 to bool (i32)"@ } else { "i64.ne"@ })
    } else {
        st
    }
}

/// A statement.
pub open spec fn stmt_s(c: WatCtx, st: WatSt, l: Locals, s: SpecIrStmt) -> WatSt
    decreases s,
{
    match s {
        SpecIrStmt::Let { name, ty, init } => {
            let st = expr_s(c, st, l, init).0;
            let st = ln_s(st, "local.set $"@ + name);
            if crate::wasm_layout::val_of(ty) == ValTy::I32 && lookup(st.frame, name) is Some {
                ln_s(st, frame_store(lookup(st.frame, name)->0, "(local.get $"@ + name + ")"@))
            } else {
                st
            }
        },
        SpecIrStmt::Assign { target, value } => match target {
            SpecIrExpr::Field { receiver, name } => {
                let (off, vt) = fslot(c, st.current_class, name);
                if vt == ValTy::I32 {
                    let st = expr_s(c, st, l, *receiver).0;
                    let st = ln_s(st, "local.tee $__wb_obj"@);
                    let st = expr_s(c, st, l, value).0;
                    let st = ln_s(st, "local.tee $__wb_val"@);
                    let st = ln_s(st, "call $gc_write_barrier"@);
                    let st = ln_s(st, "local.get $__wb_obj"@);
                    let st = ln_s(st, "local.get $__wb_val"@);
                    ln_s(st, vt.access(".store"@, off))
                } else {
                    let st = expr_s(c, st, l, *receiver).0;
                    let st = expr_s(c, st, l, value).0;
                    ln_s(st, vt.access(".store"@, off))
                }
            },
            _ => ln_s(expr_s(c, st, l, value).0, "drop  ;; assign to non-field target"@),
        },
        SpecIrStmt::Return(None) => ln_s(cleanup_s(st), "return"@),
        SpecIrStmt::Return(Some(e)) => {
            let st = expr_s(c, st, l, e).0;
            let st = if st.frame_size > 0 {
                if st.ret_vt == Some(ValTy::I64) {
                    ln_s(cleanup_s(ln_s(st, "local.set $__rv_i64"@)), "local.get $__rv_i64"@)
                } else {
                    ln_s(cleanup_s(ln_s(st, "local.set $__rv_i32"@)), "local.get $__rv_i32"@)
                }
            } else {
                st
            };
            ln_s(st, "return"@)
        },
        SpecIrStmt::Discard(e) => {
            let (st, p) = expr_s(c, st, l, e);
            if p { ln_s(st, "drop"@) } else { st }
        },
        SpecIrStmt::If { cond, then_body, else_body } => {
            let st = expr_s(c, st, l, cond).0;
            let st = coerce_s(st, vt_of(c, st.current_class, l, cond), true);
            let st = ln_s(st, "if"@);
            let st = dec_s(stmts_s(c, inc_s(st), l, then_body));
            match else_body {
                Some(eb) => {
                    let st = ln_s(st, "else"@);
                    let st = dec_s(stmts_s(c, inc_s(st), l, eb));
                    ln_s(st, "end"@)
                },
                None => ln_s(st, "end"@),
            }
        },
        SpecIrStmt::While { cond, body } => {
            let idx = dec(st.loop_idx);
            let st = bump_loop(st);
            let st = ln_s(st, "block $brk_"@ + idx);
            let st = inc_s(st);
            let st = ln_s(st, "loop $lp_"@ + idx);
            let st = inc_s(st);
            let st = expr_s(c, st, l, cond).0;
            let st = coerce_s(st, vt_of(c, st.current_class, l, cond), false);
            let st = ln_s(st, "i32.eqz"@);
            let st = ln_s(st, "br_if $brk_"@ + idx);
            let st = stmts_s(c, st, l, body);
            let st = ln_s(st, "br $lp_"@ + idx);
            let st = dec_s(st);
            let st = ln_s(st, "end"@);
            let st = dec_s(st);
            ln_s(st, "end"@)
        },
        SpecIrStmt::For { var, iter, body } => {
            let idx = dec(st.loop_idx);
            let st = bump_loop(st);
            let st = comment_s(st, "for "@ + var + " in iter — iterator needs JS interop"@);
            let st = expr_s(c, st, l, iter).0;
            let st = ln_s(st, "drop  ;; discard iterator (JS-managed)"@);
            let st = ln_s(st, "block $brk_"@ + idx);
            let st = inc_s(st);
            let st = ln_s(st, "loop $lp_"@ + idx);
            let st = inc_s(st);
            let st = comment_s(st, "loop body"@);
            let st = stmts_s(c, st, l, body);
            let st = ln_s(st, "br $lp_"@ + idx);
            let st = dec_s(st);
            let st = ln_s(st, "end"@);
            let st = dec_s(st);
            ln_s(st, "end"@)
        },
        SpecIrStmt::Break => ln_s(st, "br $brk_"@ + dec(if st.loop_idx > 0 { (st.loop_idx - 1) as nat } else { 0 })),
        SpecIrStmt::Continue => ln_s(st, "br $lp_"@ + dec(if st.loop_idx > 0 { (st.loop_idx - 1) as nat } else { 0 })),
    }
}

/// Statements in order.
pub open spec fn stmts_s(c: WatCtx, st: WatSt, l: Locals, ss: Seq<SpecIrStmt>) -> WatSt
    decreases ss,
{
    if ss.len() == 0 {
        st
    } else {
        stmts_s(c, stmt_s(c, st, l, ss[0]), l, ss.drop_first())
    }
}

/// One view per expression, in order.
pub proof fn lemma_ir_exprs_view(v: Seq<IrExpr>)
    ensures
        ir_exprs_view(v).len() == v.len(),
        forall|i: int| 0 <= i < v.len() ==> #[trigger] ir_exprs_view(v)[i] == v[i]@,
    decreases v.len(),
{
    if v.len() > 0 {
        lemma_ir_exprs_view(v.drop_last());
        assert forall|i: int| 0 <= i < v.len() implies #[trigger] ir_exprs_view(v)[i] == v[i]@ by {
            if i < v.len() - 1 {
                assert(v.drop_last()[i] == v[i]);
            }
        }
    }
}

/// One view per statement, in order.
pub proof fn lemma_ir_stmts_view(v: Seq<IrStmt>)
    ensures
        ir_stmts_view(v).len() == v.len(),
        forall|i: int| 0 <= i < v.len() ==> #[trigger] ir_stmts_view(v)[i] == v[i]@,
    decreases v.len(),
{
    if v.len() > 0 {
        lemma_ir_stmts_view(v.drop_last());
        assert forall|i: int| 0 <= i < v.len() implies #[trigger] ir_stmts_view(v)[i] == v[i]@ by {
            if i < v.len() - 1 {
                assert(v.drop_last()[i] == v[i]);
            }
        }
    }
}

/// Locals as plain values.
pub open spec fn locals_v(v: Seq<(String, ValTy)>) -> Locals {
    v.map_values(|e: (String, ValTy)| (e.0@, e.1))
}

/// The value type of a local.
pub fn local_type(v: &Vec<(String, ValTy)>, k: &str) -> (r: Option<ValTy>)
    ensures
        r == lookup(locals_v(v@), k@),
{
    let ghost m = locals_v(v@);
    let mut i: usize = v.len();
    assert(m.take(i as int) =~= m);
    while i > 0
        invariant
            i <= v.len(),
            m == locals_v(v@),
            lookup(m, k@) == lookup(m.take(i as int), k@),
        decreases i,
    {
        assert(m.take(i as int).drop_last() =~= m.take(i - 1));
        if str_eq(v[i - 1].0.as_str(), k) {
            return Some(v[i - 1].1);
        }
        i = i - 1;
    }
    None
}

/// The value of the last entry named `k`.
pub fn named_get(v: &Vec<(String, u32)>, k: &str) -> (r: Option<u32>)
    ensures
        r == lookup(super::named_u32(v@), k@),
{
    let ghost m = super::named_u32(v@);
    let mut i: usize = v.len();
    assert(m.take(i as int) =~= m);
    while i > 0
        invariant
            i <= v.len(),
            m == super::named_u32(v@),
            lookup(m, k@) == lookup(m.take(i as int), k@),
        decreases i,
    {
        assert(m.take(i as int).drop_last() =~= m.take(i - 1));
        if str_eq(v[i - 1].0.as_str(), k) {
            return Some(v[i - 1].1);
        }
        i = i - 1;
    }
    None
}

/// Appends the hexadecimal digits of `n`.
pub fn push_hex(out: &mut Vec<char>, n: u32)
    ensures
        final(out)@ == old(out)@ + hex_text(n as nat),
    decreases n,
{
    if n >= 16 {
        push_hex(out, n / 16);
    }
    let d = n % 16;
    let c = if d < 10 { ((48 + d) as u8) as char } else { ((87 + d) as u8) as char };
    out.push(c);
    assert(out@ =~= old(out)@ + hex_text(n as nat));
}

/// Appends `str::escape_default` of `s`.
pub fn push_esc(out: &mut Vec<char>, s: &Vec<char>)
    ensures
        final(out)@ == old(out)@ + esc(s@),
{
    let mut i: usize = 0;
    while i < s.len()
        invariant
            i <= s.len(),
            out@ == old(out)@ + esc(s@.take(i as int)),
        decreases s.len() - i,
    {
        let c = s[i];
        assert(s@.take(i + 1).drop_last() =~= s@.take(i as int));
        let ghost before = out@;
        if c == '\t' {
            out.push('\\');
            out.push('t');
        } else if c == '\r' {
            out.push('\\');
            out.push('r');
        } else if c == '\n' {
            out.push('\\');
            out.push('n');
        } else if c == '\\' || c == '\'' || c == '"' {
            out.push('\\');
            out.push(c);
        } else if 0x20 <= (c as u32) && (c as u32) <= 0x7e {
            out.push(c);
        } else {
            out.push('\\');
            out.push('u');
            out.push('{');
            push_hex(out, c as u32);
            out.push('}');
        }
        assert(out@ =~= before + esc_char(c));
        assert(out@ =~= old(out)@ + esc(s@.take(i + 1)));
        i = i + 1;
    }
    assert(s@.take(s.len() as int) =~= s@);
}

/// The line of a string literal.
fn str_line(off: u32, s: &Vec<char>) -> (v: Vec<char>)
    ensures
        v@ == str_note(off, s@),
{
    let mut v: Vec<char> = Vec::new();
    push_str(&mut v, "i32.const ");
    push_decimal(&mut v, off as u64);
    push_str(&mut v, "  ;; \"");
    push_esc(&mut v, s);
    push_str(&mut v, "\"");
    assert(v@ =~= str_note(off, s@));
    v
}

/// A store into the frame slot at `off`.
pub fn frame_store_str(off: u32, v: &Vec<char>) -> (r: Vec<char>)
    ensures
        r@ == frame_store(off, v@),
{
    let mut r: Vec<char> = Vec::new();
    if off == 0 {
        push_str(&mut r, "(i32.store (local.get $__gc_frame) ");
    } else {
        push_str(&mut r, "(i32.store offset=");
        push_decimal(&mut r, off as u64);
        push_str(&mut r, " (local.get $__gc_frame) ");
    }
    push_chars(&mut r, v);
    push_str(&mut r, ")");
    assert(r@ =~= frame_store(off, v@));
    r
}

/// `a` followed by `s`.
fn pre(a: &str, s: &Vec<char>) -> (v: Vec<char>)
    ensures
        v@ == a@ + s@,
{
    let mut v: Vec<char> = Vec::new();
    push_str(&mut v, a);
    push_chars(&mut v, s);
    assert(v@ =~= a@ + s@);
    v
}

impl WatGen {
    /// The offset and value type of field `name` of class `cls`.
    pub fn field_slot(&self, cls: &str, name: &str) -> (r: (u32, ValTy))
        ensures
            r == fslot(self.ctx(), cls@, name@),
    {
        let ghost m = self.ctx().layouts;
        let mut i: usize = self.layouts.len();
        assert(m.take(i as int) =~= m);
        while i > 0
            invariant
                i <= self.layouts.len(),
                m == self.ctx().layouts,
                lookup(m, cls@) == lookup(m.take(i as int), cls@),
            decreases i,
        {
            assert(m.take(i as int).drop_last() =~= m.take(i - 1));
            if str_eq(self.layouts[i - 1].0.as_str(), cls) {
                match self.layouts[i - 1].1.get(name) {
                    Some((o, v)) => return (o, v),
                    None => return (0, ValTy::I32),
                }
            }
            i = i - 1;
        }
        (0, ValTy::I32)
    }

    /// Whether `cls.method` returns nothing.
    pub fn is_void(&self, cls: &str, method: &str) -> (r: bool)
        ensures
            r == self.ctx().void_methods.contains((cls@, method@)),
    {
        let ghost m = self.ctx().void_methods;
        let mut i: usize = 0;
        while i < self.void_methods.len()
            invariant
                i <= self.void_methods.len(),
                m == self.ctx().void_methods,
                forall|j: int| 0 <= j < i ==> m[j] != (cls@, method@),
            decreases self.void_methods.len() - i,
        {
            if str_eq(self.void_methods[i].0.as_str(), cls) && str_eq(self.void_methods[i].1.as_str(), method) {
                assert(m[i as int] == (cls@, method@));
                return true;
            }
            i = i + 1;
        }
        assert(!m.contains((cls@, method@)));
        false
    }

    /// The value type an expression leaves.
    pub fn infer_valtype(&self, e: &IrExpr, locals: &Vec<(String, ValTy)>) -> (t: ValTy)
        ensures
            t == vt_of(self.ctx(), self.current_class@, locals_v(locals@), e@),
        decreases e,
    {
        match e {
            IrExpr::Int(_) => ValTy::I64,
            IrExpr::Local(n) => match local_type(locals, n.as_str()) {
                Some(v) => v,
                None => ValTy::I32,
            },
            IrExpr::Field { name, .. } => self.field_slot(self.current_class.as_str(), name.as_str()).1,
            IrExpr::Bin { op, lhs, .. } => {
                if *op == IrBinOp::Add || *op == IrBinOp::Sub || *op == IrBinOp::Mul || *op == IrBinOp::Div
                    || *op == IrBinOp::Mod {
                    self.infer_valtype(lhs, locals)
                } else {
                    ValTy::I32
                }
            },
            IrExpr::Unary { op, .. } => match op {
                IrUnOp::Not => ValTy::I32,
                IrUnOp::Neg => ValTy::I64,
            },
            _ => ValTy::I32,
        }
    }

    /// Restores the shadow stack before leaving a function with a frame.
    pub fn emit_frame_cleanup(&mut self)
        ensures
            final(self).st() == cleanup_s(old(self).st()),
            final(self).ctx() == old(self).ctx(),
    {
        if self.gc_frame_size > 0 {
            self.comment_str("Restore GC shadow stack");
            self.ln_str("(global.set $__gc_shadow_ptr (local.get $__gc_frame))");
        }
    }

    /// Emits an expression; true when it leaves a value.
    #[verifier::loop_isolation(false)]
    pub fn emit_expr(&mut self, e: &IrExpr, locals: &Vec<(String, ValTy)>) -> (p: bool)
        ensures
            (final(self).st(), p) == expr_s(old(self).ctx(), old(self).st(), locals_v(locals@), e@),
            final(self).ctx() == old(self).ctx(),
        decreases e,
    {
        let ghost c = self.ctx();
        let ghost l = locals_v(locals@);
        match e {
            IrExpr::Int(n) => {
                let mut t: Vec<char> = Vec::new();
                push_str(&mut t, "i64.const ");
                push_int(&mut t, *n);
                assert(t@ =~= "i64.const "@ + int_text(*n));
                self.ln(&t);
                true
            },
            IrExpr::Bool(b) => {
                if *b {
                    self.ln_str("i32.const 1");
                } else {
                    self.ln_str("i32.const 0");
                }
                true
            },
            IrExpr::Str(sv) => {
                let off = match super::sections::pool_offset(self, sv.as_str()) {
                    Some(o) => o,
                    None => 0,
                };
                self.ln(&str_line(off, &chars_vec(sv.as_str())));
                true
            },
            IrExpr::Local(n) => {
                let nv = chars_vec(n.as_str());
                if named_get(&self.gc_ptr_frame, n.as_str()).is_some() {
                    self.ln(&t_txt("(call $gc_reload_if_forwarded (local.get $", &nv, "))"));
                } else {
                    self.ln(&pre("local.get $", &nv));
                }
                true
            },
            IrExpr::SelfRef => {
                self.ln_str("(call $gc_reload_if_forwarded (local.get $self))");
                true
            },
            IrExpr::Field { receiver, name } => {
                self.emit_expr(receiver, locals);
                let (off, vt) = self.field_slot(self.current_class.as_str(), name.as_str());
                self.ln(&chars_vec(vt.load(off).as_str()));
                true
            },
            IrExpr::Bin { op, lhs, rhs } => {
                let lt = self.infer_valtype(lhs, locals);
                self.emit_expr(lhs, locals);
                self.emit_expr(rhs, locals);
                self.ln_str(binop_instr(*op, lt));
                true
            },
            IrExpr::Unary { op, operand } => {
                match op {
                    IrUnOp::Not => {
                        self.emit_expr(operand, locals);
                        self.ln_str("i32.eqz");
                    },
                    IrUnOp::Neg => {
                        self.ln_str("i64.const 0");
                        self.emit_expr(operand, locals);
                        self.ln_str("i64.sub");
                    },
                }
                true
            },
            IrExpr::Call { receiver, method, args } => {
                self.emit_expr(receiver, locals);
                self.emit_args(args, locals);
                let cls = chars_vec(self.current_class.as_str());
                let mut t: Vec<char> = Vec::new();
                push_str(&mut t, "call $");
                push_chars(&mut t, &cls);
                push_str(&mut t, "_");
                push_chars(&mut t, &chars_vec(method.as_str()));
                assert(t@ =~= "call $"@ + cls@ + "_"@ + method@);
                let v = self.is_void(self.current_class.as_str(), method.as_str());
                self.ln(&t);
                !v
            },
            IrExpr::Invoke { callee, args } => {
                self.emit_args(args, locals);
                self.ln(&t_txt("call $", &chars_vec(callee.as_str()), "_new"));
                true
            },
            IrExpr::Node { tag, children } => {
                let tag_off = match super::sections::pool_offset(self, tag.as_str()) {
                    Some(o) => o,
                    None => 0,
                };
                let mut nl: Vec<char> = Vec::new();
                push_str(&mut nl, "$__node_");
                push_decimal(&mut nl, self.node_idx as u64);
                assert(nl@ =~= "$__node_"@ + dec(old(self).node_idx as nat));
                if self.node_idx < usize::MAX {
                    self.node_idx = self.node_idx + 1;
                }
                let tv = chars_vec(tag.as_str());
                let mut t: Vec<char> = Vec::new();
                push_str(&mut t, "i32.const ");
                push_decimal(&mut t, tag_off as u64);
                push_str(&mut t, "  ;; tag \"");
                push_chars(&mut t, &tv);
                push_str(&mut t, "\"");
                assert(t@ =~= "i32.const "@ + dec(tag_off as nat) + "  ;; tag \""@ + tag@ + "\""@);
                self.ln(&t);
                self.ln_str("call $env_dom_create_element");
                self.ln(&pre("local.set ", &nl));
                self.emit_children(&nl, children, locals);
                self.ln(&pre("local.get ", &nl));
                true
            },
            IrExpr::Closure { .. } => {
                self.ln_str("i32.const 0  ;; closure (function-references not yet supported)");
                true
            },
            IrExpr::Await(inner) => {
                self.emit_expr(inner, locals);
                true
            },
            IrExpr::List(_) => {
                self.ln_str("i32.const 0  ;; list (not yet supported in WASM backend)");
                true
            },
            IrExpr::DynamicImport(_) => {
                self.ln_str("i32.const 0  ;; dynamic import (not yet supported in WASM backend)");
                true
            },
        }
    }

    /// Emits expressions in order.
    #[verifier::loop_isolation(false)]
    pub fn emit_args(&mut self, args: &Vec<IrExpr>, locals: &Vec<(String, ValTy)>)
        ensures
            final(self).st() == exprs_s(old(self).ctx(), old(self).st(), locals_v(locals@), ir_exprs_view(args@)),
            final(self).ctx() == old(self).ctx(),
        decreases args,
    {
        let ghost av = ir_exprs_view(args@);
        proof {
            lemma_ir_exprs_view(args@);
        }
        let mut i: usize = 0;
        assert(av.skip(0) =~= av);
        while i < args.len()
            invariant
                i <= args.len(),
                av == ir_exprs_view(args@),
                av.len() == args.len(),
                self.ctx() == old(self).ctx(),
                exprs_s(old(self).ctx(), old(self).st(), locals_v(locals@), av) == exprs_s(
                    old(self).ctx(),
                    self.st(),
                    locals_v(locals@),
                    av.skip(i as int),
                ),
            decreases args.len() - i,
        {
            proof {
                assert(decreases_to!(args => args@));
                assert(decreases_to!(args@ => args@[i as int]));
                assert(av.skip(i as int)[0] == args@[i as int]@);
                assert(av.skip(i as int).drop_first() =~= av.skip(i + 1));
            }
            self.emit_expr(&args[i], locals);
            i = i + 1;
        }
        assert(av.skip(i as int) =~= Seq::<SpecIrExpr>::empty());
    }

    /// Emits the children of a DOM node held in local `nl`.
    #[verifier::loop_isolation(false)]
    pub fn emit_children(&mut self, nl: &Vec<char>, cs: &Vec<IrExpr>, locals: &Vec<(String, ValTy)>)
        ensures
            final(self).st() == children_s(old(self).ctx(), old(self).st(), locals_v(locals@), nl@, ir_exprs_view(cs@)),
            final(self).ctx() == old(self).ctx(),
        decreases cs,
    {
        let ghost av = ir_exprs_view(cs@);
        proof {
            lemma_ir_exprs_view(cs@);
        }
        let mut i: usize = 0;
        assert(av.skip(0) =~= av);
        while i < cs.len()
            invariant
                i <= cs.len(),
                av == ir_exprs_view(cs@),
                av.len() == cs.len(),
                self.ctx() == old(self).ctx(),
                children_s(old(self).ctx(), old(self).st(), locals_v(locals@), nl@, av) == children_s(
                    old(self).ctx(),
                    self.st(),
                    locals_v(locals@),
                    nl@,
                    av.skip(i as int),
                ),
            decreases cs.len() - i,
        {
            proof {
                assert(decreases_to!(cs => cs@));
                assert(decreases_to!(cs@ => cs@[i as int]));
                assert(av.skip(i as int)[0] == cs@[i as int]@);
                assert(av.skip(i as int).drop_first() =~= av.skip(i + 1));
            }
            match &cs[i] {
                IrExpr::Str(sv) => {
                    let off = match super::sections::pool_offset(self, sv.as_str()) {
                        Some(o) => o,
                        None => 0,
                    };
                    let mut t = pre("local.get ", nl);
                    push_str(&mut t, "  ;; element");
                    self.ln(&t);
                    self.ln(&str_line(off, &chars_vec(sv.as_str())));
                    self.ln_str("call $env_dom_set_text_content");
                },
                _ => {
                    let mut t = pre("local.get ", nl);
                    push_str(&mut t, "  ;; parent");
                    self.ln(&t);
                    let p = self.emit_expr(&cs[i], locals);
                    if p {
                        self.ln_str("call $env_dom_append_child");
                    }
                },
            }
            i = i + 1;
        }
        assert(av.skip(i as int) =~= Seq::<SpecIrExpr>::empty());
    }
}

/// `a`, the decimal digits of `n`.
fn pre_num(a: &str, n: usize) -> (v: Vec<char>)
    ensures
        v@ == a@ + dec(n as nat),
{
    let mut v: Vec<char> = Vec::new();
    push_str(&mut v, a);
    push_decimal(&mut v, n as u64);
    assert(v@ =~= a@ + dec(n as nat));
    v
}

impl WatGen {
    /// Coerces an `i64` condition to a boolean.
    fn emit_coerce(&mut self, t: ValTy, note: bool)
        ensures
            final(self).st() == coerce_s(old(self).st(), t, note),
            final(self).ctx() == old(self).ctx(),
    {
        if t == ValTy::I64 {
            self.ln_str("i64.const 0");
            if note {
                self.ln_str("i64.ne  ;; coerce i64 to bool (i32)");
            } else {
                self.ln_str("i64.ne");
            }
        }
    }

    /// Emits statements in order.
    #[verifier::loop_isolation(false)]
    pub fn emit_stmts(&mut self, ss: &Vec<IrStmt>, locals: &Vec<(String, ValTy)>)
        ensures
            final(self).st() == stmts_s(old(self).ctx(), old(self).st(), locals_v(locals@), ir_stmts_view(ss@)),
            final(self).ctx() == old(self).ctx(),
        decreases ss,
    {
        let ghost sv = ir_stmts_view(ss@);
        proof {
            lemma_ir_stmts_view(ss@);
        }
        let mut i: usize = 0;
        assert(sv.skip(0) =~= sv);
        while i < ss.len()
            invariant
                i <= ss.len(),
                sv == ir_stmts_view(ss@),
                sv.len() == ss.len(),
                self.ctx() == old(self).ctx(),
                stmts_s(old(self).ctx(), old(self).st(), locals_v(locals@), sv) == stmts_s(
                    old(self).ctx(),
                    self.st(),
                    locals_v(locals@),
                    sv.skip(i as int),
                ),
            decreases ss.len() - i,
        {
            proof {
                assert(decreases_to!(ss => ss@));
                assert(decreases_to!(ss@ => ss@[i as int]));
                assert(sv.skip(i as int)[0] == ss@[i as int]@);
                assert(sv.skip(i as int).drop_first() =~= sv.skip(i + 1));
            }
            self.emit_stmt(&ss[i], locals);
            i = i + 1;
        }
        assert(sv.skip(i as int) =~= Seq::<SpecIrStmt>::empty());
    }

    /// Emits one statement.
    #[verifier::loop_isolation(false)]
    #[verifier::spinoff_prover]
    #[verifier::rlimit(100)]
    pub fn emit_stmt(&mut self, s: &IrStmt, locals: &Vec<(String, ValTy)>)
        ensures
            final(self).st() == stmt_s(old(self).ctx(), old(self).st(), locals_v(locals@), s@),
            final(self).ctx() == old(self).ctx(),
        decreases s,
    {
        match s {
            IrStmt::Let { name, ty, init } => {
                self.emit_expr(init, locals);
                let nv = chars_vec(name.as_str());
                self.ln(&pre("local.set $", &nv));
                if crate::wasm_layout::ir_to_val(ty) == ValTy::I32 {
                    match named_get(&self.gc_ptr_frame, name.as_str()) {
                        Some(off) => {
                            let v = t_txt("(local.get $", &nv, ")");
                            self.ln(&frame_store_str(off, &v));
                        },
                        None => {},
                    }
                }
            },
            IrStmt::Assign { target, value } => {
                match target {
                    IrExpr::Field { receiver, name } => {
                        let (off, vt) = self.field_slot(self.current_class.as_str(), name.as_str());
                        if vt == ValTy::I32 {
                            self.emit_expr(receiver, locals);
                            self.ln_str("local.tee $__wb_obj");
                            self.emit_expr(value, locals);
                            self.ln_str("local.tee $__wb_val");
                            self.ln_str("call $gc_write_barrier");
                            self.ln_str("local.get $__wb_obj");
                            self.ln_str("local.get $__wb_val");
                            self.ln(&chars_vec(vt.store(off).as_str()));
                        } else {
                            self.emit_expr(receiver, locals);
                            self.emit_expr(value, locals);
                            self.ln(&chars_vec(vt.store(off).as_str()));
                        }
                    },
                    _ => {
                        self.emit_expr(value, locals);
                        self.ln_str("drop  ;; assign to non-field target");
                    },
                }
            },
            IrStmt::Return(None) => {
                self.emit_frame_cleanup();
                self.ln_str("return");
            },
            IrStmt::Return(Some(e)) => {
                self.emit_expr(e, locals);
                if self.gc_frame_size > 0 {
                    match self.current_return_vt {
                        Some(ValTy::I64) => {
                            self.ln_str("local.set $__rv_i64");
                            self.emit_frame_cleanup();
                            self.ln_str("local.get $__rv_i64");
                        },
                        _ => {
                            self.ln_str("local.set $__rv_i32");
                            self.emit_frame_cleanup();
                            self.ln_str("local.get $__rv_i32");
                        },
                    }
                }
                self.ln_str("return");
            },
            IrStmt::Discard(e) => {
                let p = self.emit_expr(e, locals);
                if p {
                    self.ln_str("drop");
                }
            },
            IrStmt::If { cond, then_body, else_body } => {
                self.emit_expr(cond, locals);
                let ct = self.infer_valtype(cond, locals);
                self.emit_coerce(ct, true);
                self.ln_str("if");
                self.inc();
                self.emit_stmts(then_body, locals);
                self.dec();
                match else_body {
                    Some(eb) => {
                        self.ln_str("else");
                        self.inc();
                        self.emit_stmts(eb, locals);
                        self.dec();
                        self.ln_str("end");
                    },
                    None => {
                        self.ln_str("end");
                    },
                }
            },
            IrStmt::While { cond, body } => {
                let idx = self.loop_idx;
                if self.loop_idx < usize::MAX {
                    self.loop_idx = self.loop_idx + 1;
                }
                self.ln(&pre_num("block $brk_", idx));
                self.inc();
                self.ln(&pre_num("loop $lp_", idx));
                self.inc();
                self.emit_expr(cond, locals);
                let ct = self.infer_valtype(cond, locals);
                self.emit_coerce(ct, false);
                self.ln_str("i32.eqz");
                self.ln(&pre_num("br_if $brk_", idx));
                self.emit_stmts(body, locals);
                self.ln(&pre_num("br $lp_", idx));
                self.dec();
                self.ln_str("end");
                self.dec();
                self.ln_str("end");
            },
            IrStmt::For { var, iter, body } => {
                let idx = self.loop_idx;
                if self.loop_idx < usize::MAX {
                    self.loop_idx = self.loop_idx + 1;
                }
                self.comment(&t_txt("for ", &chars_vec(var.as_str()), " in iter — iterator needs JS interop"));
                self.emit_expr(iter, locals);
                self.ln_str("drop  ;; discard iterator (JS-managed)");
                self.ln(&pre_num("block $brk_", idx));
                self.inc();
                self.ln(&pre_num("loop $lp_", idx));
                self.inc();
                self.comment_str("loop body");
                self.emit_stmts(body, locals);
                self.ln(&pre_num("br $lp_", idx));
                self.dec();
                self.ln_str("end");
                self.dec();
                self.ln_str("end");
            },
            IrStmt::Break => {
                let idx = if self.loop_idx > 0 { self.loop_idx - 1 } else { 0 };
                self.ln(&pre_num("br $brk_", idx));
            },
            IrStmt::Continue => {
                let idx = if self.loop_idx > 0 { self.loop_idx - 1 } else { 0 };
                self.ln(&pre_num("br $lp_", idx));
            },
        }
    }
}

} // verus!
