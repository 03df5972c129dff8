//! Classes in WAT: the shadow-stack frame of each function, the
//! constructor `$<Class>_new`, and one function per method.
use vstd::prelude::*;
use super::{WatGen, WatSt, WatCtx, blank_s, comment_s, dec_s, inc_s, ln_s, section_s, dec, push_chars, lookup, named_u32};
use super::sections::{t_num, t_txt};
use super::body::{
    Locals, locals_v, cleanup_s, frame_store, frame_store_str, stmts_s, lemma_ir_stmts_view, named_get,
};
use crate::wasm_layout::{ValTy, val_of, slot_find, HEADER_SIZE};
use crate::ir::{
    IrClass, IrClassKind, IrExpr, IrMethod, IrParam, IrStmt, IrType, SpecIrClass, SpecIrExpr, SpecIrMethod,
    SpecIrParam, SpecIrStmt, SpecIrType, ir_exprs_view, ir_stmts_view,
};
use crate::ast::views;
use crate::testgen::push_decimal;
use crate::text::{chars_vec, push_str, str_eq, string_from_chars};

verus! {

// ── Locals bound by `let` ───────────────────────────────────────────────────

/// Whether a local is already listed.
pub open spec fn has_name(acc: Locals, n: Seq<char>) -> bool {
    exists|i: int| 0 <= i < acc.len() && #[trigger] acc[i].0 == n
}

/// The `let` locals of a statement added to `acc`, first binding first.
pub open spec fn lets_stmt(s: SpecIrStmt, acc: Locals) -> Locals
    decreases s,
{
    match s {
        SpecIrStmt::Let { name, ty, .. } => if has_name(acc, name) { acc } else { acc.push((name, val_of(ty))) },
        SpecIrStmt::If { then_body, else_body, .. } => {
            let acc = lets_stmts(then_body, acc);
            match else_body {
                Some(eb) => lets_stmts(eb, acc),
                None => acc,
            }
        },
        SpecIrStmt::While { body, .. } => lets_stmts(body, acc),
        SpecIrStmt::For { body, .. } => lets_stmts(body, acc),
        _ => acc,
    }
}

/// The `let` locals of statements added to `acc`.
pub open spec fn lets_stmts(ss: Seq<SpecIrStmt>, acc: Locals) -> Locals
    decreases ss,
{
    if ss.len() == 0 {
        acc
    } else {
        lets_stmts(ss.drop_first(), lets_stmt(ss[0], acc))
    }
}

// ── DOM node locals ────────────────────────────────────────────────────────

/// `a + b`, saturating at `usize::MAX`.
pub open spec fn sat_add(a: nat, b: nat) -> nat {
    if a + b <= usize::MAX { a + b } else { usize::MAX as nat }
}

/// The DOM nodes an expression creates (saturating).
pub open spec fn nodes_expr(e: SpecIrExpr) -> nat
    decreases e,
{
    match e {
        SpecIrExpr::Node { children, .. } => sat_add(1, nodes_exprs(children)),
        SpecIrExpr::Bin { lhs, rhs, .. } => sat_add(nodes_expr(*lhs), nodes_expr(*rhs)),
        SpecIrExpr::Unary { operand, .. } => nodes_expr(*operand),
        SpecIrExpr::Field { receiver, .. } => nodes_expr(*receiver),
        SpecIrExpr::Call { receiver, args, .. } => sat_add(nodes_expr(*receiver), nodes_exprs(args)),
        SpecIrExpr::Invoke { args, .. } => nodes_exprs(args),
        SpecIrExpr::Closure { body, .. } => nodes_expr(*body),
        _ => 0,
    }
}

/// The DOM nodes of expressions (saturating).
pub open spec fn nodes_exprs(es: Seq<SpecIrExpr>) -> nat
    decreases es,
{
    if es.len() == 0 {
        0
    } else {
        sat_add(nodes_expr(es[0]), nodes_exprs(es.drop_first()))
    }
}

/// The DOM nodes a statement creates (saturating).
pub open spec fn nodes_stmt(s: SpecIrStmt) -> nat
    decreases s,
{
    match s {
        SpecIrStmt::Let { init, .. } => nodes_expr(init),
        SpecIrStmt::Discard(init) => nodes_expr(init),
        SpecIrStmt::Assign { target, value } => sat_add(nodes_expr(target), nodes_expr(value)),
        SpecIrStmt::Return(Some(e)) => nodes_expr(e),
        SpecIrStmt::If { cond, then_body, else_body } => sat_add(
            sat_add(nodes_expr(cond), nodes_stmts(then_body)),
            match else_body {
                Some(eb) => nodes_stmts(eb),
                None => 0,
            },
        ),
        SpecIrStmt::While { cond, body } => sat_add(nodes_expr(cond), nodes_stmts(body)),
        SpecIrStmt::For { iter, body, .. } => sat_add(nodes_expr(iter), nodes_stmts(body)),
        _ => 0,
    }
}

/// The DOM nodes of statements (saturating).
pub open spec fn nodes_stmts(ss: Seq<SpecIrStmt>) -> nat
    decreases ss,
{
    if ss.len() == 0 {
        0
    } else {
        sat_add(nodes_stmt(ss[0]), nodes_stmts(ss.drop_first()))
    }
}

// ── Shadow-stack frames ────────────────────────────────────────────────────

/// The next slot after `s` (stopping below `u32::MAX`).
pub open spec fn slot_add(s: u32) -> u32 {
    if s <= u32::MAX - 4 { (s + 4) as u32 } else { s }
}

/// The frame with the pointer parameters from `i` on added.
pub open spec fn frame_params(f: Seq<(Seq<char>, u32)>, size: u32, ps: Seq<Seq<char>>, i: int) -> (Seq<(Seq<char>, u32)>, u32)
    decreases ps.len() - i,
{
    if i >= ps.len() || i < 0 {
        (f, size)
    } else if lookup(f, ps[i]) is Some {
        frame_params(f, size, ps, i + 1)
    } else {
        frame_params(f.push((ps[i], size)), slot_add(size), ps, i + 1)
    }
}

/// The frame with the pointer locals from `i` on added.
pub open spec fn frame_lets(f: Seq<(Seq<char>, u32)>, size: u32, ls: Locals, i: int) -> (Seq<(Seq<char>, u32)>, u32)
    decreases ls.len() - i,
{
    if i >= ls.len() || i < 0 {
        (f, size)
    } else if ls[i].1 == ValTy::I32 && lookup(f, ls[i].0) is None {
        frame_lets(f.push((ls[i].0, size)), slot_add(size), ls, i + 1)
    } else {
        frame_lets(f, size, ls, i + 1)
    }
}

/// The frame of a function: `self` at slot 0, then the pointer parameters,
/// then the pointer `let` locals, 4 bytes each.
pub open spec fn frame_s(st: WatSt, ps: Seq<Seq<char>>, ls: Locals) -> WatSt {
    let (f1, s1) = frame_params(seq![("self"@, 0u32)], 4, ps, 0);
    let (f2, s2) = frame_lets(f1, s1, ls, 0);
    WatSt { frame: f2, frame_size: s2, ..st }
}

/// Zeroing the frame slots from `slot` on.
pub open spec fn zero_slots_s(st: WatSt, size: nat, slot: nat) -> WatSt
    decreases size + 4 - slot,
{
    if slot >= size {
        st
    } else {
        zero_slots_s(ln_s(st, frame_store(slot as u32, "(i32.const 0)"@)), size, slot + 4)
    }
}

/// The frame prologue: reserve the frame on the shadow stack and zero it.
pub open spec fn frame_setup_s(st: WatSt) -> WatSt {
    if st.frame_size == 0 {
        st
    } else {
        let st = comment_s(
            st,
            "GC v2 shadow stack frame ("@ + dec(st.frame_size as nat) + " bytes — "@ + dec((st.frame_size / 4) as nat)
                + " pointer locals)"@,
        );
        let st = ln_s(st, "(local.set $__gc_frame (global.get $__gc_shadow_ptr))"@);
        let st = ln_s(
            st,
            "(global.set $__gc_shadow_ptr (i32.add (global.get $__gc_shadow_ptr) (i32.const "@ + dec(st.frame_size as nat)
                + ")))"@,
        );
        zero_slots_s(st, st.frame_size as nat, 0)
    }
}

/// The frame is dropped after a function.
pub open spec fn end_frame(st: WatSt) -> WatSt {
    WatSt { frame: Seq::empty(), frame_size: 0, ret_vt: None, ..st }
}

/// The names of the pointer parameters.
pub open spec fn ptr_params(ps: Seq<SpecIrParam>) -> Seq<Seq<char>>
    decreases ps.len(),
{
    if ps.len() == 0 {
        Seq::empty()
    } else if val_of(ps.last().ty) == ValTy::I32 {
        ptr_params(ps.drop_last()).push(ps.last().name)
    } else {
        ptr_params(ps.drop_last())
    }
}

/// Frame stores of the pointer parameters, from `i` on.
pub open spec fn param_stores_s(st: WatSt, ps: Seq<SpecIrParam>, i: int) -> WatSt
    decreases ps.len() - i,
{
    if i >= ps.len() || i < 0 {
        st
    } else if val_of(ps[i].ty) == ValTy::I32 && lookup(st.frame, ps[i].name) is Some {
        param_stores_s(
            ln_s(st, frame_store(lookup(st.frame, ps[i].name)->0, "(local.get $"@ + ps[i].name + ")"@)),
            ps,
            i + 1,
        )
    } else {
        param_stores_s(st, ps, i + 1)
    }
}

// ── Texts ──────────────────────────────────────────────────────────────────

/// Texts joined with `sep`.
pub open spec fn join(ts: Seq<Seq<char>>, sep: Seq<char>) -> Seq<char>
    decreases ts.len(),
{
    if ts.len() == 0 {
        Seq::empty()
    } else if ts.len() == 1 {
        ts[0]
    } else {
        join(ts.drop_last(), sep) + sep + ts.last()
    }
}

/// The declaration of a parameter.
pub open spec fn param_decl(p: SpecIrParam) -> Seq<char> {
    "(param $"@ + p.name + " "@ + val_of(p.ty).name() + ")"@
}

/// The declarations of parameters.
pub open spec fn param_decls(ps: Seq<SpecIrParam>) -> Seq<Seq<char>> {
    Seq::new(ps.len(), |i: int| param_decl(ps[i]))
}

/// A parameter as the method comment shows it.
pub open spec fn param_note(p: SpecIrParam) -> Seq<char> {
    p.name + ": "@ + val_of(p.ty).name()
}

/// The name of a class kind.
pub open spec fn kind_text(k: IrClassKind) -> Seq<char> {
    match k {
        IrClassKind::Class => "Class"@,
        IrClassKind::Component => "Component"@,
        IrClassKind::Window => "Window"@,
    }
}

// ── Constructors ───────────────────────────────────────────────────────────

/// The stores of constructor parameters into the fields of the same name,
/// from `i` on (pointer stores go through the write barrier).
pub open spec fn field_inits_s(c: WatCtx, st: WatSt, cname: Seq<char>, ps: Seq<SpecIrParam>, i: int) -> WatSt
    decreases ps.len() - i,
{
    if i >= ps.len() || i < 0 {
        st
    } else {
        let p = ps[i];
        let vt = val_of(p.ty);
        let st = match lookup(c.layouts, cname) {
            Some(l) => match slot_find(l.slots, p.name) {
                Some((off, _)) => {
                    let st = if vt == ValTy::I32 {
                        ln_s(st, "(call $gc_write_barrier (local.get $self) (local.get $"@ + p.name + "))"@)
                    } else {
                        st
                    };
                    ln_s(st, "("@ + vt.access(".store"@, off as u32) + " (local.get $self) (local.get $"@ + p.name + "))"@)
                },
                None => st,
            },
            None => st,
        };
        field_inits_s(c, st, cname, ps, i + 1)
    }
}

/// The constructor `$<Class>_new`: allocate the object, keep it and the
/// pointer parameters in the frame, store the parameters into their fields,
/// run the constructor body, and return the object reloaded from the frame.
#[verifier::opaque]
pub open spec fn ctor_s(c: WatCtx, st: WatSt, cls: SpecIrClass) -> WatSt {
    let ps = cls.constructor_params;
    let tag: u32 = match lookup(c.class_tags, cls.name) {
        Some(t) => t,
        None => 0,
    };
    let size: u32 = match lookup(c.layouts, cls.name) {
        Some(l) => l.total,
        None => HEADER_SIZE,
    };
    let st = ln_s(
        st,
        if ps.len() == 0 {
            "(func $"@ + cls.name + "_new (result i32)"@
        } else {
            "(func $"@ + cls.name + "_new "@ + join(param_decls(ps), " "@) + " (result i32)"@
        },
    );
    let st = inc_s(st);
    let st = ln_s(st, "(local $self   i32)"@);
    let st = ln_s(st, "(local $__gc_frame i32)"@);
    let st = ln_s(st, "(local $__rv_i32   i32)"@);
    let st = ln_s(st, "(local $__wb_obj   i32)"@);
    let st = ln_s(st, "(local $__wb_val   i32)"@);
    let st = frame_s(st, ptr_params(ps), lets_stmts(cls.constructor_body, Seq::empty()));
    let st = frame_setup_s(st);
    let st = comment_s(st, "Allocate: "@ + dec(size as nat) + " bytes, tag="@ + dec(tag as nat));
    let st = ln_s(
        st,
        "(local.set $self (call $gc_alloc (i32.const "@ + dec(size as nat) + ") (i32.const "@ + dec(tag as nat) + ")))"@,
    );
    let st = ln_s(st, "(i32.store (local.get $__gc_frame) (local.get $self))"@);
    let st = param_stores_s(st, ps, 0);
    let st = field_inits_s(c, st, cls.name, ps, 0);
    let st = if cls.constructor_body.len() > 0 {
        let st = WatSt { current_class: cls.name, ret_vt: Some(ValTy::I32), ..st };
        stmts_s(c, st, lets_stmts(cls.constructor_body, seq![("self"@, ValTy::I32)]), cls.constructor_body)
    } else {
        st
    };
    let st = comment_s(st, "Return $self — GC-reloaded from frame in case of relocation"@);
    let st = ln_s(st, "(local.set $__rv_i32 (i32.load (local.get $__gc_frame)))"@);
    let st = cleanup_s(st);
    let st = ln_s(st, "(local.get $__rv_i32))"@);
    end_frame(dec_s(st))
}

// ── Methods ────────────────────────────────────────────────────────────────

/// Declarations of `let` locals, from `i` on.
pub open spec fn let_decls_s(st: WatSt, ls: Locals, i: int) -> WatSt
    decreases ls.len() - i,
{
    if i >= ls.len() || i < 0 {
        st
    } else {
        let_decls_s(ln_s(st, "(local $"@ + ls[i].0 + " "@ + ls[i].1.name() + ")"@), ls, i + 1)
    }
}

/// Declarations of the DOM node locals, from `i` up to `n`.
pub open spec fn node_decls_s(st: WatSt, n: nat, i: nat) -> WatSt
    decreases n - i,
{
    if i >= n {
        st
    } else {
        node_decls_s(ln_s(st, "(local $__node_"@ + dec(i) + " i32)"@), n, i + 1)
    }
}

/// The locals of a method: `self`, the parameters, the `let` locals and the
/// DOM node locals.
pub open spec fn method_locals(ps: Seq<SpecIrParam>, lets: Locals, n: nat) -> Locals {
    seq![("self"@, ValTy::I32)] + Seq::new(ps.len(), |i: int| (ps[i].name, val_of(ps[i].ty))) + lets + Seq::new(
        n,
        |i: int| ("__node_"@ + dec(i as nat), ValTy::I32),
    )
}

/// A method: the function `$<Class>_<method>` with `self` first, its
/// locals declared, the frame set up, the body, and the frame restored.
#[verifier::opaque]
pub open spec fn method_s(c: WatCtx, st: WatSt, cname: Seq<char>, m: SpecIrMethod) -> WatSt {
    let ps = m.params;
    let void = m.return_ty is Void;
    let result = if void { Seq::empty() } else { " (result "@ + val_of(m.return_ty).name() + ")"@ };
    let sig = if ps.len() == 0 {
        Seq::empty()
    } else {
        ", "@ + join(Seq::new(ps.len(), |i: int| param_note(ps[i])), ", "@)
    };
    let retn = if void { "void"@ } else { val_of(m.return_ty).name() };
    let st = comment_s(st, cname + "."@ + m.name + "(self"@ + sig + ") -> "@ + retn);
    let st = ln_s(
        st,
        "(func $"@ + cname + "_"@ + m.name + " "@ + join(seq!["(param $self i32)"@] + param_decls(ps), " "@) + result,
    );
    let st = inc_s(st);
    let lets = lets_stmts(m.body, Seq::empty());
    let st = let_decls_s(st, lets, 0);
    let n = nodes_stmts(m.body);
    let st = node_decls_s(st, n, 0);
    let st = ln_s(st, "(local $__gc_frame i32)"@);
    let st = ln_s(st, "(local $__rv_i32   i32)"@);
    let st = ln_s(st, "(local $__rv_i64   i64)"@);
    let st = ln_s(st, "(local $__wb_obj   i32)"@);
    let st = ln_s(st, "(local $__wb_val   i32)"@);
    let st = frame_s(st, ptr_params(ps), lets);
    let st = WatSt { ret_vt: if void { None } else { Some(val_of(m.return_ty)) }, ..st };
    let st = frame_setup_s(st);
    let st = if st.frame_size > 0 {
        param_stores_s(ln_s(st, "(i32.store (local.get $__gc_frame) (local.get $self))"@), ps, 0)
    } else {
        st
    };
    let st = WatSt { node_idx: 0, ..st };
    let st = stmts_s(c, st, method_locals(ps, lets, n), m.body);
    let st = cleanup_s(st);
    let st = ln_s(st, ")"@);
    end_frame(dec_s(st))
}

// ── Classes ────────────────────────────────────────────────────────────────

/// Whether a slot named `n` comes in `s`.
pub open spec fn later(s: Seq<(Seq<char>, nat, ValTy)>, n: Seq<char>) -> bool {
    exists|j: int| 0 <= j < s.len() && #[trigger] s[j].0 == n
}

/// The slots of distinct fields, each name at its last slot, in offset
/// order.
pub open spec fn uniq(s: Seq<(Seq<char>, nat, ValTy)>) -> Seq<(Seq<char>, nat, ValTy)>
    decreases s.len(),
{
    if s.len() == 0 {
        Seq::empty()
    } else if later(s.drop_first(), s[0].0) {
        uniq(s.drop_first())
    } else {
        seq![s[0]] + uniq(s.drop_first())
    }
}

/// A slot as the struct comment shows it.
pub open spec fn slot_note(e: (Seq<char>, nat, ValTy)) -> Seq<char> {
    e.0 + ": "@ + e.2.name() + " @"@ + dec(e.1)
}

/// The methods of a class, from `i` on, each after an empty line.
pub open spec fn methods_s(c: WatCtx, st: WatSt, cname: Seq<char>, ms: Seq<SpecIrMethod>, i: int) -> WatSt
    decreases ms.len() - i,
{
    if i >= ms.len() || i < 0 {
        st
    } else {
        methods_s(c, method_s(c, blank_s(st), cname, ms[i]), cname, ms, i + 1)
    }
}

/// The heading of a class and its struct layout as comments.
pub open spec fn class_head_s(c: WatCtx, st: WatSt, cls: SpecIrClass) -> WatSt {
    let st = section_s(st, "class "@ + cls.name + " ("@ + kind_text(cls.kind) + ")"@);
    let st = match lookup(c.layouts, cls.name) {
        Some(l) => {
            let d = uniq(l.slots);
            let st = if d.len() > 0 {
                comment_s(st, "struct { "@ + join(Seq::new(d.len(), |i: int| slot_note(d[i])), ", "@) + " }"@)
            } else {
                st
            };
            comment_s(st, "total = "@ + dec(l.total as nat) + " bytes (incl. 8-byte GC header)"@)
        },
        None => st,
    };
    blank_s(st)
}

/// A class: a heading, its struct layout as a comment, its constructor and
/// its methods.
#[verifier::opaque]
pub open spec fn class_s(c: WatCtx, st: WatSt, cls: SpecIrClass) -> WatSt {
    let st = ctor_s(c, class_head_s(c, st, cls), cls);
    let st = WatSt { current_class: cls.name, ..st };
    methods_s(c, st, cls.name, cls.methods, 0)
}

// ── Executable parts ───────────────────────────────────────────────────────

/// Whether a local of that name is listed.
fn has_local(acc: &Vec<(String, ValTy)>, n: &str) -> (r: bool)
    ensures
        r == has_name(locals_v(acc@), n@),
{
    let ghost m = locals_v(acc@);
    let mut i: usize = 0;
    while i < acc.len()
        invariant
            i <= acc.len(),
            m == locals_v(acc@),
            forall|j: int| 0 <= j < i ==> m[j].0 != n@,
        decreases acc.len() - i,
    {
        if str_eq(acc[i].0.as_str(), n) {
            assert(m[i as int].0 == n@);
            return true;
        }
        i = i + 1;
    }
    false
}

/// Adds the `let` locals of a statement.
#[verifier::loop_isolation(false)]
pub fn collect_lets_stmt(s: &IrStmt, acc: &mut Vec<(String, ValTy)>)
    ensures
        locals_v(final(acc)@) == lets_stmt(s@, locals_v(old(acc)@)),
    decreases s,
{
    match s {
        IrStmt::Let { name, ty, .. } => {
            if !has_local(acc, name.as_str()) {
                let ghost before = locals_v(acc@);
                acc.push((name.clone(), crate::wasm_layout::ir_to_val(ty)));
                assert(locals_v(acc@) =~= before.push((name@, val_of(ty@))));
            }
        },
        IrStmt::If { then_body, else_body, .. } => {
            collect_lets_stmts(then_body, acc);
            match else_body {
                Some(eb) => collect_lets_stmts(eb, acc),
                None => {},
            }
        },
        IrStmt::While { body, .. } => collect_lets_stmts(body, acc),
        IrStmt::For { body, .. } => collect_lets_stmts(body, acc),
        _ => {},
    }
}

/// Adds the `let` locals of statements.
#[verifier::loop_isolation(false)]
pub fn collect_lets_stmts(ss: &Vec<IrStmt>, acc: &mut Vec<(String, ValTy)>)
    ensures
        locals_v(final(acc)@) == lets_stmts(ir_stmts_view(ss@), locals_v(old(acc)@)),
    decreases ss,
{
    let ghost sv = ir_stmts_view(ss@);
    proof {
        lemma_ir_stmts_view(ss@);
    }
    let mut i: usize = 0;
    assert(sv.skip(0) =~= sv);
    while i < ss.len()
        invariant
            i <= ss.len(),
            sv == ir_stmts_view(ss@),
            sv.len() == ss.len(),
            lets_stmts(sv, locals_v(old(acc)@)) == lets_stmts(sv.skip(i as int), locals_v(acc@)),
        decreases ss.len() - i,
    {
        proof {
            assert(decreases_to!(ss => ss@));
            assert(decreases_to!(ss@ => ss@[i as int]));
            assert(sv.skip(i as int)[0] == ss@[i as int]@);
            assert(sv.skip(i as int).drop_first() =~= sv.skip(i + 1));
        }
        collect_lets_stmt(&ss[i], acc);
        i = i + 1;
    }
    assert(sv.skip(i as int) =~= Seq::<SpecIrStmt>::empty());
}

fn sat_add_exec(a: usize, b: usize) -> (r: usize)
    ensures
        r == sat_add(a as nat, b as nat),
{
    if a <= usize::MAX - b { a + b } else { usize::MAX }
}

/// The DOM nodes an expression creates.
#[verifier::loop_isolation(false)]
pub fn count_nodes_expr(e: &IrExpr) -> (n: usize)
    ensures
        n == nodes_expr(e@),
    decreases e,
{
    match e {
        IrExpr::Node { children, .. } => sat_add_exec(1, count_nodes_exprs(children)),
        IrExpr::Bin { lhs, rhs, .. } => sat_add_exec(count_nodes_expr(lhs), count_nodes_expr(rhs)),
        IrExpr::Unary { operand, .. } => count_nodes_expr(operand),
        IrExpr::Field { receiver, .. } => count_nodes_expr(receiver),
        IrExpr::Call { receiver, args, .. } => sat_add_exec(count_nodes_expr(receiver), count_nodes_exprs(args)),
        IrExpr::Invoke { args, .. } => count_nodes_exprs(args),
        IrExpr::Closure { body, .. } => count_nodes_expr(body),
        _ => 0,
    }
}

/// The DOM nodes expressions create.
#[verifier::loop_isolation(false)]
pub fn count_nodes_exprs(es: &Vec<IrExpr>) -> (n: usize)
    ensures
        n == nodes_exprs(ir_exprs_view(es@)),
    decreases es,
{
    let ghost ev = ir_exprs_view(es@);
    proof {
        super::body::lemma_ir_exprs_view(es@);
    }
    let mut i: usize = es.len();
    let mut acc: usize = 0;
    assert(ev.skip(i as int) =~= Seq::<SpecIrExpr>::empty());
    while i > 0
        invariant
            i <= es.len(),
            ev == ir_exprs_view(es@),
            ev.len() == es.len(),
            acc == nodes_exprs(ev.skip(i as int)),
        decreases i,
    {
        proof {
            assert(decreases_to!(es => es@));
            assert(decreases_to!(es@ => es@[i - 1]));
            assert(ev.skip(i - 1)[0] == es@[i - 1]@);
            assert(ev.skip(i - 1).drop_first() =~= ev.skip(i as int));
        }
        let k = count_nodes_expr(&es[i - 1]);
        acc = sat_add_exec(k, acc);
        i = i - 1;
    }
    assert(ev.skip(0) =~= ev);
    acc
}

/// The DOM nodes a statement creates.
#[verifier::loop_isolation(false)]
pub fn count_nodes_stmt(s: &IrStmt) -> (n: usize)
    ensures
        n == nodes_stmt(s@),
    decreases s,
{
    match s {
        IrStmt::Let { init, .. } => count_nodes_expr(init),
        IrStmt::Discard(init) => count_nodes_expr(init),
        IrStmt::Assign { target, value } => sat_add_exec(count_nodes_expr(target), count_nodes_expr(value)),
        IrStmt::Return(Some(e)) => count_nodes_expr(e),
        IrStmt::If { cond, then_body, else_body } => {
            let a = sat_add_exec(count_nodes_expr(cond), count_nodes_stmts(then_body));
            let b = match else_body {
                Some(eb) => count_nodes_stmts(eb),
                None => 0,
            };
            sat_add_exec(a, b)
        },
        IrStmt::While { cond, body } => sat_add_exec(count_nodes_expr(cond), count_nodes_stmts(body)),
        IrStmt::For { iter, body, .. } => sat_add_exec(count_nodes_expr(iter), count_nodes_stmts(body)),
        _ => 0,
    }
}

/// The DOM nodes statements create.
#[verifier::loop_isolation(false)]
pub fn count_nodes_stmts(ss: &Vec<IrStmt>) -> (n: usize)
    ensures
        n == nodes_stmts(ir_stmts_view(ss@)),
    decreases ss,
{
    let ghost sv = ir_stmts_view(ss@);
    proof {
        lemma_ir_stmts_view(ss@);
    }
    let mut i: usize = ss.len();
    let mut acc: usize = 0;
    assert(sv.skip(i as int) =~= Seq::<SpecIrStmt>::empty());
    while i > 0
        invariant
            i <= ss.len(),
            sv == ir_stmts_view(ss@),
            sv.len() == ss.len(),
            acc == nodes_stmts(sv.skip(i as int)),
        decreases i,
    {
        proof {
            assert(decreases_to!(ss => ss@));
            assert(decreases_to!(ss@ => ss@[i - 1]));
            assert(sv.skip(i - 1)[0] == ss@[i - 1]@);
            assert(sv.skip(i - 1).drop_first() =~= sv.skip(i as int));
        }
        let k = count_nodes_stmt(&ss[i - 1]);
        acc = sat_add_exec(k, acc);
        i = i - 1;
    }
    assert(sv.skip(0) =~= sv);
    acc
}

/// The names of the pointer parameters.
fn ptr_param_names(ps: &Vec<IrParam>) -> (r: Vec<String>)
    ensures
        crate::ast::string_views(r@) == ptr_params(views(ps@)),
{
    let ghost pv = views(ps@);
    let mut out: Vec<String> = Vec::new();
    let mut i: usize = 0;
    assert(crate::ast::string_views(out@) =~= ptr_params(pv.take(0)));
    while i < ps.len()
        invariant
            i <= ps.len(),
            pv == views(ps@),
            crate::ast::string_views(out@) == ptr_params(pv.take(i as int)),
        decreases ps.len() - i,
    {
        assert(pv.take(i + 1).drop_last() =~= pv.take(i as int));
        assert(pv.take(i + 1).last() == ps@[i as int]@);
        if crate::wasm_layout::ir_to_val(&ps[i].ty) == ValTy::I32 {
            let ghost before = out@;
            out.push(ps[i].name.clone());
            assert(crate::ast::string_views(out@) =~= crate::ast::string_views(before).push(ps@[i as int].name@));
        }
        i = i + 1;
    }
    assert(pv.take(ps.len() as int) =~= pv);
    out
}

fn slot_add_exec(s: u32) -> (r: u32)
    ensures
        r == slot_add(s),
{
    if s <= u32::MAX - 4 { s + 4 } else { s }
}

impl WatGen {
    /// Lays out the frame of a function.
    pub fn build_frame(&mut self, ps: &Vec<String>, lets: &Vec<(String, ValTy)>)
        ensures
            final(self).st() == frame_s(old(self).st(), crate::ast::string_views(ps@), locals_v(lets@)),
            final(self).ctx() == old(self).ctx(),
    {
        let ghost pv = crate::ast::string_views(ps@);
        let ghost lv = locals_v(lets@);
        self.gc_ptr_frame = Vec::new();
        self.gc_ptr_frame.push((string_from_chars(chars_vec("self").as_slice()), 0));
        self.gc_frame_size = 4;
        assert(named_u32(self.gc_ptr_frame@) =~= seq![("self"@, 0u32)]);
        let mut i: usize = 0;
        while i < ps.len()
            invariant
                i <= ps.len(),
                pv == crate::ast::string_views(ps@),
                self.ctx() == old(self).ctx(),
                self.out == old(self).out,
                self.indent == old(self).indent,
                self.loop_idx == old(self).loop_idx,
                self.node_idx == old(self).node_idx,
                self.current_class == old(self).current_class,
                self.current_return_vt == old(self).current_return_vt,
                frame_params(seq![("self"@, 0u32)], 4, pv, 0) == frame_params(
                    named_u32(self.gc_ptr_frame@),
                    self.gc_frame_size,
                    pv,
                    i as int,
                ),
            decreases ps.len() - i,
        {
            if named_get(&self.gc_ptr_frame, ps[i].as_str()).is_none() {
                let ghost before = named_u32(self.gc_ptr_frame@);
                let sz = self.gc_frame_size;
                self.gc_ptr_frame.push((ps[i].clone(), sz));
                assert(named_u32(self.gc_ptr_frame@) =~= before.push((ps@[i as int]@, sz)));
                self.gc_frame_size = slot_add_exec(self.gc_frame_size);
            }
            i = i + 1;
        }
        let mut i: usize = 0;
        let ghost f1 = named_u32(self.gc_ptr_frame@);
        let ghost s1 = self.gc_frame_size;
        while i < lets.len()
            invariant
                i <= lets.len(),
                lv == locals_v(lets@),
                self.ctx() == old(self).ctx(),
                self.out == old(self).out,
                self.indent == old(self).indent,
                self.loop_idx == old(self).loop_idx,
                self.node_idx == old(self).node_idx,
                self.current_class == old(self).current_class,
                self.current_return_vt == old(self).current_return_vt,
                frame_lets(f1, s1, lv, 0) == frame_lets(named_u32(self.gc_ptr_frame@), self.gc_frame_size, lv, i as int),
            decreases lets.len() - i,
        {
            if lets[i].1 == ValTy::I32 && named_get(&self.gc_ptr_frame, lets[i].0.as_str()).is_none() {
                let ghost before = named_u32(self.gc_ptr_frame@);
                let sz = self.gc_frame_size;
                self.gc_ptr_frame.push((lets[i].0.clone(), sz));
                assert(named_u32(self.gc_ptr_frame@) =~= before.push((lets@[i as int].0@, sz)));
                self.gc_frame_size = slot_add_exec(self.gc_frame_size);
            }
            i = i + 1;
        }
    }
}


/// `a`, the decimal digits of `n`, then `b`.
fn t_dec(a: &str, n: u64, b: &str) -> (v: Vec<char>)
    ensures
        v@ == a@ + dec(n as nat) + b@,
{
    let v = t_num(a, n, b);
    assert(v@ =~= a@ + dec(n as nat) + b@);
    v
}

/// The declarations of parameters, joined with `sep`, appended to `out`;
/// `first` adds the declaration of `self` in front.
fn push_param_decls(out: &mut Vec<char>, ps: &Vec<IrParam>, with_self: bool)
    ensures
        final(out)@ == old(out)@ + join(
            if with_self { seq!["(param $self i32)"@] + param_decls(views(ps@)) } else { param_decls(views(ps@)) },
            " "@,
        ),
{
    let ghost pv = views(ps@);
    let ghost ts = if with_self { seq!["(param $self i32)"@] + param_decls(pv) } else { param_decls(pv) };
    let ghost base = out@;
    let mut k: usize = 0;
    if with_self {
        push_str(out, "(param $self i32)");
        k = 1;
        assert(ts.take(1) =~= seq!["(param $self i32)"@]);
    }
    assert(ts.take(0) =~= Seq::<Seq<char>>::empty());
    let mut i: usize = 0;
    while i < ps.len()
        invariant
            i <= ps.len(),
            k == (if with_self { 1usize } else { 0usize }),
            pv == views(ps@),
            ts == (if with_self { seq!["(param $self i32)"@] + param_decls(pv) } else { param_decls(pv) }),
            ts.len() == ps.len() + k,
            out@ == base + join(ts.take(i + k), " "@),
        decreases ps.len() - i,
    {
        let ghost before = out@;
        if i + k > 0 {
            push_str(out, " ");
        }
        push_str(out, "(param $");
        push_chars(out, &chars_vec(ps[i].name.as_str()));
        push_str(out, " ");
        push_str(out, crate::wasm_layout::ir_to_val(&ps[i].ty).as_str());
        push_str(out, ")");
        proof {
            let tk = ts.take(i + k + 1);
            assert(tk.drop_last() =~= ts.take(i + k));
            assert(tk.last() == param_decl(pv[i as int]));
            if i + k > 0 {
                assert(out@ =~= base + (join(ts.take(i + k), " "@) + " "@ + param_decl(pv[i as int])));
            } else {
                assert(out@ =~= base + param_decl(pv[i as int]));
            }
        }
        i = i + 1;
    }
    assert(ts.take(ps.len() + k) =~= ts);
}

impl WatGen {
    /// Writes the frame prologue.
    pub fn emit_frame_setup(&mut self)
        ensures
            final(self).st() == frame_setup_s(old(self).st()),
            final(self).ctx() == old(self).ctx(),
    {
        if self.gc_frame_size == 0 {
            return;
        }
        let size = self.gc_frame_size;
        let mut t: Vec<char> = Vec::new();
        push_str(&mut t, "GC v2 shadow stack frame (");
        push_decimal(&mut t, size as u64);
        push_str(&mut t, " bytes — ");
        push_decimal(&mut t, (size / 4) as u64);
        push_str(&mut t, " pointer locals)");
        assert(t@ =~= "GC v2 shadow stack frame ("@ + dec(size as nat) + " bytes — "@ + dec((size / 4) as nat)
            + " pointer locals)"@);
        self.comment(&t);
        self.ln_str("(local.set $__gc_frame (global.get $__gc_shadow_ptr))");
        self.ln(&t_dec("(global.set $__gc_shadow_ptr (i32.add (global.get $__gc_shadow_ptr) (i32.const ", size as u64, ")))"));
        let ghost s0 = self.st();
        let zero = chars_vec("(i32.const 0)");
        let mut slot: u64 = 0;
        while slot < size as u64
            invariant
                slot <= size as u64 + 3,
                size == self.gc_frame_size,
                zero@ == "(i32.const 0)"@,
                self.ctx() == old(self).ctx(),
                zero_slots_s(s0, size as nat, 0) == zero_slots_s(self.st(), size as nat, slot as nat),
            decreases size as u64 + 4 - slot,
        {
            self.ln(&frame_store_str(slot as u32, &zero));
            slot = slot + 4;
        }
    }

    /// Writes the frame stores of the pointer parameters.
    pub fn emit_param_stores(&mut self, ps: &Vec<IrParam>)
        ensures
            final(self).st() == param_stores_s(old(self).st(), views(ps@), 0),
            final(self).ctx() == old(self).ctx(),
    {
        let ghost pv = views(ps@);
        let mut i: usize = 0;
        while i < ps.len()
            invariant
                i <= ps.len(),
                pv == views(ps@),
                self.ctx() == old(self).ctx(),
                param_stores_s(old(self).st(), pv, 0) == param_stores_s(self.st(), pv, i as int),
            decreases ps.len() - i,
        {
            if crate::wasm_layout::ir_to_val(&ps[i].ty) == ValTy::I32 {
                match named_get(&self.gc_ptr_frame, ps[i].name.as_str()) {
                    Some(off) => {
                        let v = t_txt("(local.get $", &chars_vec(ps[i].name.as_str()), ")");
                        self.ln(&frame_store_str(off, &v));
                    },
                    None => {},
                }
            }
            i = i + 1;
        }
    }

    /// Writes the stores of constructor parameters into their fields.
    pub fn emit_field_inits(&mut self, cname: &str, ps: &Vec<IrParam>)
        ensures
            final(self).st() == field_inits_s(old(self).ctx(), old(self).st(), cname@, views(ps@), 0),
            final(self).ctx() == old(self).ctx(),
    {
        let ghost pv = views(ps@);
        let ghost c = self.ctx();
        let mut i: usize = 0;
        while i < ps.len()
            invariant
                i <= ps.len(),
                pv == views(ps@),
                c == old(self).ctx(),
                self.ctx() == c,
                field_inits_s(c, old(self).st(), cname@, pv, 0) == field_inits_s(c, self.st(), cname@, pv, i as int),
            decreases ps.len() - i,
        {
            let vt = crate::wasm_layout::ir_to_val(&ps[i].ty);
            let pn = chars_vec(ps[i].name.as_str());
            match self.find_layout(cname) {
                Some(k) => {
                    match self.layouts[k].1.get(ps[i].name.as_str()) {
                        Some((off, _)) => {
                            if vt == ValTy::I32 {
                                self.ln(&t_txt("(call $gc_write_barrier (local.get $self) (local.get $", &pn, "))"));
                            }
                            let st = chars_vec(vt.store(off).as_str());
                            let mut t: Vec<char> = Vec::new();
                            push_str(&mut t, "(");
                            push_chars(&mut t, &st);
                            push_str(&mut t, " (local.get $self) (local.get $");
                            push_chars(&mut t, &pn);
                            push_str(&mut t, "))");
                            assert(t@ =~= "("@ + vt.access(".store"@, off) + " (local.get $self) (local.get $"@ + pn@ + "))"@);
                            self.ln(&t);
                        },
                        None => {},
                    }
                },
                None => {},
            }
            i = i + 1;
        }
    }

    /// The position of the layout of class `cls` (its last entry).
    pub fn find_layout(&self, cls: &str) -> (r: Option<usize>)
        ensures
            match r {
                Some(k) => k < self.layouts.len() && lookup(self.ctx().layouts, cls@) == Some(self.ctx().layouts[k as int].1),
                None => lookup(self.ctx().layouts, cls@) is None,
            },
    {
        let ghost m = self.ctx().layouts;
        let mut i: usize = self.layouts.len();
        assert(m.take(i as int) =~= m);
        while i > 0
            invariant
                i <= self.layouts.len(),
                m == self.ctx().layouts,
                lookup(m, cls@) == lookup(m.take(i as int), cls@),
            decreases i,
        {
            assert(m.take(i as int).drop_last() =~= m.take(i - 1));
            if str_eq(self.layouts[i - 1].0.as_str(), cls) {
                return Some(i - 1);
            }
            i = i - 1;
        }
        None
    }
}

impl WatGen {
    /// Writes the constructor of a class.
    #[verifier::spinoff_prover]
    #[verifier::rlimit(100)]
    pub fn emit_constructor(&mut self, cls: &IrClass)
        ensures
            final(self).st() == ctor_s(old(self).ctx(), old(self).st(), cls@),
            final(self).ctx() == old(self).ctx(),
    {
        proof {
            reveal(ctor_s);
        }
        let ghost cv = cls@;
        let name = chars_vec(cls.name.as_str());
        let tag: u32 = match named_get(&self.class_tags, cls.name.as_str()) {
            Some(t) => t,
            None => 0,
        };
        let size: u32 = match self.find_layout(cls.name.as_str()) {
            Some(k) => self.layouts[k].1.total_size,
            None => HEADER_SIZE,
        };
        let mut h: Vec<char> = Vec::new();
        push_str(&mut h, "(func $");
        push_chars(&mut h, &name);
        if cls.constructor_params.len() == 0 {
            push_str(&mut h, "_new (result i32)");
            assert(h@ =~= "(func $"@ + cv.name + "_new (result i32)"@);
        } else {
            push_str(&mut h, "_new ");
            let ghost h0 = h@;
            push_param_decls(&mut h, &cls.constructor_params, false);
            push_str(&mut h, " (result i32)");
            assert(h@ =~= "(func $"@ + cv.name + "_new "@ + join(param_decls(cv.constructor_params), " "@) + " (result i32)"@);
        }
        self.ln(&h);
        self.inc();
        self.ln_str("(local $self   i32)");
        self.ln_str("(local $__gc_frame i32)");
        self.ln_str("(local $__rv_i32   i32)");
        self.ln_str("(local $__wb_obj   i32)");
        self.ln_str("(local $__wb_val   i32)");
        let pp = ptr_param_names(&cls.constructor_params);
        let mut body_lets: Vec<(String, ValTy)> = Vec::new();
        assert(locals_v(body_lets@) =~= Seq::<(Seq<char>, ValTy)>::empty());
        collect_lets_stmts(&cls.constructor_body, &mut body_lets);
        self.build_frame(&pp, &body_lets);
        self.emit_frame_setup();
        let mut t: Vec<char> = Vec::new();
        push_str(&mut t, "Allocate: ");
        push_decimal(&mut t, size as u64);
        push_str(&mut t, " bytes, tag=");
        push_decimal(&mut t, tag as u64);
        assert(t@ =~= "Allocate: "@ + dec(size as nat) + " bytes, tag="@ + dec(tag as nat));
        self.comment(&t);
        let mut t: Vec<char> = Vec::new();
        push_str(&mut t, "(local.set $self (call $gc_alloc (i32.const ");
        push_decimal(&mut t, size as u64);
        push_str(&mut t, ") (i32.const ");
        push_decimal(&mut t, tag as u64);
        push_str(&mut t, ")))");
        assert(t@ =~= "(local.set $self (call $gc_alloc (i32.const "@ + dec(size as nat) + ") (i32.const "@ + dec(tag as nat)
            + ")))"@);
        self.ln(&t);
        self.ln_str("(i32.store (local.get $__gc_frame) (local.get $self))");
        self.emit_param_stores(&cls.constructor_params);
        self.emit_field_inits(cls.name.as_str(), &cls.constructor_params);
        if cls.constructor_body.len() > 0 {
            self.current_class = cls.name.clone();
            self.current_return_vt = Some(ValTy::I32);
            let mut lm: Vec<(String, ValTy)> = Vec::new();
            lm.push((string_from_chars(chars_vec("self").as_slice()), ValTy::I32));
            assert(locals_v(lm@) =~= seq![("self"@, ValTy::I32)]);
            collect_lets_stmts(&cls.constructor_body, &mut lm);
            self.emit_stmts(&cls.constructor_body, &lm);
        }
        self.comment_str("Return $self — GC-reloaded from frame in case of relocation");
        self.ln_str("(local.set $__rv_i32 (i32.load (local.get $__gc_frame)))");
        self.emit_frame_cleanup();
        self.ln_str("(local.get $__rv_i32))");
        self.dec();
        self.gc_ptr_frame = Vec::new();
        self.gc_frame_size = 0;
        self.current_return_vt = None;
        assert(named_u32(self.gc_ptr_frame@) =~= Seq::<(Seq<char>, u32)>::empty());
    }
}

/// The parameter notes of a method comment, joined with `, `.
fn push_param_notes(out: &mut Vec<char>, ps: &Vec<IrParam>)
    ensures
        final(out)@ == old(out)@ + join(Seq::new(ps@.len(), |i: int| param_note(views(ps@)[i])), ", "@),
{
    let ghost pv = views(ps@);
    let ghost ts = Seq::new(ps@.len(), |i: int| param_note(pv[i]));
    let ghost base = out@;
    assert(ts.take(0) =~= Seq::<Seq<char>>::empty());
    let mut i: usize = 0;
    while i < ps.len()
        invariant
            i <= ps.len(),
            pv == views(ps@),
            ts == Seq::new(ps@.len(), |i: int| param_note(pv[i])),
            out@ == base + join(ts.take(i as int), ", "@),
        decreases ps.len() - i,
    {
        if i > 0 {
            push_str(out, ", ");
        }
        push_chars(out, &chars_vec(ps[i].name.as_str()));
        push_str(out, ": ");
        push_str(out, crate::wasm_layout::ir_to_val(&ps[i].ty).as_str());
        proof {
            let tk = ts.take(i + 1);
            assert(tk.drop_last() =~= ts.take(i as int));
            assert(tk.last() == param_note(pv[i as int]));
            if i > 0 {
                assert(out@ =~= base + (join(ts.take(i as int), ", "@) + ", "@ + param_note(pv[i as int])));
            } else {
                assert(out@ =~= base + param_note(pv[i as int]));
            }
        }
        i = i + 1;
    }
    assert(ts.take(ps.len() as int) =~= ts);
}

impl WatGen {
    /// Writes the declarations of `let` locals.
    fn emit_let_decls(&mut self, lets: &Vec<(String, ValTy)>)
        ensures
            final(self).st() == let_decls_s(old(self).st(), locals_v(lets@), 0),
            final(self).ctx() == old(self).ctx(),
    {
        let ghost lv = locals_v(lets@);
        let mut i: usize = 0;
        while i < lets.len()
            invariant
                i <= lets.len(),
                lv == locals_v(lets@),
                self.ctx() == old(self).ctx(),
                let_decls_s(old(self).st(), lv, 0) == let_decls_s(self.st(), lv, i as int),
            decreases lets.len() - i,
        {
            let mut t: Vec<char> = Vec::new();
            push_str(&mut t, "(local $");
            push_chars(&mut t, &chars_vec(lets[i].0.as_str()));
            push_str(&mut t, " ");
            push_str(&mut t, lets[i].1.as_str());
            push_str(&mut t, ")");
            assert(t@ =~= "(local $"@ + lv[i as int].0 + " "@ + lv[i as int].1.name() + ")"@);
            self.ln(&t);
            i = i + 1;
        }
    }

    /// Writes the declarations of the DOM node locals.
    fn emit_node_decls(&mut self, n: usize)
        ensures
            final(self).st() == node_decls_s(old(self).st(), n as nat, 0),
            final(self).ctx() == old(self).ctx(),
    {
        let mut i: usize = 0;
        while i < n
            invariant
                i <= n,
                self.ctx() == old(self).ctx(),
                node_decls_s(old(self).st(), n as nat, 0) == node_decls_s(self.st(), n as nat, i as nat),
            decreases n - i,
        {
            self.ln(&t_dec("(local $__node_", i as u64, " i32)"));
            i = i + 1;
        }
    }
}

/// The locals of a method.
fn build_method_locals(ps: &Vec<IrParam>, lets: &Vec<(String, ValTy)>, n: usize) -> (r: Vec<(String, ValTy)>)
    ensures
        locals_v(r@) == method_locals(views(ps@), locals_v(lets@), n as nat),
{
    let ghost pv = views(ps@);
    let mut r: Vec<(String, ValTy)> = Vec::new();
    r.push((string_from_chars(chars_vec("self").as_slice()), ValTy::I32));
    let ghost a = seq![("self"@, ValTy::I32)];
    assert(locals_v(r@) =~= a);
    let mut i: usize = 0;
    while i < ps.len()
        invariant
            i <= ps.len(),
            pv == views(ps@),
            locals_v(r@) == a + Seq::new(i as nat, |k: int| (pv[k].name, val_of(pv[k].ty))),
        decreases ps.len() - i,
    {
        let ghost before = locals_v(r@);
        let nm = ps[i].name.clone();
        let vt = crate::wasm_layout::ir_to_val(&ps[i].ty);
        r.push((nm, vt));
        proof {
            let x = (pv[i as int].name, val_of(pv[i as int].ty));
            assert(locals_v(r@) =~= before.push(x));
            assert(Seq::new((i + 1) as nat, |k: int| (pv[k].name, val_of(pv[k].ty))) =~= Seq::new(
                i as nat,
                |k: int| (pv[k].name, val_of(pv[k].ty)),
            ).push(x));
            assert(locals_v(r@) =~= a + Seq::new((i + 1) as nat, |k: int| (pv[k].name, val_of(pv[k].ty))));
        }
        i = i + 1;
    }
    let ghost b = locals_v(r@);
    let mut i: usize = 0;
    while i < lets.len()
        invariant
            i <= lets.len(),
            locals_v(r@) == b + locals_v(lets@).take(i as int),
        decreases lets.len() - i,
    {
        let ghost before = locals_v(r@);
        let nm = lets[i].0.clone();
        r.push((nm, lets[i].1));
        assert(locals_v(r@) =~= before.push(locals_v(lets@)[i as int]));
        assert(locals_v(lets@).take(i + 1) =~= locals_v(lets@).take(i as int).push(locals_v(lets@)[i as int]));
        assert(locals_v(r@) =~= b + locals_v(lets@).take(i + 1));
        i = i + 1;
    }
    assert(locals_v(lets@).take(lets.len() as int) =~= locals_v(lets@));
    let ghost d = locals_v(r@);
    let mut i: usize = 0;
    while i < n
        invariant
            i <= n,
            locals_v(r@) == d + Seq::new(i as nat, |k: int| ("__node_"@ + dec(k as nat), ValTy::I32)),
        decreases n - i,
    {
        let mut nm: Vec<char> = Vec::new();
        push_str(&mut nm, "__node_");
        push_decimal(&mut nm, i as u64);
        assert(nm@ =~= "__node_"@ + dec(i as nat));
        let ghost before = locals_v(r@);
        r.push((string_from_chars(nm.as_slice()), ValTy::I32));
        proof {
            let x = ("__node_"@ + dec(i as nat), ValTy::I32);
            assert(locals_v(r@) =~= before.push(x));
            assert(Seq::new((i + 1) as nat, |k: int| ("__node_"@ + dec(k as nat), ValTy::I32)) =~= Seq::new(
                i as nat,
                |k: int| ("__node_"@ + dec(k as nat), ValTy::I32),
            ).push(x));
            assert(locals_v(r@) =~= d + Seq::new((i + 1) as nat, |k: int| ("__node_"@ + dec(k as nat), ValTy::I32)));
        }
        i = i + 1;
    }
    assert(locals_v(r@) =~= method_locals(pv, locals_v(lets@), n as nat));
    r
}

impl WatGen {
    /// Writes a method of class `cname`.
    #[verifier::spinoff_prover]
    #[verifier::rlimit(100)]
    pub fn emit_method(&mut self, cname: &str, m: &IrMethod)
        ensures
            final(self).st() == method_s(old(self).ctx(), old(self).st(), cname@, m@),
            final(self).ctx() == old(self).ctx(),
    {
        proof {
            reveal(method_s);
        }
        let ghost mv = m@;
        let void = match m.return_ty {
            IrType::Void => true,
            _ => false,
        };
        let cn = chars_vec(cname);
        let mn = chars_vec(m.name.as_str());
        let mut t: Vec<char> = Vec::new();
        push_chars(&mut t, &cn);
        push_str(&mut t, ".");
        push_chars(&mut t, &mn);
        push_str(&mut t, "(self");
        let ghost t0 = t@;
        if m.params.len() > 0 {
            push_str(&mut t, ", ");
            push_param_notes(&mut t, &m.params);
        }
        push_str(&mut t, ") -> ");
        if void {
            push_str(&mut t, "void");
        } else {
            push_str(&mut t, crate::wasm_layout::ir_to_val(&m.return_ty).as_str());
        }
        proof {
            let ps = mv.params;
            let sig = if ps.len() == 0 {
                Seq::<char>::empty()
            } else {
                ", "@ + join(Seq::new(ps.len(), |i: int| param_note(ps[i])), ", "@)
            };
            let retn = if void { "void"@ } else { val_of(mv.return_ty).name() };
            assert(t@ =~= cname@ + "."@ + mv.name + "(self"@ + sig + ") -> "@ + retn);
        }
        self.comment(&t);
        let mut h: Vec<char> = Vec::new();
        push_str(&mut h, "(func $");
        push_chars(&mut h, &cn);
        push_str(&mut h, "_");
        push_chars(&mut h, &mn);
        push_str(&mut h, " ");
        push_param_decls(&mut h, &m.params, true);
        if !void {
            push_str(&mut h, " (result ");
            push_str(&mut h, crate::wasm_layout::ir_to_val(&m.return_ty).as_str());
            push_str(&mut h, ")");
        }
        proof {
            let result = if void { Seq::<char>::empty() } else { " (result "@ + val_of(mv.return_ty).name() + ")"@ };
            assert(h@ =~= "(func $"@ + cname@ + "_"@ + mv.name + " "@ + join(
                seq!["(param $self i32)"@] + param_decls(mv.params),
                " "@,
            ) + result);
        }
        self.ln(&h);
        self.inc();
        let mut lets: Vec<(String, ValTy)> = Vec::new();
        assert(locals_v(lets@) =~= Seq::<(Seq<char>, ValTy)>::empty());
        collect_lets_stmts(&m.body, &mut lets);
        self.emit_let_decls(&lets);
        let n = count_nodes_stmts(&m.body);
        self.emit_node_decls(n);
        let locals = build_method_locals(&m.params, &lets, n);
        self.ln_str("(local $__gc_frame i32)");
        self.ln_str("(local $__rv_i32   i32)");
        self.ln_str("(local $__rv_i64   i64)");
        self.ln_str("(local $__wb_obj   i32)");
        self.ln_str("(local $__wb_val   i32)");
        let pp = ptr_param_names(&m.params);
        self.build_frame(&pp, &lets);
        self.current_return_vt = if void { None } else { Some(crate::wasm_layout::ir_to_val(&m.return_ty)) };
        self.emit_frame_setup();
        if self.gc_frame_size > 0 {
            self.ln_str("(i32.store (local.get $__gc_frame) (local.get $self))");
            self.emit_param_stores(&m.params);
        }
        self.node_idx = 0;
        self.emit_stmts(&m.body, &locals);
        self.emit_frame_cleanup();
        self.ln_str(")");
        self.dec();
        self.gc_ptr_frame = Vec::new();
        self.gc_frame_size = 0;
        self.current_return_vt = None;
        assert(named_u32(self.gc_ptr_frame@) =~= Seq::<(Seq<char>, u32)>::empty());
    }
}

/// The pointer fields (offset, name) among distinct slots.
pub open spec fn ptrs_of(d: Seq<(Seq<char>, nat, ValTy)>) -> Seq<(u32, Seq<char>)>
    decreases d.len(),
{
    if d.len() == 0 {
        Seq::empty()
    } else if d[0].2 == ValTy::I32 {
        seq![(d[0].1 as u32, d[0].0)] + ptrs_of(d.drop_first())
    } else {
        ptrs_of(d.drop_first())
    }
}

/// The slots of distinct fields of a layout, each name at its last slot.
pub fn uniq_slots(l: &crate::wasm_layout::StructLayout) -> (r: Vec<(String, crate::wasm_layout::FieldSlot)>)
    ensures
        r@.map_values(|e: (String, crate::wasm_layout::FieldSlot)| (e.0@, e.1.offset as nat, e.1.vt)) == uniq(l.slots_view()),
{
    let ghost sv = l.slots_view();
    let mut r: Vec<(String, crate::wasm_layout::FieldSlot)> = Vec::new();
    let mut i: usize = 0;
    assert(sv.skip(0) =~= sv);
    assert(r@.map_values(|e: (String, crate::wasm_layout::FieldSlot)| (e.0@, e.1.offset as nat, e.1.vt)) =~= Seq::<(Seq<char>, nat, ValTy)>::empty());
    while i < l.slots.len()
        invariant
            i <= l.slots.len(),
            sv == l.slots_view(),
            uniq(sv) == r@.map_values(|e: (String, crate::wasm_layout::FieldSlot)| (e.0@, e.1.offset as nat, e.1.vt)) + uniq(sv.skip(i as int)),
        decreases l.slots.len() - i,
    {
        let ghost rv = r@.map_values(|e: (String, crate::wasm_layout::FieldSlot)| (e.0@, e.1.offset as nat, e.1.vt));
        assert(sv.skip(i as int)[0] == sv[i as int]);
        assert(sv.skip(i as int).drop_first() =~= sv.skip(i + 1));
        let mut j: usize = i + 1;
        let mut dup = false;
        while j < l.slots.len() && !dup
            invariant
                i < j <= l.slots.len(),
                sv == l.slots_view(),
                dup ==> later(sv.skip(i + 1), sv[i as int].0),
                !dup ==> forall|k: int| i < k < j ==> sv[k].0 != sv[i as int].0,
            decreases l.slots.len() - j,
        {
            if str_eq(l.slots[j].0.as_str(), l.slots[i].0.as_str()) {
                assert(sv.skip(i + 1)[j - i - 1] == sv[j as int]);
                assert(sv.skip(i + 1)[j - i - 1].0 == sv[i as int].0);
                dup = true;
            }
            j = j + 1;
        }
        if !dup {
            assert(!later(sv.skip(i + 1), sv[i as int].0)) by {
                if later(sv.skip(i + 1), sv[i as int].0) {
                    let k = choose|k: int| 0 <= k < sv.skip(i + 1).len() && #[trigger] sv.skip(i + 1)[k].0 == sv[i as int].0;
                    assert(sv.skip(i + 1)[k] == sv[i + 1 + k]);
                }
            }
            let e = (l.slots[i].0.clone(), l.slots[i].1);
            r.push(e);
            assert(r@.map_values(|e: (String, crate::wasm_layout::FieldSlot)| (e.0@, e.1.offset as nat, e.1.vt)) =~= rv.push(sv[i as int]));
            assert(rv + uniq(sv.skip(i as int)) =~= rv.push(sv[i as int]) + uniq(sv.skip(i + 1)));
        }
        i = i + 1;
    }
    assert(sv.skip(i as int) =~= Seq::<(Seq<char>, nat, ValTy)>::empty());
    assert(uniq(sv) =~= r@.map_values(|e: (String, crate::wasm_layout::FieldSlot)| (e.0@, e.1.offset as nat, e.1.vt)));
    r
}

impl WatGen {
    /// Writes the heading of a class and its layout comments.
    #[verifier::spinoff_prover]
    pub fn emit_class_head(&mut self, cls: &IrClass)
        ensures
            final(self).st() == class_head_s(old(self).ctx(), old(self).st(), cls@),
            final(self).ctx() == old(self).ctx(),
    {
        let ghost cv = cls@;
        let ghost c = self.ctx();
        let name = chars_vec(cls.name.as_str());
        let mut t: Vec<char> = Vec::new();
        push_str(&mut t, "class ");
        push_chars(&mut t, &name);
        push_str(&mut t, " (");
        match cls.kind {
            IrClassKind::Class => push_str(&mut t, "Class"),
            IrClassKind::Component => push_str(&mut t, "Component"),
            IrClassKind::Window => push_str(&mut t, "Window"),
        }
        push_str(&mut t, ")");
        assert(t@ =~= "class "@ + cv.name + " ("@ + kind_text(cv.kind) + ")"@);
        self.section(&t);
        match self.find_layout(cls.name.as_str()) {
            Some(k) => {
                let ghost l = c.layouts[k as int].1;
                let d = uniq_slots(&self.layouts[k].1);
                let ghost dv = uniq(l.slots);
                let ghost notes = Seq::new(dv.len(), |i: int| slot_note(dv[i]));
                if d.len() > 0 {
                    let mut u: Vec<char> = Vec::new();
                    push_str(&mut u, "struct { ");
                    let ghost base = u@;
                    let mut i: usize = 0;
                    assert(notes.take(0) =~= Seq::<Seq<char>>::empty());
                    while i < d.len()
                        invariant
                            i <= d.len(),
                            dv == d@.map_values(|e: (String, crate::wasm_layout::FieldSlot)| (e.0@, e.1.offset as nat, e.1.vt)),
                            notes == Seq::new(dv.len(), |i: int| slot_note(dv[i])),
                            u@ == base + join(notes.take(i as int), ", "@),
                        decreases d.len() - i,
                    {
                        if i > 0 {
                            push_str(&mut u, ", ");
                        }
                        push_chars(&mut u, &chars_vec(d[i].0.as_str()));
                        push_str(&mut u, ": ");
                        push_str(&mut u, d[i].1.vt.as_str());
                        push_str(&mut u, " @");
                        push_decimal(&mut u, d[i].1.offset as u64);
                        proof {
                            let tk = notes.take(i + 1);
                            assert(tk.drop_last() =~= notes.take(i as int));
                            assert(tk.last() == slot_note(dv[i as int]));
                            if i > 0 {
                                assert(u@ =~= base + (join(notes.take(i as int), ", "@) + ", "@ + slot_note(dv[i as int])));
                            } else {
                                assert(u@ =~= base + slot_note(dv[i as int]));
                            }
                        }
                        i = i + 1;
                    }
                    assert(notes.take(d.len() as int) =~= notes);
                    push_str(&mut u, " }");
                    assert(u@ =~= "struct { "@ + join(notes, ", "@) + " }"@);
                    self.comment(&u);
                }
                let total = self.layouts[k].1.total_size;
                self.comment(&t_dec("total = ", total as u64, " bytes (incl. 8-byte GC header)"));
            },
            None => {},
        }
        self.blank();
    }

    /// Writes a class: its heading, layout comment, constructor and methods.
    pub fn compile_class(&mut self, cls: &IrClass)
        ensures
            final(self).st() == class_s(old(self).ctx(), old(self).st(), cls@),
            final(self).ctx() == old(self).ctx(),
    {
        proof {
            reveal(class_s);
        }
        let ghost cv = cls@;
        let ghost c = self.ctx();
        self.emit_class_head(cls);
        self.emit_constructor(cls);
        self.current_class = cls.name.clone();
        let ghost s0 = self.st();
        let ghost mv = views(cls.methods@);
        let mut i: usize = 0;
        while i < cls.methods.len()
            invariant
                i <= cls.methods.len(),
                mv == views(cls.methods@),
                cv == cls@,
                self.ctx() == c,
                c == old(self).ctx(),
                methods_s(c, s0, cv.name, mv, 0) == methods_s(c, self.st(), cv.name, mv, i as int),
            decreases cls.methods.len() - i,
        {
            let ghost sti = self.st();
            assert(mv[i as int] == cls.methods@[i as int]@);
            assert(methods_s(c, sti, cv.name, mv, i as int) == methods_s(
                c,
                method_s(c, blank_s(sti), cv.name, mv[i as int]),
                cv.name,
                mv,
                i + 1,
            ));
            self.blank();
            self.emit_method(cls.name.as_str(), &cls.methods[i]);
            i = i + 1;
        }
    }
}

} // verus!
