//! The whole module: the first phase (string pool, type tags, methods that
//! return nothing, object layouts), then the WAT text.
use vstd::prelude::*;
use vstd::utf8::encode_utf8;
use super::{WatGen, WatSt, WatCtx, LayoutV, inc_s, dec_s, ln_s, lookup, named_u32};
use super::sections::{Shape, ShapeV, shapes_v, memory_s, gc_globals_s, shape_map_s, start_s, gc_fits};
use super::runtime::{emit_imports_s, emit_gc_alloc_s, emit_gc_runtime_s};
use super::class::{class_s, uniq, ptrs_of, uniq_slots};
use super::body::lemma_ir_stmts_view;
use crate::wasm_layout::{
    GcLayout, StructLayout, StringPool, HEADER_SIZE, PAGE, ValTy, slots_spec, pool_find, round_up, nursery_start,
    lemma_round_up,
};
use crate::ir::{
    IrClass, IrExpr, IrModule, IrStmt, IrType, SpecIrClass, SpecIrExpr, SpecIrMethod, SpecIrModule, SpecIrStmt,
    SpecIrType, ir_exprs_view, ir_stmts_view,
};
use crate::ast::views;
use crate::text::{chars_vec, push_str, string_from_chars};
use super::body::named_get;

verus! {

/// The most bytes the string pool may hold, leaving room for the heap.
pub const POOL_LIMIT: u32 = 4293918719;

/// A string pool as plain values.
pub struct PoolV {
    pub index: Seq<(Seq<char>, u32)>,
    pub data: Seq<u8>,
}

/// Pooling a string: none when the pool would outgrow its limit.
pub open spec fn intern_s(p: PoolV, s: Seq<char>) -> Option<PoolV> {
    if p.data.len() + encode_utf8(s).len() + 1 > POOL_LIMIT {
        None
    } else {
        match pool_find(p.index, s) {
            Some(_) => Some(p),
            None => Some(PoolV { index: p.index.push((s, p.data.len() as u32)), data: p.data + encode_utf8(s) + seq![0u8] }),
        }
    }
}

/// The strings and DOM tags of an expression pooled.
pub open spec fn scan_expr_s(p: PoolV, e: SpecIrExpr) -> Option<PoolV>
    decreases e,
{
    match e {
        SpecIrExpr::Str(s) => intern_s(p, s),
        SpecIrExpr::Node { tag, children } => match intern_s(p, tag) {
            Some(q) => scan_exprs_s(q, children),
            None => None,
        },
        SpecIrExpr::Bin { lhs, rhs, .. } => match scan_expr_s(p, *lhs) {
            Some(q) => scan_expr_s(q, *rhs),
            None => None,
        },
        SpecIrExpr::Unary { operand, .. } => scan_expr_s(p, *operand),
        SpecIrExpr::Field { receiver, .. } => scan_expr_s(p, *receiver),
        SpecIrExpr::Call { receiver, args, .. } => match scan_expr_s(p, *receiver) {
            Some(q) => scan_exprs_s(q, args),
            None => None,
        },
        SpecIrExpr::Invoke { args, .. } => scan_exprs_s(p, args),
        SpecIrExpr::Closure { body, .. } => scan_expr_s(p, *body),
        _ => Some(p),
    }
}

/// The strings of expressions pooled, in order.
pub open spec fn scan_exprs_s(p: PoolV, es: Seq<SpecIrExpr>) -> Option<PoolV>
    decreases es,
{
    if es.len() == 0 {
        Some(p)
    } else {
        match scan_expr_s(p, es[0]) {
            Some(q) => scan_exprs_s(q, es.drop_first()),
            None => None,
        }
    }
}

/// The strings of a statement pooled.
pub open spec fn scan_stmt_s(p: PoolV, s: SpecIrStmt) -> Option<PoolV>
    decreases s,
{
    match s {
        SpecIrStmt::Let { init, .. } => scan_expr_s(p, init),
        SpecIrStmt::Discard(init) => scan_expr_s(p, init),
        SpecIrStmt::Assign { target, value } => match scan_expr_s(p, target) {
            Some(q) => scan_expr_s(q, value),
            None => None,
        },
        SpecIrStmt::Return(Some(e)) => scan_expr_s(p, e),
        SpecIrStmt::If { cond, then_body, else_body } => match scan_expr_s(p, cond) {
            Some(q) => match scan_stmts_s(q, then_body) {
                Some(r) => match else_body {
                    Some(eb) => scan_stmts_s(r, eb),
                    None => Some(r),
                },
                None => None,
            },
            None => None,
        },
        SpecIrStmt::While { cond, body } => match scan_expr_s(p, cond) {
            Some(q) => scan_stmts_s(q, body),
            None => None,
        },
        SpecIrStmt::For { iter, body, .. } => match scan_expr_s(p, iter) {
            Some(q) => scan_stmts_s(q, body),
            None => None,
        },
        _ => Some(p),
    }
}

/// The strings of statements pooled, in order.
pub open spec fn scan_stmts_s(p: PoolV, ss: Seq<SpecIrStmt>) -> Option<PoolV>
    decreases ss,
{
    if ss.len() == 0 {
        Some(p)
    } else {
        match scan_stmt_s(p, ss[0]) {
            Some(q) => scan_stmts_s(q, ss.drop_first()),
            None => None,
        }
    }
}

/// The pool of a context.
pub open spec fn pool_of(c: WatCtx) -> PoolV {
    PoolV { index: c.pool, data: c.pool_data }
}

/// A context with another pool.
pub open spec fn with_pool(c: WatCtx, p: PoolV) -> WatCtx {
    WatCtx { pool: p.index, pool_data: p.data, ..c }
}

/// The methods of class `cname` from `i` on: their strings pooled, and
/// those that return nothing recorded.
pub open spec fn phase_methods_s(c: WatCtx, cname: Seq<char>, ms: Seq<SpecIrMethod>, i: int) -> Option<WatCtx>
    decreases ms.len() - i,
{
    if i >= ms.len() || i < 0 {
        Some(c)
    } else {
        match scan_stmts_s(pool_of(c), ms[i].body) {
            None => None,
            Some(p) => {
                let c = with_pool(c, p);
                let c = if ms[i].return_ty is Void {
                    WatCtx { void_methods: c.void_methods.push((cname, ms[i].name)), ..c }
                } else {
                    c
                };
                phase_methods_s(c, cname, ms, i + 1)
            },
        }
    }
}

/// The layout of a class's objects as plain values.
pub open spec fn layout_of(cls: SpecIrClass) -> LayoutV {
    let (slots, end) = slots_spec(cls.fields);
    LayoutV { slots, total: (if end >= HEADER_SIZE { end } else { HEADER_SIZE as nat }) as u32 }
}

/// What the first phase collects of class number `idx`.
pub open spec fn phase_class_s(c: WatCtx, cls: SpecIrClass, idx: int) -> Option<WatCtx> {
    let c = WatCtx { class_tags: c.class_tags.push((cls.name, idx as u32)), ..c };
    match scan_stmts_s(pool_of(c), cls.constructor_body) {
        None => None,
        Some(p) => match phase_methods_s(with_pool(c, p), cls.name, cls.methods, 0) {
            None => None,
            Some(c) => if cls.fields.len() > 0x0fff_ffff {
                None
            } else {
                Some(WatCtx { layouts: c.layouts.push((cls.name, layout_of(cls))), ..c })
            },
        },
    }
}

/// The classes from `i` on through the first phase.
pub open spec fn phase_classes_s(c: WatCtx, cs: Seq<SpecIrClass>, i: int) -> Option<WatCtx>
    decreases cs.len() - i,
{
    if i >= cs.len() || i < 0 {
        Some(c)
    } else {
        match phase_class_s(c, cs[i], i) {
            None => None,
            Some(c) => phase_classes_s(c, cs, i + 1),
        }
    }
}

/// The first phase: `#app` pooled first, then every class in order.
pub open spec fn phase1_s(m: SpecIrModule) -> Option<WatCtx> {
    let c0 = WatCtx {
        pool: Seq::empty(),
        pool_data: Seq::empty(),
        layouts: Seq::empty(),
        void_methods: Seq::empty(),
        class_tags: Seq::empty(),
    };
    match intern_s(pool_of(c0), "#app"@) {
        None => None,
        Some(p) => phase_classes_s(with_pool(c0, p), m.classes, 0),
    }
}

/// Where the heap starts after a data section of `n` bytes.
pub open spec fn heap_start_of(n: nat) -> nat {
    if round_up(n, 8) >= 8 { round_up(n, 8) } else { 8 }
}

/// The collector's regions after a heap that starts at `h`.
pub open spec fn gc_of(h: nat) -> GcLayout {
    let a = nursery_start(h);
    GcLayout {
        nursery_from_start: a as u32,
        nursery_from_end: (a + 2 * PAGE) as u32,
        nursery_to_start: (a + 2 * PAGE) as u32,
        nursery_to_end: (a + 4 * PAGE) as u32,
        old_start: (a + 4 * PAGE) as u32,
        old_end: (a + 12 * PAGE) as u32,
        shadow_base: (a + 12 * PAGE) as u32,
        rset_base: (a + 13 * PAGE) as u32,
        total_pages: ((a + 14 * PAGE) / (PAGE as int)) as u32,
    }
}

/// The shape of class number `i`.
pub open spec fn shape_of(c: WatCtx, cls: SpecIrClass, i: int) -> ShapeV {
    ShapeV {
        tag: i as u32,
        name: cls.name,
        size: match lookup(c.layouts, cls.name) {
            Some(l) => l.total,
            None => HEADER_SIZE,
        },
        ptrs: match lookup(c.layouts, cls.name) {
            Some(l) => ptrs_of(uniq(l.slots)),
            None => Seq::empty(),
        },
    }
}

/// The shapes of all classes.
pub open spec fn shapes_of(c: WatCtx, cs: Seq<SpecIrClass>) -> Seq<ShapeV> {
    Seq::new(cs.len(), |i: int| shape_of(c, cs[i], i))
}

/// The classes from `i` on.
pub open spec fn classes_s(c: WatCtx, st: WatSt, cs: Seq<SpecIrClass>, i: int) -> WatSt
    decreases cs.len() - i,
{
    if i >= cs.len() || i < 0 {
        st
    } else {
        classes_s(c, class_s(c, st, cs[i]), cs, i + 1)
    }
}

/// The header comment of the module.
pub open spec fn wat_header() -> Seq<char> {
    ";; Generated by nexa-compiler — WASM target\n"@ + ";; Assemble: wat2wasm --enable-bulk-memory app.wat -o app.wasm\n"@
}

/// The WAT text of a module, or none when it does not fit: a string pool
/// beyond [`POOL_LIMIT`] bytes, a class of more than `0x0fff_ffff` fields,
/// or a pooled string whose first 40 bytes end inside a character.
pub open spec fn module_wat(m: SpecIrModule) -> Option<Seq<char>> {
    match phase1_s(m) {
        None => None,
        Some(c) => {
            let gc = gc_of(heap_start_of(c.pool_data.len()));
            let st = WatSt {
                out: wat_header(),
                indent: 0,
                loop_idx: 0,
                node_idx: 0,
                current_class: Seq::empty(),
                frame: Seq::empty(),
                frame_size: 0,
                ret_vt: None,
            };
            let st = inc_s(ln_s(st, "(module"@));
            match memory_s(st, c, gc) {
                None => None,
                Some(st) => {
                    let st = emit_imports_s(st);
                    let st = gc_globals_s(st, gc);
                    let st = emit_gc_alloc_s(st);
                    let st = shape_map_s(st, shapes_of(c, m.classes));
                    let st = emit_gc_runtime_s(st);
                    let st = classes_s(c, st, m.classes, 0);
                    let st = start_s(st, c, m);
                    Some(ln_s(dec_s(st), ")"@).out)
                },
            }
        },
    }
}

/// A pool as plain values.
pub open spec fn pv(p: StringPool) -> PoolV {
    PoolV { index: p.index_view(), data: p.data@ }
}

/// Pools a string unless the pool would outgrow its limit.
pub fn try_intern(pool: &mut StringPool, s: &str) -> (ok: bool)
    requires
        old(pool).data.len() <= POOL_LIMIT,
    ensures
        final(pool).data.len() <= POOL_LIMIT,
        match intern_s(pv(*old(pool)), s@) {
            Some(q) => ok && pv(*final(pool)) == q,
            None => !ok && *final(pool) == *old(pool),
        },
{
    let n = s.as_bytes().len();
    if n > POOL_LIMIT as usize || (pool.data.len() as u64) + (n as u64) + 1 > POOL_LIMIT as u64 {
        return false;
    }
    pool.intern(s);
    true
}

/// Pools the strings of an expression.
#[verifier::loop_isolation(false)]
pub fn scan_expr(pool: &mut StringPool, e: &IrExpr) -> (ok: bool)
    requires
        old(pool).data.len() <= POOL_LIMIT,
    ensures
        final(pool).data.len() <= POOL_LIMIT,
        match scan_expr_s(pv(*old(pool)), e@) {
            Some(q) => ok && pv(*final(pool)) == q,
            None => !ok,
        },
    decreases e,
{
    match e {
        IrExpr::Str(sv) => try_intern(pool, sv.as_str()),
        IrExpr::Node { tag, children } => {
            if !try_intern(pool, tag.as_str()) {
                return false;
            }
            scan_exprs(pool, children)
        },
        IrExpr::Bin { lhs, rhs, .. } => {
            if !scan_expr(pool, lhs) {
                return false;
            }
            scan_expr(pool, rhs)
        },
        IrExpr::Unary { operand, .. } => scan_expr(pool, operand),
        IrExpr::Field { receiver, .. } => scan_expr(pool, receiver),
        IrExpr::Call { receiver, args, .. } => {
            if !scan_expr(pool, receiver) {
                return false;
            }
            scan_exprs(pool, args)
        },
        IrExpr::Invoke { args, .. } => scan_exprs(pool, args),
        IrExpr::Closure { body, .. } => scan_expr(pool, body),
        _ => true,
    }
}

/// Pools the strings of expressions.
#[verifier::loop_isolation(false)]
pub fn scan_exprs(pool: &mut StringPool, es: &Vec<IrExpr>) -> (ok: bool)
    requires
        old(pool).data.len() <= POOL_LIMIT,
    ensures
        final(pool).data.len() <= POOL_LIMIT,
        match scan_exprs_s(pv(*old(pool)), ir_exprs_view(es@)) {
            Some(q) => ok && pv(*final(pool)) == q,
            None => !ok,
        },
    decreases es,
{
    let ghost ev = ir_exprs_view(es@);
    proof {
        super::body::lemma_ir_exprs_view(es@);
    }
    let mut i: usize = 0;
    assert(ev.skip(0) =~= ev);
    while i < es.len()
        invariant
            i <= es.len(),
            ev == ir_exprs_view(es@),
            ev.len() == es.len(),
            pool.data.len() <= POOL_LIMIT,
            scan_exprs_s(pv(*old(pool)), ev) == scan_exprs_s(pv(*pool), ev.skip(i as int)),
        decreases es.len() - i,
    {
        proof {
            assert(decreases_to!(es => es@));
            assert(decreases_to!(es@ => es@[i as int]));
            assert(ev.skip(i as int)[0] == es@[i as int]@);
            assert(ev.skip(i as int).drop_first() =~= ev.skip(i + 1));
        }
        if !scan_expr(pool, &es[i]) {
            return false;
        }
        i = i + 1;
    }
    assert(ev.skip(i as int) =~= Seq::<SpecIrExpr>::empty());
    true
}

/// Pools the strings of a statement.
#[verifier::loop_isolation(false)]
pub fn scan_stmt(pool: &mut StringPool, s: &IrStmt) -> (ok: bool)
    requires
        old(pool).data.len() <= POOL_LIMIT,
    ensures
        final(pool).data.len() <= POOL_LIMIT,
        match scan_stmt_s(pv(*old(pool)), s@) {
            Some(q) => ok && pv(*final(pool)) == q,
            None => !ok,
        },
    decreases s,
{
    match s {
        IrStmt::Let { init, .. } => scan_expr(pool, init),
        IrStmt::Discard(init) => scan_expr(pool, init),
        IrStmt::Assign { target, value } => {
            if !scan_expr(pool, target) {
                return false;
            }
            scan_expr(pool, value)
        },
        IrStmt::Return(Some(e)) => scan_expr(pool, e),
        IrStmt::If { cond, then_body, else_body } => {
            if !scan_expr(pool, cond) {
                return false;
            }
            if !scan_stmts(pool, then_body) {
                return false;
            }
            match else_body {
                Some(eb) => scan_stmts(pool, eb),
                None => true,
            }
        },
        IrStmt::While { cond, body } => {
            if !scan_expr(pool, cond) {
                return false;
            }
            scan_stmts(pool, body)
        },
        IrStmt::For { iter, body, .. } => {
            if !scan_expr(pool, iter) {
                return false;
            }
            scan_stmts(pool, body)
        },
        _ => true,
    }
}

/// Pools the strings of statements.
#[verifier::loop_isolation(false)]
pub fn scan_stmts(pool: &mut StringPool, ss: &Vec<IrStmt>) -> (ok: bool)
    requires
        old(pool).data.len() <= POOL_LIMIT,
    ensures
        final(pool).data.len() <= POOL_LIMIT,
        match scan_stmts_s(pv(*old(pool)), ir_stmts_view(ss@)) {
            Some(q) => ok && pv(*final(pool)) == q,
            None => !ok,
        },
    decreases ss,
{
    let ghost sv = ir_stmts_view(ss@);
    proof {
        lemma_ir_stmts_view(ss@);
    }
    let mut i: usize = 0;
    assert(sv.skip(0) =~= sv);
    while i < ss.len()
        invariant
            i <= ss.len(),
            sv == ir_stmts_view(ss@),
            sv.len() == ss.len(),
            pool.data.len() <= POOL_LIMIT,
            scan_stmts_s(pv(*old(pool)), sv) == scan_stmts_s(pv(*pool), sv.skip(i as int)),
        decreases ss.len() - i,
    {
        proof {
            assert(decreases_to!(ss => ss@));
            assert(decreases_to!(ss@ => ss@[i as int]));
            assert(sv.skip(i as int)[0] == ss@[i as int]@);
            assert(sv.skip(i as int).drop_first() =~= sv.skip(i + 1));
        }
        if !scan_stmt(pool, &ss[i]) {
            return false;
        }
        i = i + 1;
    }
    assert(sv.skip(i as int) =~= Seq::<SpecIrStmt>::empty());
    true
}

/// Why the backend could not produce a module.
#[derive(Debug)]
pub enum WasmCodegenError {
    Error(String),
}

/// The message of a module the backend cannot produce.
pub open spec fn unsupported_msg() -> Seq<char> {
    "module does not fit the WASM backend (string pool, field count, or a pooled string cut inside a character)"@
}

/// The layout of a class's objects, which the first phase records.
pub proof fn lemma_layout(l: StructLayout, cls: SpecIrClass)
    requires
        l.slots_view() == slots_spec(cls.fields).0,
        l.total_size == (if slots_spec(cls.fields).1 >= HEADER_SIZE {
            slots_spec(cls.fields).1
        } else {
            HEADER_SIZE as nat
        }),
    ensures
        (LayoutV { slots: l.slots_view(), total: l.total_size }) == layout_of(cls),
{
}

/// The collector's regions from `GcLayout::new`.
pub proof fn lemma_gc(g: GcLayout, h: nat)
    requires
        h + 15 * PAGE <= u32::MAX,
        g.nursery_from_start == nursery_start(h),
        g.nursery_from_end == g.nursery_from_start + 2 * PAGE,
        g.nursery_to_start == g.nursery_from_end,
        g.nursery_to_end == g.nursery_to_start + 2 * PAGE,
        g.old_start == g.nursery_to_end,
        g.old_end == g.old_start + 8 * PAGE,
        g.shadow_base == g.old_end,
        g.rset_base == g.shadow_base + PAGE,
        g.total_pages == (g.rset_base + PAGE) / (PAGE as int),
    ensures
        g == gc_of(h),
        gc_fits(g),
{
    lemma_round_up(h, PAGE as nat);
}

impl WatGen {
    /// The first phase: pools `#app` and every string of the module,
    /// records each class's tag, layout and methods that return nothing.
    pub fn phase1(&mut self, m: &IrModule) -> (ok: bool)
        requires
            old(self).ctx() == (WatCtx {
                pool: Seq::empty(),
                pool_data: Seq::empty(),
                layouts: Seq::empty(),
                void_methods: Seq::empty(),
                class_tags: Seq::empty(),
            }),
        ensures
            final(self).st() == old(self).st(),
            match phase1_s(m@) {
                Some(c) => ok && final(self).ctx() == c,
                None => !ok,
            },
            final(self).pool.data.len() <= POOL_LIMIT,
    {
        let ghost c0 = self.ctx();
        assert(pv(self.pool) == pool_of(c0));
        if !try_intern(&mut self.pool, "#app") {
            return false;
        }
        assert(self.ctx() == with_pool(c0, pv(self.pool)));
        let ghost cv = views(m.classes@);
        let mut i: usize = 0;
        while i < m.classes.len()
            invariant
                i <= m.classes.len(),
                cv == views(m.classes@),
                self.st() == old(self).st(),
                self.pool.data.len() <= POOL_LIMIT,
                phase1_s(m@) == phase_classes_s(self.ctx(), cv, i as int),
            decreases m.classes.len() - i,
        {
            let cls = &m.classes[i];
            assert(cv[i as int] == cls@);
            let ghost ci = self.ctx();
            let tag = i as u32;
            self.class_tags.push((cls.name.clone(), tag));
            assert(named_u32(self.class_tags@) =~= ci.class_tags.push((cls.name@, i as int as u32)));
            assert(self.ctx() == WatCtx { class_tags: ci.class_tags.push((cls.name@, i as int as u32)), ..ci });
            let ghost c1 = self.ctx();
            if !scan_stmts(&mut self.pool, &cls.constructor_body) {
                return false;
            }
            assert(self.ctx() == with_pool(c1, pv(self.pool)));
            let ghost mv = views(cls.methods@);
            let ghost c2 = self.ctx();
            assert(phase_class_s(ci, cls@, i as int) == (match phase_methods_s(c2, cls.name@, mv, 0) {
                None => None,
                Some(c) => if cls@.fields.len() > 0x0fff_ffff {
                    None
                } else {
                    Some(WatCtx { layouts: c.layouts.push((cls.name@, layout_of(cls@))), ..c })
                },
            }));
            let mut k: usize = 0;
            while k < cls.methods.len()
                invariant
                    k <= cls.methods.len(),
                    mv == views(cls.methods@),
                    self.st() == old(self).st(),
                    self.pool.data.len() <= POOL_LIMIT,
                    phase_methods_s(c2, cls.name@, mv, 0) == phase_methods_s(self.ctx(), cls.name@, mv, k as int),
                    phase_methods_s(c2, cls.name@, mv, 0) is None ==> phase1_s(m@) is None,
                decreases cls.methods.len() - k,
            {
                let meth = &cls.methods[k];
                assert(mv[k as int] == meth@);
                let ghost ck = self.ctx();
                if !scan_stmts(&mut self.pool, &meth.body) {
                    return false;
                }
                assert(self.ctx() == with_pool(ck, pv(self.pool)));
                match meth.return_ty {
                    IrType::Void => {
                        let ghost cp = self.ctx();
                        self.void_methods.push((cls.name.clone(), meth.name.clone()));
                        assert(self.void_methods@.map_values(|e: (String, String)| (e.0@, e.1@)) =~= cp.void_methods.push((cls.name@, meth.name@)));
                        assert(self.ctx() == WatCtx { void_methods: cp.void_methods.push((cls.name@, meth.name@)), ..cp });
                    },
                    _ => {},
                }
                k = k + 1;
            }
            if cls.fields.len() > 0x0fff_ffff {
                return false;
            }
            let l = StructLayout::compute(cls);
            proof {
                lemma_layout(l, cls@);
            }
            let ghost cl = self.ctx();
            self.layouts.push((cls.name.clone(), l));
            assert(self.layouts@.map_values(
                |e: (String, StructLayout)| (e.0@, LayoutV { slots: e.1.slots_view(), total: e.1.total_size }),
            ) =~= cl.layouts.push((cls.name@, layout_of(cls@))));
            assert(self.ctx() == WatCtx { layouts: cl.layouts.push((cls.name@, layout_of(cls@))), ..cl });
            i = i + 1;
        }
        true
    }
}

impl WatGen {
    /// The shapes of all classes, from the layouts of the first phase.
    pub fn build_shapes(&self, m: &IrModule) -> (r: Vec<Shape>)
        ensures
            shapes_v(r@) == shapes_of(self.ctx(), views(m.classes@)),
    {
        let ghost c = self.ctx();
        let ghost cv = views(m.classes@);
        let mut out: Vec<Shape> = Vec::new();
        let mut i: usize = 0;
        while i < m.classes.len()
            invariant
                i <= m.classes.len(),
                c == self.ctx(),
                cv == views(m.classes@),
                out@.len() == i,
                forall|k: int| 0 <= k < i ==> (#[trigger] out@[k]).v() == shape_of(c, cv[k], k),
            decreases m.classes.len() - i,
        {
            let cls = &m.classes[i];
            assert(cv[i as int] == cls@);
            let mut size: u32 = HEADER_SIZE;
            let mut ptrs: Vec<(u32, String)> = Vec::new();
            match self.find_layout(cls.name.as_str()) {
                Some(k) => {
                    size = self.layouts[k].1.total_size;
                    let d = uniq_slots(&self.layouts[k].1);
                    let ghost dv = d@.map_values(|e: (String, crate::wasm_layout::FieldSlot)| (e.0@, e.1.offset as nat, e.1.vt));
                    let mut j: usize = d.len();
                    assert(dv.skip(j as int) =~= Seq::<(Seq<char>, nat, ValTy)>::empty());
                    let mut rev: Vec<(u32, String)> = Vec::new();
                    // collect from the front
                    let mut q: usize = 0;
                    assert(dv.skip(0) =~= dv);
                    assert(ptrs@.map_values(|p: (u32, String)| (p.0, p.1@)) =~= Seq::<(u32, Seq<char>)>::empty());
                    while q < d.len()
                        invariant
                            q <= d.len(),
                            dv == d@.map_values(|e: (String, crate::wasm_layout::FieldSlot)| (e.0@, e.1.offset as nat, e.1.vt)),
                            ptrs_of(dv) == ptrs@.map_values(|p: (u32, String)| (p.0, p.1@)) + ptrs_of(dv.skip(q as int)),
                        decreases d.len() - q,
                    {
                        let ghost pvv = ptrs@.map_values(|p: (u32, String)| (p.0, p.1@));
                        assert(dv.skip(q as int)[0] == dv[q as int]);
                        assert(dv.skip(q as int).drop_first() =~= dv.skip(q + 1));
                        if d[q].1.vt == ValTy::I32 {
                            ptrs.push((d[q].1.offset, d[q].0.clone()));
                            assert(ptrs@.map_values(|p: (u32, String)| (p.0, p.1@)) =~= pvv.push((dv[q as int].1 as u32, dv[q as int].0)));
                            assert(pvv + ptrs_of(dv.skip(q as int)) =~= pvv.push((dv[q as int].1 as u32, dv[q as int].0)) + ptrs_of(dv.skip(q + 1)));
                        }
                        q = q + 1;
                    }
                    assert(dv.skip(q as int) =~= Seq::<(Seq<char>, nat, ValTy)>::empty());
                    assert(ptrs@.map_values(|p: (u32, String)| (p.0, p.1@)) =~= ptrs_of(dv));
                },
                None => {
                    assert(ptrs@.map_values(|p: (u32, String)| (p.0, p.1@)) =~= Seq::<(u32, Seq<char>)>::empty());
                },
            }
            out.push(Shape { tag: i as u32, name: cls.name.clone(), size, ptrs });
            i = i + 1;
        }
        assert(shapes_v(out@) =~= shapes_of(c, cv));
        out
    }

    /// Writes the module text after the first phase.
    #[verifier::spinoff_prover]
    pub fn emit_module(&mut self, m: &IrModule) -> (ok: bool)
        requires
            old(self).pool.data.len() <= POOL_LIMIT,
            old(self).st() == (WatSt {
                out: Seq::empty(),
                indent: 0,
                loop_idx: 0,
                node_idx: 0,
                current_class: Seq::empty(),
                frame: Seq::empty(),
                frame_size: 0,
                ret_vt: None,
            }),
        ensures
            final(self).ctx() == old(self).ctx(),
            ({
                let c = old(self).ctx();
                let gc = gc_of(heap_start_of(c.pool_data.len()));
                let st = WatSt {
                    out: wat_header(),
                    indent: 0,
                    loop_idx: 0,
                    node_idx: 0,
                    current_class: Seq::empty(),
                    frame: Seq::empty(),
                    frame_size: 0,
                    ret_vt: None,
                };
                let st = inc_s(ln_s(st, "(module"@));
                match memory_s(st, c, gc) {
                    None => !ok,
                    Some(st) => {
                        let st = emit_imports_s(st);
                        let st = gc_globals_s(st, gc);
                        let st = emit_gc_alloc_s(st);
                        let st = shape_map_s(st, shapes_of(c, m@.classes));
                        let st = emit_gc_runtime_s(st);
                        let st = classes_s(c, st, m@.classes, 0);
                        let st = start_s(st, c, m@);
                        ok && final(self).st() == ln_s(dec_s(st), ")"@)
                    },
                }
            }),
    {
        let ghost c = self.ctx();
        let h = self.pool.heap_start();
        let gc = GcLayout::new(h);
        proof {
            lemma_gc(gc, h as nat);
        }
        let shapes = self.build_shapes(m);
        push_str(&mut self.out, ";; Generated by nexa-compiler — WASM target\n");
        push_str(&mut self.out, ";; Assemble: wat2wasm --enable-bulk-memory app.wat -o app.wasm\n");
        assert(self.out@ =~= wat_header());
        self.ln_str("(module");
        self.inc();
        if !self.emit_memory(&gc) {
            return false;
        }
        self.emit_imports();
        self.emit_gc_globals(&gc);
        self.emit_gc_alloc();
        self.emit_shape_map(&shapes);
        self.emit_gc_runtime();
        let ghost s0 = self.st();
        let ghost cv = views(m.classes@);
        let mut i: usize = 0;
        while i < m.classes.len()
            invariant
                i <= m.classes.len(),
                cv == views(m.classes@),
                self.ctx() == c,
                c == old(self).ctx(),
                classes_s(c, s0, cv, 0) == classes_s(c, self.st(), cv, i as int),
            decreases m.classes.len() - i,
        {
            assert(cv[i as int] == m.classes@[i as int]@);
            self.compile_class(&m.classes[i]);
            i = i + 1;
        }
        self.emit_start(m);
        self.dec();
        self.ln_str(")");
        true
    }
}

/// WASM backend: lowers an IR module to WebAssembly Text format.
pub struct WasmCodegen;

impl WasmCodegen {
    pub fn new() -> (g: WasmCodegen) {
        WasmCodegen
    }

    /// The WAT text of `ir`, or an error when the module does not fit the
    /// backend (see [`module_wat`]).
    pub fn generate_wat(&self, ir: &IrModule) -> (r: Result<String, WasmCodegenError>)
        ensures
            match module_wat(ir@) {
                Some(w) => r matches Ok(s) && s@ == w,
                None => r matches Err(WasmCodegenError::Error(msg)) && msg@ == unsupported_msg(),
            },
    {
        generate_wat(ir)
    }
}

/// The WAT text of `ir`, or an error when the module does not fit the
/// backend (see [`module_wat`]).
pub fn generate_wat(ir: &IrModule) -> (r: Result<String, WasmCodegenError>)
    ensures
        match module_wat(ir@) {
            Some(w) => r matches Ok(s) && s@ == w,
            None => r matches Err(WasmCodegenError::Error(msg)) && msg@ == unsupported_msg(),
        },
{
    let mut g = WatGen::new();
    assert(g.ctx() == (WatCtx {
        pool: Seq::empty(),
        pool_data: Seq::empty(),
        layouts: Seq::empty(),
        void_methods: Seq::empty(),
        class_tags: Seq::empty(),
    }));
    let msg = "module does not fit the WASM backend (string pool, field count, or a pooled string cut inside a character)";
    if !g.phase1(ir) {
        return Err(WasmCodegenError::Error(string_from_chars(chars_vec(msg).as_slice())));
    }
    assert(g.st() == (WatSt {
        out: Seq::empty(),
        indent: 0,
        loop_idx: 0,
        node_idx: 0,
        current_class: Seq::empty(),
        frame: Seq::empty(),
        frame_size: 0,
        ret_vt: None,
    }));
    if !g.emit_module(ir) {
        return Err(WasmCodegenError::Error(string_from_chars(chars_vec(msg).as_slice())));
    }
    Ok(string_from_chars(g.out.as_slice()))
}

} // verus!
