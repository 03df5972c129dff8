//! The formatted parts of the generated module: the collector's globals,
//! the memory and data section, the shape map and the entry point.
use vstd::prelude::*;
use super::{WatGen, WatSt, WatCtx, blank_s, comment_s, dec_s, inc_s, ln_s, section_s, dec, push_chars, lookup};
use crate::wasm_layout::{GcLayout, HEADER_SIZE, PAGE, data_text};
use crate::ir::{IrModule, IrRoute, IrServer, SpecIrModule, SpecIrRoute};
use crate::ast::views;
use crate::text::{chars_vec, push_str, str_eq};
use crate::testgen::push_decimal;

verus! {

/// A line made of a text, a number and a text.
pub open spec fn tnt(a: Seq<char>, n: nat, b: Seq<char>) -> Seq<char> {
    a + dec(n) + b
}

/// Builds `a`, the decimal digits of `n`, then `b`.
pub fn t_num(a: &str, n: u64, b: &str) -> (v: Vec<char>)
    ensures
        v@ == tnt(a@, n as nat, b@),
{
    let mut v: Vec<char> = Vec::new();
    push_str(&mut v, a);
    push_decimal(&mut v, n);
    push_str(&mut v, b);
    assert(v@ =~= tnt(a@, n as nat, b@));
    v
}

/// Builds `a`, the characters of `s`, then `b`.
pub fn t_txt(a: &str, s: &Vec<char>, b: &str) -> (v: Vec<char>)
    ensures
        v@ == a@ + s@ + b@,
{
    let mut v: Vec<char> = Vec::new();
    push_str(&mut v, a);
    push_chars(&mut v, s);
    push_str(&mut v, b);
    assert(v@ =~= a@ + s@ + b@);
    v
}

/// The collector's globals: the region bounds, the bump pointers of both
/// semi-spaces and the old generation, the shadow stack and remembered set
/// tops, the collection frontier, and the legacy heap pointer.
#[verifier::opaque]
pub open spec fn gc_globals_s(st: WatSt, gc: GcLayout) -> WatSt {
    let st = section_s(st, "GC globals — generational semi-space"@);
    let st = blank_s(st);
    let st = ln_s(st, tnt("(global $__gc_old_start i32 (i32.const "@, gc.old_start as nat, "))"@));
    let st = ln_s(st, tnt("(global $__gc_old_end   i32 (i32.const "@, gc.old_end as nat, "))"@));
    let st = ln_s(st, tnt("(global $__gc_shadow_base i32 (i32.const "@, gc.shadow_base as nat, "))"@));
    let st = ln_s(st, tnt("(global $__gc_rset_base   i32 (i32.const "@, gc.rset_base as nat, "))"@));
    let st = blank_s(st);
    let st = ln_s(st, tnt("(global $__gc_from_start (mut i32) (i32.const "@, gc.nursery_from_start as nat, "))"@));
    let st = ln_s(st, tnt("(global $__gc_from_end   (mut i32) (i32.const "@, gc.nursery_from_end as nat, "))"@));
    let st = ln_s(st, tnt("(global $__gc_from_ptr   (mut i32) (i32.const "@, gc.nursery_from_start as nat, "))"@));
    let st = ln_s(st, tnt("(global $__gc_to_start   (mut i32) (i32.const "@, gc.nursery_to_start as nat, "))"@));
    let st = ln_s(st, tnt("(global $__gc_to_end     (mut i32) (i32.const "@, gc.nursery_to_end as nat, "))"@));
    let st = ln_s(st, tnt("(global $__gc_to_ptr     (mut i32) (i32.const "@, gc.nursery_to_start as nat, "))"@));
    let st = ln_s(st, tnt("(global $__gc_old_ptr    (mut i32) (i32.const "@, gc.old_start as nat, "))"@));
    let st = ln_s(st, tnt("(global $__gc_shadow_ptr (mut i32) (i32.const "@, gc.shadow_base as nat, "))"@));
    let st = ln_s(st, tnt("(global $__gc_rset_ptr   (mut i32) (i32.const "@, gc.rset_base as nat, "))"@));
    let st = ln_s(st, tnt("(global $__gc_collect_frontier (mut i32) (i32.const "@, gc.nursery_from_start as nat, "))"@));
    let st = blank_s(st);
    let st = comment_s(st, "Legacy: bump-allocator globals (backed by GC from-space)"@);
    ln_s(st, tnt("(global $__heap_ptr (mut i32) (i32.const "@, gc.nursery_from_start as nat, "))"@))
}

/// The first `k` characters of a long text that make exactly 40 bytes, when
/// a character boundary falls there; from position `i` with `w` bytes so far.
pub open spec fn cut_from(s: Seq<char>, i: int, w: nat) -> Option<Seq<char>>
    decreases s.len() - i,
{
    if w >= 40 {
        if w == 40 { Some(s.take(i)) } else { None }
    } else if i >= s.len() || i < 0 {
        Some(s)
    } else {
        cut_from(s, i + 1, w + super::char_width(s[i]))
    }
}

/// A pooled string as its comment shows it: cut to its first 40 bytes when
/// longer (none when byte 40 falls inside a character).
pub open spec fn cut40(s: Seq<char>) -> Option<Seq<char>> {
    if super::utf8_len(s) > 40 { cut_from(s, 0, 0) } else { Some(s) }
}

/// The comment of a pooled string: its offset and its (cut) text.
pub open spec fn pool_note(off: u32, s: Seq<char>) -> Seq<char> {
    "  @"@ + dec(off as nat) + ": \""@ + s + "\""@
}

/// Comments for the pooled strings from `i` on, in pool order.
pub open spec fn pool_notes_s(st: WatSt, pool: Seq<(Seq<char>, u32)>, i: int) -> Option<WatSt>
    decreases pool.len() - i,
{
    if i >= pool.len() || i < 0 {
        Some(st)
    } else {
        match cut40(pool[i].0) {
            None => None,
            Some(d) => pool_notes_s(comment_s(st, pool_note(pool[i].1, d)), pool, i + 1),
        }
    }
}

/// The memory section: its size in pages, the data of the string pool with
/// a comment per string, and comments on the collector's regions.
#[verifier::opaque]
pub open spec fn memory_s(st: WatSt, c: WatCtx, gc: GcLayout) -> Option<WatSt> {
    let st = section_s(
        st,
        "Memory ("@ + dec(gc.total_pages as nat) + " pages = "@ + dec((gc.total_pages * 64) as nat)
            + " KiB — generational semi-space GC)"@,
    );
    let st = ln_s(st, tnt("(memory (export \"memory\") "@, gc.total_pages as nat, ")"@));
    let st2 = if c.pool_data.len() > 0 {
        let st = blank_s(st);
        let st = comment_s(st, "String pool — null-terminated"@);
        let st = ln_s(st, "(data (i32.const 0) \""@ + data_text(c.pool_data) + "\")"@);
        pool_notes_s(st, c.pool, 0)
    } else {
        Some(st)
    };
    match st2 {
        None => None,
        Some(st) => {
            let st = blank_s(st);
            let st = comment_s(
                st,
                "Nursery from ["@ + dec(gc.nursery_from_start as nat) + ", "@ + dec(gc.nursery_from_end as nat)
                    + ") | to ["@ + dec(gc.nursery_to_start as nat) + ", "@ + dec(gc.nursery_to_end as nat) + ")"@,
            );
            Some(
                comment_s(
                    st,
                    "Old gen ["@ + dec(gc.old_start as nat) + ", "@ + dec(gc.old_end as nat) + ") | shadow ["@ + dec(
                        gc.shadow_base as nat,
                    ) + ", "@ + dec((gc.shadow_base + PAGE) as nat) + ") | rset ["@ + dec(gc.rset_base as nat) + ", "@
                        + dec((gc.rset_base + PAGE) as nat) + ")"@,
                ),
            )
        },
    }
}

/// Bounds that keep the memory comments within 32 bits.
pub open spec fn gc_fits(gc: GcLayout) -> bool {
    &&& gc.total_pages < 0x0100_0000
    &&& gc.shadow_base + PAGE <= u32::MAX
    &&& gc.rset_base + PAGE <= u32::MAX
}

/// A text cut to its first 40 bytes.
fn cut40_exec(s: &Vec<char>) -> (r: Option<Vec<char>>)
    ensures
        match cut40(s@) {
            Some(d) => r matches Some(v) && v@ == d,
            None => r is None,
        },
{
    let w = super::utf8_width(s);
    if w <= 40 {
        return Some(super::copy_vec(s));
    }
    let mut i: usize = 0;
    let mut acc: usize = 0;
    while i < s.len() && acc < 40
        invariant
            i <= s.len(),
            acc <= 43,
            cut_from(s@, 0, 0) == cut_from(s@, i as int, acc as nat),
        decreases s.len() - i,
    {
        let v = s[i] as u32;
        let cw: usize = if v < 0x80 { 1 } else if v < 0x800 { 2 } else if v < 0x10000 { 3 } else { 4 };
        acc = acc + cw;
        i = i + 1;
    }
    if acc == 40 {
        let mut out: Vec<char> = Vec::new();
        let mut k: usize = 0;
        while k < i
            invariant
                k <= i <= s.len(),
                out@ == s@.take(k as int),
            decreases i - k,
        {
            out.push(s[k]);
            assert(out@ =~= s@.take(k + 1));
            k = k + 1;
        }
        Some(out)
    } else if acc > 40 {
        None
    } else {
        Some(super::copy_vec(s))
    }
}

impl WatGen {
    /// Writes the collector's globals.
    pub fn emit_gc_globals(&mut self, gc: &GcLayout)
        ensures
            final(self).st() == gc_globals_s(old(self).st(), *gc),
            final(self).ctx() == old(self).ctx(),
    {
        proof {
            reveal(gc_globals_s);
        }
        self.section_str("GC globals — generational semi-space");
        self.blank();
        self.ln(&t_num("(global $__gc_old_start i32 (i32.const ", gc.old_start as u64, "))"));
        self.ln(&t_num("(global $__gc_old_end   i32 (i32.const ", gc.old_end as u64, "))"));
        self.ln(&t_num("(global $__gc_shadow_base i32 (i32.const ", gc.shadow_base as u64, "))"));
        self.ln(&t_num("(global $__gc_rset_base   i32 (i32.const ", gc.rset_base as u64, "))"));
        self.blank();
        self.ln(&t_num("(global $__gc_from_start (mut i32) (i32.const ", gc.nursery_from_start as u64, "))"));
        self.ln(&t_num("(global $__gc_from_end   (mut i32) (i32.const ", gc.nursery_from_end as u64, "))"));
        self.ln(&t_num("(global $__gc_from_ptr   (mut i32) (i32.const ", gc.nursery_from_start as u64, "))"));
        self.ln(&t_num("(global $__gc_to_start   (mut i32) (i32.const ", gc.nursery_to_start as u64, "))"));
        self.ln(&t_num("(global $__gc_to_end     (mut i32) (i32.const ", gc.nursery_to_end as u64, "))"));
        self.ln(&t_num("(global $__gc_to_ptr     (mut i32) (i32.const ", gc.nursery_to_start as u64, "))"));
        self.ln(&t_num("(global $__gc_old_ptr    (mut i32) (i32.const ", gc.old_start as u64, "))"));
        self.ln(&t_num("(global $__gc_shadow_ptr (mut i32) (i32.const ", gc.shadow_base as u64, "))"));
        self.ln(&t_num("(global $__gc_rset_ptr   (mut i32) (i32.const ", gc.rset_base as u64, "))"));
        self.ln(&t_num("(global $__gc_collect_frontier (mut i32) (i32.const ", gc.nursery_from_start as u64, "))"));
        self.blank();
        self.comment_str("Legacy: bump-allocator globals (backed by GC from-space)");
        self.ln(&t_num("(global $__heap_ptr (mut i32) (i32.const ", gc.nursery_from_start as u64, "))"));
    }

    /// Writes the memory section; false when a pooled string cannot be cut
    /// at 40 bytes.
    pub fn emit_memory(&mut self, gc: &GcLayout) -> (ok: bool)
        requires
            gc_fits(*gc),
        ensures
            final(self).ctx() == old(self).ctx(),
            match memory_s(old(self).st(), old(self).ctx(), *gc) {
                Some(s) => ok && final(self).st() == s,
                None => !ok,
            },
    {
        proof {
            reveal(memory_s);
        }
        let mut t: Vec<char> = Vec::new();
        push_str(&mut t, "Memory (");
        push_decimal(&mut t, gc.total_pages as u64);
        push_str(&mut t, " pages = ");
        push_decimal(&mut t, (gc.total_pages * 64) as u64);
        push_str(&mut t, " KiB — generational semi-space GC)");
        assert(t@ =~= "Memory ("@ + dec(gc.total_pages as nat) + " pages = "@ + dec((gc.total_pages * 64) as nat)
            + " KiB — generational semi-space GC)"@);
        self.section(&t);
        self.ln(&t_num("(memory (export \"memory\") ", gc.total_pages as u64, ")"));
        let ghost c = self.ctx();
        let ghost st1 = self.st();
        if self.pool.data.len() > 0 {
            self.blank();
            self.comment_str("String pool — null-terminated");
            let esc = chars_vec(self.pool.escaped().as_str());
            self.ln(&t_txt("(data (i32.const 0) \"", &esc, "\")"));
            let ghost st0 = self.st();
            assert(st0 == ln_s(comment_s(blank_s(st1), "String pool — null-terminated"@), "(data (i32.const 0) \""@ + data_text(c.pool_data) + "\")"@));
            let mut i: usize = 0;
            while i < self.pool.index.len()
                invariant
                    i <= self.pool.index.len(),
                    self.ctx() == c,
                    c == old(self).ctx(),
                    pool_notes_s(st0, c.pool, 0) is None ==> memory_s(old(self).st(), old(self).ctx(), *gc) is None,
                    c.pool == self.pool.index_view(),
                    pool_notes_s(st0, c.pool, 0) == pool_notes_s(self.st(), c.pool, i as int),
                decreases self.pool.index.len() - i,
            {
                let name = chars_vec(self.pool.index[i].0.as_str());
                let off = self.pool.index[i].1;
                assert(c.pool[i as int] == (name@, off));
                match cut40_exec(&name) {
                    None => return false,
                    Some(d) => {
                        let mut n: Vec<char> = Vec::new();
                        push_str(&mut n, "  @");
                        push_decimal(&mut n, off as u64);
                        push_str(&mut n, ": \"");
                        push_chars(&mut n, &d);
                        push_str(&mut n, "\"");
                        assert(n@ =~= pool_note(off, d@));
                        self.comment(&n);
                    },
                }
                i = i + 1;
            }
        }
        self.blank();
        let mut t: Vec<char> = Vec::new();
        push_str(&mut t, "Nursery from [");
        push_decimal(&mut t, gc.nursery_from_start as u64);
        push_str(&mut t, ", ");
        push_decimal(&mut t, gc.nursery_from_end as u64);
        push_str(&mut t, ") | to [");
        push_decimal(&mut t, gc.nursery_to_start as u64);
        push_str(&mut t, ", ");
        push_decimal(&mut t, gc.nursery_to_end as u64);
        push_str(&mut t, ")");
        assert(t@ =~= "Nursery from ["@ + dec(gc.nursery_from_start as nat) + ", "@ + dec(gc.nursery_from_end as nat)
            + ") | to ["@ + dec(gc.nursery_to_start as nat) + ", "@ + dec(gc.nursery_to_end as nat) + ")"@);
        self.comment(&t);
        let mut t: Vec<char> = Vec::new();
        push_str(&mut t, "Old gen [");
        push_decimal(&mut t, gc.old_start as u64);
        push_str(&mut t, ", ");
        push_decimal(&mut t, gc.old_end as u64);
        push_str(&mut t, ") | shadow [");
        push_decimal(&mut t, gc.shadow_base as u64);
        push_str(&mut t, ", ");
        push_decimal(&mut t, (gc.shadow_base + PAGE) as u64);
        push_str(&mut t, ") | rset [");
        push_decimal(&mut t, gc.rset_base as u64);
        push_str(&mut t, ", ");
        push_decimal(&mut t, (gc.rset_base + PAGE) as u64);
        push_str(&mut t, ")");
        assert(t@ =~= "Old gen ["@ + dec(gc.old_start as nat) + ", "@ + dec(gc.old_end as nat) + ") | shadow ["@ + dec(
            gc.shadow_base as nat,
        ) + ", "@ + dec((gc.shadow_base + PAGE) as nat) + ") | rset ["@ + dec(gc.rset_base as nat) + ", "@ + dec(
            (gc.rset_base + PAGE) as nat,
        ) + ")"@);
        self.comment(&t);
        true
    }
}

// ── Shape map ──────────────────────────────────────────────────────────────

/// What the collector knows of a class: its type tag, name, object size and
/// the pointer fields (offset, name) it must scan.
pub struct Shape {
    pub tag: u32,
    pub name: String,
    pub size: u32,
    pub ptrs: Vec<(u32, String)>,
}

/// A shape as plain values.
pub struct ShapeV {
    pub tag: u32,
    pub name: Seq<char>,
    pub size: u32,
    pub ptrs: Seq<(u32, Seq<char>)>,
}

impl Shape {
    pub open spec fn v(&self) -> ShapeV {
        ShapeV {
            tag: self.tag,
            name: self.name@,
            size: self.size,
            ptrs: self.ptrs@.map_values(|p: (u32, String)| (p.0, p.1@)),
        }
    }
}

/// The shapes as plain values.
pub open spec fn shapes_v(v: Seq<Shape>) -> Seq<ShapeV> {
    v.map_values(|s: Shape| s.v())
}

/// One `if` of `$gc_object_size` per shape, from `i` on.
pub open spec fn sizes_s(st: WatSt, shapes: Seq<ShapeV>, i: int) -> WatSt
    decreases shapes.len() - i,
{
    if i >= shapes.len() || i < 0 {
        st
    } else {
        let sh = shapes[i];
        let st = ln_s(st, tnt("(if (i32.eq (local.get $tag) (i32.const "@, sh.tag as nat, "))"@));
        let st = inc_s(st);
        let st = ln_s(st, "(then (return (i32.const "@ + dec(sh.size as nat) + "))))  ;; class "@ + sh.name);
        sizes_s(dec_s(st), shapes, i + 1)
    }
}

/// The copy of each pointer field of one class, from `k` on.
pub open spec fn field_scans_s(st: WatSt, name: Seq<char>, ptrs: Seq<(u32, Seq<char>)>, k: int) -> WatSt
    decreases ptrs.len() - k,
{
    if k >= ptrs.len() || k < 0 {
        st
    } else {
        let (off, f) = ptrs[k];
        let st = comment_s(st, "class "@ + name + " — field '"@ + f + "' at +"@ + dec(off as nat));
        let st = ln_s(st, tnt("(i32.store offset="@, off as nat, " (local.get $ptr)"@));
        let st = inc_s(st);
        let st = ln_s(st, tnt("(call $gc_copy (i32.load offset="@, off as nat, " (local.get $ptr)))))))"@));
        field_scans_s(dec_s(st), name, ptrs, k + 1)
    }
}

/// One `if` of `$gc_scan_object` per shape with pointer fields, from `i` on.
pub open spec fn scans_s(st: WatSt, shapes: Seq<ShapeV>, i: int) -> WatSt
    decreases shapes.len() - i,
{
    if i >= shapes.len() || i < 0 {
        st
    } else if shapes[i].ptrs.len() == 0 {
        scans_s(st, shapes, i + 1)
    } else {
        let sh = shapes[i];
        let st = ln_s(st, tnt("(if (i32.eq (local.get $tag) (i32.const "@, sh.tag as nat, "))"@));
        let st = inc_s(st);
        let st = ln_s(st, "(then"@);
        let st = inc_s(st);
        let st = field_scans_s(st, sh.name, sh.ptrs, 0);
        scans_s(dec_s(dec_s(st)), shapes, i + 1)
    }
}

/// The shape map: `$gc_object_size`, the size of an object by its tag, and
/// `$gc_scan_object`, which copies every pointer field of an object.
#[verifier::opaque]
pub open spec fn shape_map_s(st: WatSt, shapes: Seq<ShapeV>) -> WatSt {
    let st = section_s(st, "Shape map — object size and pointer-field scanner"@);
    let st = blank_s(st);
    let st = ln_s(st, "(func $gc_object_size (param $tag i32) (result i32)"@);
    let st = inc_s(st);
    let st = sizes_s(st, shapes, 0);
    let st = ln_s(st, tnt("(i32.const "@, HEADER_SIZE as nat, "))  ;; unknown tag — minimum header size"@));
    let st = dec_s(st);
    let st = blank_s(st);
    let st = ln_s(st, "(func $gc_scan_object (param $ptr i32)"@);
    let st = inc_s(st);
    let st = ln_s(st, "(local $tag i32)"@);
    let st = ln_s(st, "(local.set $tag (i32.load (local.get $ptr)))"@);
    let st = scans_s(st, shapes, 0);
    let st = ln_s(st, ")"@);
    dec_s(st)
}

// ── Entry point ────────────────────────────────────────────────────────────

/// The target of the first route for `/`.
pub open spec fn root_route(routes: Seq<SpecIrRoute>) -> Option<Seq<char>>
    decreases routes.len(),
{
    if routes.len() == 0 {
        None
    } else if routes[0].path == "/"@ {
        Some(routes[0].target)
    } else {
        root_route(routes.drop_first())
    }
}

/// The entry point `_nexa_start`: it renders the window of route `/` into
/// the `#app` element.
#[verifier::opaque]
pub open spec fn start_s(st: WatSt, c: WatCtx, m: SpecIrModule) -> WatSt {
    let st = section_s(st, "Application entry point"@);
    let st = blank_s(st);
    let st = ln_s(st, "(func $_nexa_start (export \"_nexa_start\")"@);
    let st = inc_s(st);
    let app: u32 = match lookup(c.pool, "#app"@) {
        Some(o) => o,
        None => 0,
    };
    let st = match root_route(m.routes) {
        Some(win) => {
            let st = ln_s(st, "(local $root_el i32)"@);
            let st = ln_s(st, "(local $window_inst i32)"@);
            let st = ln_s(st, "(local $page i32)"@);
            let st = ln_s(st, tnt("(local.set $root_el (call $env_dom_query_selector (i32.const "@, app as nat, ")))"@));
            let st = ln_s(st, "(local.set $window_inst (call $"@ + win + "_new))"@);
            let st = ln_s(st, "(local.set $page (call $"@ + win + "_render (local.get $window_inst)))"@);
            ln_s(st, "(call $env_dom_append_child (local.get $root_el) (local.get $page))"@)
        },
        None => comment_s(st, "No route \"/\" defined — nothing to render at startup"@),
    };
    let st = match m.server {
        Some(srv) => comment_s(st, "Server port "@ + dec(srv.port as nat) + " — handled by the JS runtime layer"@),
        None => st,
    };
    let st = ln_s(st, ")"@);
    dec_s(st)
}

/// The offset of the last pooled string equal to `k`.
pub fn pool_offset(g: &WatGen, k: &str) -> (r: Option<u32>)
    ensures
        r == lookup(g.ctx().pool, k@),
{
    let mut i: usize = g.pool.index.len();
    let ghost m = g.ctx().pool;
    assert(m.take(i as int) =~= m);
    while i > 0
        invariant
            i <= g.pool.index.len(),
            m == g.ctx().pool,
            lookup(m, k@) == lookup(m.take(i as int), k@),
        decreases i,
    {
        assert(m.take(i as int).drop_last() =~= m.take(i - 1));
        if str_eq(g.pool.index[i - 1].0.as_str(), k) {
            return Some(g.pool.index[i - 1].1);
        }
        i = i - 1;
    }
    None
}

impl WatGen {
    /// Writes the shape map.
    pub fn emit_shape_map(&mut self, shapes: &Vec<Shape>)
        ensures
            final(self).st() == shape_map_s(old(self).st(), shapes_v(shapes@)),
            final(self).ctx() == old(self).ctx(),
    {
        proof {
            reveal(shape_map_s);
        }
        let ghost sv = shapes_v(shapes@);
        self.section_str("Shape map — object size and pointer-field scanner");
        self.blank();
        self.ln_str("(func $gc_object_size (param $tag i32) (result i32)");
        self.inc();
        let ghost s0 = self.st();
        let mut i: usize = 0;
        while i < shapes.len()
            invariant
                i <= shapes.len(),
                sv == shapes_v(shapes@),
                self.ctx() == old(self).ctx(),
                sizes_s(s0, sv, 0) == sizes_s(self.st(), sv, i as int),
            decreases shapes.len() - i,
        {
            let sh = &shapes[i];
            assert(sv[i as int] == sh.v());
            self.ln(&t_num("(if (i32.eq (local.get $tag) (i32.const ", sh.tag as u64, "))"));
            self.inc();
            let mut t: Vec<char> = Vec::new();
            push_str(&mut t, "(then (return (i32.const ");
            push_decimal(&mut t, sh.size as u64);
            push_str(&mut t, "))))  ;; class ");
            push_chars(&mut t, &chars_vec(sh.name.as_str()));
            assert(t@ =~= "(then (return (i32.const "@ + dec(sh.size as nat) + "))))  ;; class "@ + sh.name@);
            self.ln(&t);
            self.dec();
            i = i + 1;
        }
        self.ln(&t_num("(i32.const ", HEADER_SIZE as u64, "))  ;; unknown tag — minimum header size"));
        self.dec();
        self.blank();
        self.ln_str("(func $gc_scan_object (param $ptr i32)");
        self.inc();
        self.ln_str("(local $tag i32)");
        self.ln_str("(local.set $tag (i32.load (local.get $ptr)))");
        let ghost s1 = self.st();
        let mut i: usize = 0;
        while i < shapes.len()
            invariant
                i <= shapes.len(),
                sv == shapes_v(shapes@),
                self.ctx() == old(self).ctx(),
                scans_s(s1, sv, 0) == scans_s(self.st(), sv, i as int),
            decreases shapes.len() - i,
        {
            let sh = &shapes[i];
            assert(sv[i as int] == sh.v());
            if sh.ptrs.len() > 0 {
                self.ln(&t_num("(if (i32.eq (local.get $tag) (i32.const ", sh.tag as u64, "))"));
                self.inc();
                self.ln_str("(then");
                self.inc();
                let name = chars_vec(sh.name.as_str());
                let ghost s2 = self.st();
                let ghost pv = sh.v().ptrs;
                let mut k: usize = 0;
                while k < sh.ptrs.len()
                    invariant
                        k <= sh.ptrs.len(),
                        pv == sh.v().ptrs,
                        name@ == sh.name@,
                        self.ctx() == old(self).ctx(),
                        field_scans_s(s2, sh.name@, pv, 0) == field_scans_s(self.st(), sh.name@, pv, k as int),
                    decreases sh.ptrs.len() - k,
                {
                    let off = sh.ptrs[k].0;
                    let f = chars_vec(sh.ptrs[k].1.as_str());
                    assert(pv[k as int] == (off, f@));
                    let mut t: Vec<char> = Vec::new();
                    push_str(&mut t, "class ");
                    push_chars(&mut t, &name);
                    push_str(&mut t, " — field '");
                    push_chars(&mut t, &f);
                    push_str(&mut t, "' at +");
                    push_decimal(&mut t, off as u64);
                    assert(t@ =~= "class "@ + sh.name@ + " — field '"@ + f@ + "' at +"@ + dec(off as nat));
                    self.comment(&t);
                    self.ln(&t_num("(i32.store offset=", off as u64, " (local.get $ptr)"));
                    self.inc();
                    self.ln(&t_num("(call $gc_copy (i32.load offset=", off as u64, " (local.get $ptr)))))))"));
                    self.dec();
                    k = k + 1;
                }
                self.dec();
                self.dec();
            }
            i = i + 1;
        }
        self.ln_str(")");
        self.dec();
    }

    /// Writes the entry point.
    pub fn emit_start(&mut self, m: &IrModule)
        ensures
            final(self).st() == start_s(old(self).st(), old(self).ctx(), m@),
            final(self).ctx() == old(self).ctx(),
    {
        proof {
            reveal(start_s);
        }
        self.section_str("Application entry point");
        self.blank();
        self.ln_str("(func $_nexa_start (export \"_nexa_start\")");
        self.inc();
        let app: u32 = match pool_offset(self, "#app") {
            Some(o) => o,
            None => 0,
        };
        let mut j: usize = 0;
        let ghost rs = views(m.routes@);
        assert(rs.skip(0) =~= rs);
        let mut found: Option<usize> = None;
        while j < m.routes.len() && found.is_none()
            invariant
                j <= m.routes.len(),
                rs == views(m.routes@),
                match found {
                    Some(k) => k < m.routes.len() && root_route(rs) == Some(m.routes@[k as int].target@),
                    None => root_route(rs) == root_route(rs.skip(j as int)),
                },
            decreases m.routes.len() - j,
        {
            assert(rs.skip(j as int)[0] == m.routes@[j as int]@);
            assert(rs.skip(j as int).drop_first() =~= rs.skip(j + 1));
            if str_eq(m.routes[j].path.as_str(), "/") {
                found = Some(j);
            }
            j = j + 1;
        }
        match found {
            Some(k) => {
                let win = chars_vec(m.routes[k].target.as_str());
                self.ln_str("(local $root_el i32)");
                self.ln_str("(local $window_inst i32)");
                self.ln_str("(local $page i32)");
                self.ln(&t_num("(local.set $root_el (call $env_dom_query_selector (i32.const ", app as u64, ")))"));
                self.ln(&t_txt("(local.set $window_inst (call $", &win, "_new))"));
                self.ln(&t_txt("(local.set $page (call $", &win, "_render (local.get $window_inst)))"));
                self.ln_str("(call $env_dom_append_child (local.get $root_el) (local.get $page))");
            },
            None => {
                assert(rs.skip(j as int) =~= Seq::<SpecIrRoute>::empty());
                self.comment_str("No route \"/\" defined — nothing to render at startup");
            },
        }
        match &m.server {
            Some(srv) => {
                self.comment(&t_num("Server port ", srv.port as u64, " — handled by the JS runtime layer"));
            },
            None => {},
        }
        self.ln_str(")");
        self.dec();
    }
}

} // verus!
