//! The fixed parts of the generated module: host imports, the allocator and
//! the collector's runtime functions.
use vstd::prelude::*;
use super::{WatGen, WatSt, blank_s, comment_s, dec_s, inc_s, ln_s, section_s};

verus! {

/// The host imports: DOM access and console output.
#[verifier::opaque]
pub open spec fn emit_imports_s(st: WatSt) -> WatSt {
    let st = section_s(st, "JS host imports (DOM / I/O)"@);
    let st = ln_s(st, "(import \"env\" \"dom_create_element\" (func $env_dom_create_element (param i32) (result i32)))"@);
    let st = ln_s(st, "(import \"env\" \"dom_set_text_content\" (func $env_dom_set_text_content (param i32 i32)))"@);
    let st = ln_s(st, "(import \"env\" \"dom_append_child\" (func $env_dom_append_child (param i32 i32)))"@);
    let st = ln_s(st, "(import \"env\" \"dom_query_selector\" (func $env_dom_query_selector (param i32) (result i32)))"@);
    let st = ln_s(st, "(import \"env\" \"console_log_i64\" (func $env_console_log_i64 (param i64)))"@);
    let st = ln_s(st, "(import \"env\" \"console_log_str\" (func $env_console_log_str (param i32)))"@);
    st
}

/// The allocator: `$gc_alloc` bump-allocates a tagged object, collecting the nursery when it is full; `$__alloc` calls it with tag 0.
#[verifier::opaque]
pub open spec fn emit_gc_alloc_s(st: WatSt) -> WatSt {
    let st = section_s(st, "GC allocator"@);
    let st = blank_s(st);
    let st = comment_s(st, "$gc_alloc — bump-allocate 'size' bytes tagged with 'tag'; triggers minor GC when nursery is full."@);
    let st = ln_s(st, "(func $gc_alloc (param $size i32) (param $tag i32) (result i32)"@);
    let st = inc_s(st);
    let st = ln_s(st, "(local $ptr i32)"@);
    let st = comment_s(st, "Trigger minor GC if nursery would overflow"@);
    let st = ln_s(st, "(if (i32.gt_u"@);
    let st = inc_s(st);
    let st = ln_s(st, "(i32.add (global.get $__gc_from_ptr) (local.get $size))"@);
    let st = ln_s(st, "(global.get $__gc_from_end))"@);
    let st = dec_s(st);
    let st = ln_s(st, "(then (call $gc_minor_collect)))"@);
    let st = comment_s(st, "Bump-allocate"@);
    let st = ln_s(st, "(local.set $ptr (global.get $__gc_from_ptr))"@);
    let st = ln_s(st, "(global.set $__gc_from_ptr"@);
    let st = inc_s(st);
    let st = ln_s(st, "(i32.add (global.get $__gc_from_ptr) (local.get $size)))"@);
    let st = dec_s(st);
    let st = comment_s(st, "Write object header: tag at [+0], fwd=0 at [+4]"@);
    let st = ln_s(st, "(i32.store (local.get $ptr) (local.get $tag))"@);
    let st = ln_s(st, "(i32.store offset=4 (local.get $ptr) (i32.const 0))"@);
    let st = comment_s(st, "Sync legacy heap pointer"@);
    let st = ln_s(st, "(global.set $__heap_ptr (global.get $__gc_from_ptr))"@);
    let st = ln_s(st, "(local.get $ptr))"@);
    let st = dec_s(st);
    let st = blank_s(st);
    let st = comment_s(st, "$__alloc — legacy wrapper: calls $gc_alloc with tag=0."@);
    let st = ln_s(st, "(func $__alloc (param $size i32) (result i32)"@);
    let st = inc_s(st);
    let st = ln_s(st, "(call $gc_alloc (local.get $size) (i32.const 0)))"@);
    let st = dec_s(st);
    st
}

/// The collector's runtime: forwarding, copying, the shadow stack, root tracing, the write barrier and the minor collection.
#[verifier::opaque]
pub open spec fn emit_gc_runtime_s(st: WatSt) -> WatSt {
    let st = section_s(st, "GC runtime — Cheney copying collector"@);
    let st = blank_s(st);
    let st = comment_s(st, "$gc_reload_if_forwarded — if the object was moved, return its new address."@);
    let st = ln_s(st, "(func $gc_reload_if_forwarded (param $ptr i32) (result i32)"@);
    let st = inc_s(st);
    let st = ln_s(st, "(local $fwd i32)"@);
    let st = comment_s(st, "Null pointer — return as-is"@);
    let st = ln_s(st, "(if (i32.eqz (local.get $ptr))"@);
    let st = inc_s(st);
    let st = ln_s(st, "(then (return (i32.const 0))))"@);
    let st = dec_s(st);
    let st = comment_s(st, "Read forwarding pointer from header [+4]"@);
    let st = ln_s(st, "(local.set $fwd (i32.load offset=4 (local.get $ptr)))"@);
    let st = ln_s(st, "(if (local.get $fwd)"@);
    let st = inc_s(st);
    let st = ln_s(st, "(then (return (local.get $fwd))))"@);
    let st = dec_s(st);
    let st = ln_s(st, "(local.get $ptr))"@);
    let st = dec_s(st);
    let st = blank_s(st);
    let st = comment_s(st, "$gc_copy — copy a nursery object to to-space (or old-gen if to-space is full). Returns the new address; sets forwarding pointer in the original."@);
    let st = ln_s(st, "(func $gc_copy (param $ptr i32) (result i32)"@);
    let st = inc_s(st);
    let st = ln_s(st, "(local $fwd i32)"@);
    let st = ln_s(st, "(local $size i32)"@);
    let st = ln_s(st, "(local $new_ptr i32)"@);
    let st = comment_s(st, "Null pointer — return as-is"@);
    let st = ln_s(st, "(if (i32.eqz (local.get $ptr))"@);
    let st = inc_s(st);
    let st = ln_s(st, "(then (return (i32.const 0))))"@);
    let st = dec_s(st);
    let st = comment_s(st, "Not in from-space (e.g., old-gen, string pool) — return unchanged"@);
    let st = ln_s(st, "(if (i32.or"@);
    let st = inc_s(st);
    let st = ln_s(st, "(i32.lt_u (local.get $ptr) (global.get $__gc_from_start))"@);
    let st = ln_s(st, "(i32.ge_u (local.get $ptr) (global.get $__gc_collect_frontier)))"@);
    let st = dec_s(st);
    let st = ln_s(st, "(then (return (local.get $ptr))))"@);
    let st = comment_s(st, "Already forwarded? Return the forwarding pointer"@);
    let st = ln_s(st, "(local.set $fwd (i32.load offset=4 (local.get $ptr)))"@);
    let st = ln_s(st, "(if (local.get $fwd)"@);
    let st = inc_s(st);
    let st = ln_s(st, "(then (return (local.get $fwd))))"@);
    let st = dec_s(st);
    let st = comment_s(st, "Get object size from shape map"@);
    let st = ln_s(st, "(local.set $size (call $gc_object_size (i32.load (local.get $ptr))))"@);
    let st = comment_s(st, "Try to-space first; fall back to old-gen if to-space is full"@);
    let st = ln_s(st, "(if (i32.ge_u"@);
    let st = inc_s(st);
    let st = ln_s(st, "(i32.add (global.get $__gc_to_ptr) (local.get $size))"@);
    let st = ln_s(st, "(global.get $__gc_to_end))"@);
    let st = dec_s(st);
    let st = ln_s(st, "(then"@);
    let st = inc_s(st);
    let st = comment_s(st, "Promote to old-gen"@);
    let st = ln_s(st, "(local.set $new_ptr (global.get $__gc_old_ptr))"@);
    let st = ln_s(st, "(global.set $__gc_old_ptr"@);
    let st = inc_s(st);
    let st = ln_s(st, "(i32.add (global.get $__gc_old_ptr) (local.get $size))))"@);
    let st = dec_s(st);
    let st = dec_s(st);
    let st = ln_s(st, "(else"@);
    let st = inc_s(st);
    let st = comment_s(st, "Copy to to-space"@);
    let st = ln_s(st, "(local.set $new_ptr (global.get $__gc_to_ptr))"@);
    let st = ln_s(st, "(global.set $__gc_to_ptr"@);
    let st = inc_s(st);
    let st = ln_s(st, "(i32.add (global.get $__gc_to_ptr) (local.get $size))))"@);
    let st = dec_s(st);
    let st = dec_s(st);
    let st = ln_s(st, ")"@);
    let st = comment_s(st, "Copy object bytes (requires --enable-bulk-memory / bulk-memory proposal)"@);
    let st = ln_s(st, "(memory.copy (local.get $new_ptr) (local.get $ptr) (local.get $size))"@);
    let st = comment_s(st, "Write forwarding pointer into original's header [+4]"@);
    let st = ln_s(st, "(i32.store offset=4 (local.get $ptr) (local.get $new_ptr))"@);
    let st = comment_s(st, "Clear fwd in the copy so it doesn't look forwarded"@);
    let st = ln_s(st, "(i32.store offset=4 (local.get $new_ptr) (i32.const 0))"@);
    let st = ln_s(st, "(local.get $new_ptr))"@);
    let st = dec_s(st);
    let st = blank_s(st);
    let st = comment_s(st, "$gc_shadow_push — push a GC root onto the shadow stack."@);
    let st = ln_s(st, "(func $gc_shadow_push (param $val i32)"@);
    let st = inc_s(st);
    let st = ln_s(st, "(i32.store (global.get $__gc_shadow_ptr) (local.get $val))"@);
    let st = ln_s(st, "(global.set $__gc_shadow_ptr"@);
    let st = inc_s(st);
    let st = ln_s(st, "(i32.add (global.get $__gc_shadow_ptr) (i32.const 4))))"@);
    let st = dec_s(st);
    let st = dec_s(st);
    let st = blank_s(st);
    let st = comment_s(st, "$gc_shadow_pop — pop a (potentially GC-updated) root off the shadow stack."@);
    let st = ln_s(st, "(func $gc_shadow_pop (result i32)"@);
    let st = inc_s(st);
    let st = ln_s(st, "(global.set $__gc_shadow_ptr"@);
    let st = inc_s(st);
    let st = ln_s(st, "(i32.sub (global.get $__gc_shadow_ptr) (i32.const 4)))"@);
    let st = dec_s(st);
    let st = ln_s(st, "(i32.load (global.get $__gc_shadow_ptr)))"@);
    let st = dec_s(st);
    let st = blank_s(st);
    let st = comment_s(st, "$gc_trace_shadow_stack — copy-update all live roots on the shadow stack."@);
    let st = ln_s(st, "(func $gc_trace_shadow_stack"@);
    let st = inc_s(st);
    let st = ln_s(st, "(local $scan i32)"@);
    let st = ln_s(st, "(local.set $scan (global.get $__gc_shadow_base))"@);
    let st = ln_s(st, "(block $done"@);
    let st = inc_s(st);
    let st = ln_s(st, "(loop $loop"@);
    let st = inc_s(st);
    let st = ln_s(st, "(br_if $done (i32.ge_u (local.get $scan) (global.get $__gc_shadow_ptr)))"@);
    let st = ln_s(st, "(i32.store (local.get $scan)"@);
    let st = inc_s(st);
    let st = ln_s(st, "(call $gc_copy (i32.load (local.get $scan))))"@);
    let st = dec_s(st);
    let st = ln_s(st, "(local.set $scan (i32.add (local.get $scan) (i32.const 4)))"@);
    let st = ln_s(st, "(br $loop)))"@);
    let st = dec_s(st);
    let st = dec_s(st);
    let st = ln_s(st, ")"@);
    let st = dec_s(st);
    let st = blank_s(st);
    let st = comment_s(st, "$gc_trace_remembered_set — re-scan old-gen objects that point into nursery."@);
    let st = ln_s(st, "(func $gc_trace_remembered_set"@);
    let st = inc_s(st);
    let st = ln_s(st, "(local $scan i32)"@);
    let st = ln_s(st, "(local.set $scan (global.get $__gc_rset_base))"@);
    let st = ln_s(st, "(block $done"@);
    let st = inc_s(st);
    let st = ln_s(st, "(loop $loop"@);
    let st = inc_s(st);
    let st = ln_s(st, "(br_if $done (i32.ge_u (local.get $scan) (global.get $__gc_rset_ptr)))"@);
    let st = ln_s(st, "(call $gc_scan_object (i32.load (local.get $scan)))"@);
    let st = ln_s(st, "(local.set $scan (i32.add (local.get $scan) (i32.const 4)))"@);
    let st = ln_s(st, "(br $loop)))"@);
    let st = dec_s(st);
    let st = dec_s(st);
    let st = ln_s(st, ")"@);
    let st = dec_s(st);
    let st = blank_s(st);
    let st = comment_s(st, "$gc_write_barrier — record old-gen→nursery pointer stores in the remembered set."@);
    let st = ln_s(st, "(func $gc_write_barrier (param $obj_ptr i32) (param $new_val i32)"@);
    let st = inc_s(st);
    let st = comment_s(st, "If obj_ptr is in old-gen AND new_val is in nursery from-space → record"@);
    let st = ln_s(st, "(if (i32.and"@);
    let st = inc_s(st);
    let st = ln_s(st, "(i32.and"@);
    let st = inc_s(st);
    let st = ln_s(st, "(i32.ge_u (local.get $obj_ptr) (global.get $__gc_old_start))"@);
    let st = ln_s(st, "(i32.lt_u (local.get $obj_ptr) (global.get $__gc_old_end)))"@);
    let st = dec_s(st);
    let st = ln_s(st, "(i32.and"@);
    let st = inc_s(st);
    let st = ln_s(st, "(i32.ge_u (local.get $new_val) (global.get $__gc_from_start))"@);
    let st = ln_s(st, "(i32.lt_u (local.get $new_val) (global.get $__gc_from_ptr))))"@);
    let st = dec_s(st);
    let st = dec_s(st);
    let st = ln_s(st, "(then"@);
    let st = inc_s(st);
    let st = ln_s(st, "(i32.store (global.get $__gc_rset_ptr) (local.get $obj_ptr))"@);
    let st = ln_s(st, "(global.set $__gc_rset_ptr"@);
    let st = inc_s(st);
    let st = ln_s(st, "(i32.add (global.get $__gc_rset_ptr) (i32.const 4)))))"@);
    let st = dec_s(st);
    let st = dec_s(st);
    let st = ln_s(st, ")"@);
    let st = dec_s(st);
    let st = blank_s(st);
    let st = comment_s(st, "$gc_minor_collect — Cheney's copying minor GC: evacuates live nursery objects to to-space, then swaps semi-spaces."@);
    let st = ln_s(st, "(func $gc_minor_collect"@);
    let st = inc_s(st);
    let st = ln_s(st, "(local $scan i32)"@);
    let st = ln_s(st, "(local $obj_size i32)"@);
    let st = ln_s(st, "(local $old_from_start i32)"@);
    let st = ln_s(st, "(local $old_from_end i32)"@);
    let st = blank_s(st);
    let st = comment_s(st, "Save allocation frontier so $gc_copy knows what was live"@);
    let st = ln_s(st, "(global.set $__gc_collect_frontier (global.get $__gc_from_ptr))"@);
    let st = comment_s(st, "Reset to-space scanning/allocation pointer"@);
    let st = ln_s(st, "(global.set $__gc_to_ptr (global.get $__gc_to_start))"@);
    let st = blank_s(st);
    let st = comment_s(st, "1. Trace roots: shadow stack + remembered set"@);
    let st = ln_s(st, "(call $gc_trace_shadow_stack)"@);
    let st = ln_s(st, "(call $gc_trace_remembered_set)"@);
    let st = blank_s(st);
    let st = comment_s(st, "2. Cheney scan: walk to-space, updating each object's pointer fields"@);
    let st = ln_s(st, "(local.set $scan (global.get $__gc_to_start))"@);
    let st = ln_s(st, "(block $scan_done"@);
    let st = inc_s(st);
    let st = ln_s(st, "(loop $scan_loop"@);
    let st = inc_s(st);
    let st = ln_s(st, "(br_if $scan_done (i32.ge_u (local.get $scan) (global.get $__gc_to_ptr)))"@);
    let st = ln_s(st, "(call $gc_scan_object (local.get $scan))"@);
    let st = ln_s(st, "(local.set $obj_size (call $gc_object_size (i32.load (local.get $scan))))"@);
    let st = ln_s(st, "(local.set $scan (i32.add (local.get $scan) (local.get $obj_size)))"@);
    let st = ln_s(st, "(br $scan_loop))"@);
    let st = dec_s(st);
    let st = dec_s(st);
    let st = ln_s(st, ")"@);
    let st = blank_s(st);
    let st = comment_s(st, "3. Swap from-space and to-space"@);
    let st = ln_s(st, "(local.set $old_from_start (global.get $__gc_from_start))"@);
    let st = ln_s(st, "(local.set $old_from_end   (global.get $__gc_from_end))"@);
    let st = comment_s(st, "New from-space = old to-space (where survivors live)"@);
    let st = ln_s(st, "(global.set $__gc_from_start (global.get $__gc_to_start))"@);
    let st = ln_s(st, "(global.set $__gc_from_end   (global.get $__gc_to_end))"@);
    let st = ln_s(st, "(global.set $__gc_from_ptr   (global.get $__gc_to_ptr))"@);
    let st = comment_s(st, "New to-space = old from-space (now free for next collection)"@);
    let st = ln_s(st, "(global.set $__gc_to_start   (local.get $old_from_start))"@);
    let st = ln_s(st, "(global.set $__gc_to_end     (local.get $old_from_end))"@);
    let st = ln_s(st, "(global.set $__gc_to_ptr     (local.get $old_from_start))"@);
    let st = comment_s(st, "Sync legacy heap pointer"@);
    let st = ln_s(st, "(global.set $__heap_ptr (global.get $__gc_from_ptr))"@);
    let st = blank_s(st);
    let st = comment_s(st, "4. Clear remembered set"@);
    let st = ln_s(st, "(global.set $__gc_rset_ptr (global.get $__gc_rset_base)))"@);
    let st = dec_s(st);
    st
}

impl WatGen {
    /// The host imports: DOM access and console output.
    pub fn emit_imports(&mut self)
        ensures
            final(self).st() == emit_imports_s(old(self).st()),
            final(self).ctx() == old(self).ctx(),
    {
        proof {
            reveal(emit_imports_s);
        }
        self.section_str("JS host imports (DOM / I/O)");
        self.ln_str("(import \"env\" \"dom_create_element\" (func $env_dom_create_element (param i32) (result i32)))");
        self.ln_str("(import \"env\" \"dom_set_text_content\" (func $env_dom_set_text_content (param i32 i32)))");
        self.ln_str("(import \"env\" \"dom_append_child\" (func $env_dom_append_child (param i32 i32)))");
        self.ln_str("(import \"env\" \"dom_query_selector\" (func $env_dom_query_selector (param i32) (result i32)))");
        self.ln_str("(import \"env\" \"console_log_i64\" (func $env_console_log_i64 (param i64)))");
        self.ln_str("(import \"env\" \"console_log_str\" (func $env_console_log_str (param i32)))");
    }

    /// The allocator: `$gc_alloc` bump-allocates a tagged object, collecting the nursery when it is full; `$__alloc` calls it with tag 0.
    pub fn emit_gc_alloc(&mut self)
        ensures
            final(self).st() == emit_gc_alloc_s(old(self).st()),
            final(self).ctx() == old(self).ctx(),
    {
        proof {
            reveal(emit_gc_alloc_s);
        }
        self.section_str("GC allocator");
        self.blank();
        self.comment_str("$gc_alloc — bump-allocate 'size' bytes tagged with 'tag'; triggers minor GC when nursery is full.");
        self.ln_str("(func $gc_alloc (param $size i32) (param $tag i32) (result i32)");
        self.inc();
        self.ln_str("(local $ptr i32)");
        self.comment_str("Trigger minor GC if nursery would overflow");
        self.ln_str("(if (i32.gt_u");
        self.inc();
        self.ln_str("(i32.add (global.get $__gc_from_ptr) (local.get $size))");
        self.ln_str("(global.get $__gc_from_end))");
        self.dec();
        self.ln_str("(then (call $gc_minor_collect)))");
        self.comment_str("Bump-allocate");
        self.ln_str("(local.set $ptr (global.get $__gc_from_ptr))");
        self.ln_str("(global.set $__gc_from_ptr");
        self.inc();
        self.ln_str("(i32.add (global.get $__gc_from_ptr) (local.get $size)))");
        self.dec();
        self.comment_str("Write object header: tag at [+0], fwd=0 at [+4]");
        self.ln_str("(i32.store (local.get $ptr) (local.get $tag))");
        self.ln_str("(i32.store offset=4 (local.get $ptr) (i32.const 0))");
        self.comment_str("Sync legacy heap pointer");
        self.ln_str("(global.set $__heap_ptr (global.get $__gc_from_ptr))");
        self.ln_str("(local.get $ptr))");
        self.dec();
        self.blank();
        self.comment_str("$__alloc — legacy wrapper: calls $gc_alloc with tag=0.");
        self.ln_str("(func $__alloc (param $size i32) (result i32)");
        self.inc();
        self.ln_str("(call $gc_alloc (local.get $size) (i32.const 0)))");
        self.dec();
    }

    /// The collector's runtime: forwarding, copying, the shadow stack, root tracing, the write barrier and the minor collection.
    pub fn emit_gc_runtime(&mut self)
        ensures
            final(self).st() == emit_gc_runtime_s(old(self).st()),
            final(self).ctx() == old(self).ctx(),
    {
        proof {
            reveal(emit_gc_runtime_s);
        }
        self.section_str("GC runtime — Cheney copying collector");
        self.blank();
        self.comment_str("$gc_reload_if_forwarded — if the object was moved, return its new address.");
        self.ln_str("(func $gc_reload_if_forwarded (param $ptr i32) (result i32)");
        self.inc();
        self.ln_str("(local $fwd i32)");
        self.comment_str("Null pointer — return as-is");
        self.ln_str("(if (i32.eqz (local.get $ptr))");
        self.inc();
        self.ln_str("(then (return (i32.const 0))))");
        self.dec();
        self.comment_str("Read forwarding pointer from header [+4]");
        self.ln_str("(local.set $fwd (i32.load offset=4 (local.get $ptr)))");
        self.ln_str("(if (local.get $fwd)");
        self.inc();
        self.ln_str("(then (return (local.get $fwd))))");
        self.dec();
        self.ln_str("(local.get $ptr))");
        self.dec();
        self.blank();
        self.comment_str("$gc_copy — copy a nursery object to to-space (or old-gen if to-space is full). Returns the new address; sets forwarding pointer in the original.");
        self.ln_str("(func $gc_copy (param $ptr i32) (result i32)");
        self.inc();
        self.ln_str("(local $fwd i32)");
        self.ln_str("(local $size i32)");
        self.ln_str("(local $new_ptr i32)");
        self.comment_str("Null pointer — return as-is");
        self.ln_str("(if (i32.eqz (local.get $ptr))");
        self.inc();
        self.ln_str("(then (return (i32.const 0))))");
        self.dec();
        self.comment_str("Not in from-space (e.g., old-gen, string pool) — return unchanged");
        self.ln_str("(if (i32.or");
        self.inc();
        self.ln_str("(i32.lt_u (local.get $ptr) (global.get $__gc_from_start))");
        self.ln_str("(i32.ge_u (local.get $ptr) (global.get $__gc_collect_frontier)))");
        self.dec();
        self.ln_str("(then (return (local.get $ptr))))");
        self.comment_str("Already forwarded? Return the forwarding pointer");
        self.ln_str("(local.set $fwd (i32.load offset=4 (local.get $ptr)))");
        self.ln_str("(if (local.get $fwd)");
        self.inc();
        self.ln_str("(then (return (local.get $fwd))))");
        self.dec();
        self.comment_str("Get object size from shape map");
        self.ln_str("(local.set $size (call $gc_object_size (i32.load (local.get $ptr))))");
        self.comment_str("Try to-space first; fall back to old-gen if to-space is full");
        self.ln_str("(if (i32.ge_u");
        self.inc();
        self.ln_str("(i32.add (global.get $__gc_to_ptr) (local.get $size))");
        self.ln_str("(global.get $__gc_to_end))");
        self.dec();
        self.ln_str("(then");
        self.inc();
        self.comment_str("Promote to old-gen");
        self.ln_str("(local.set $new_ptr (global.get $__gc_old_ptr))");
        self.ln_str("(global.set $__gc_old_ptr");
        self.inc();
        self.ln_str("(i32.add (global.get $__gc_old_ptr) (local.get $size))))");
        self.dec();
        self.dec();
        self.ln_str("(else");
        self.inc();
        self.comment_str("Copy to to-space");
        self.ln_str("(local.set $new_ptr (global.get $__gc_to_ptr))");
        self.ln_str("(global.set $__gc_to_ptr");
        self.inc();
        self.ln_str("(i32.add (global.get $__gc_to_ptr) (local.get $size))))");
        self.dec();
        self.dec();
        self.ln_str(")");
        self.comment_str("Copy object bytes (requires --enable-bulk-memory / bulk-memory proposal)");
        self.ln_str("(memory.copy (local.get $new_ptr) (local.get $ptr) (local.get $size))");
        self.comment_str("Write forwarding pointer into original's header [+4]");
        self.ln_str("(i32.store offset=4 (local.get $ptr) (local.get $new_ptr))");
        self.comment_str("Clear fwd in the copy so it doesn't look forwarded");
        self.ln_str("(i32.store offset=4 (local.get $new_ptr) (i32.const 0))");
        self.ln_str("(local.get $new_ptr))");
        self.dec();
        self.blank();
        self.comment_str("$gc_shadow_push — push a GC root onto the shadow stack.");
        self.ln_str("(func $gc_shadow_push (param $val i32)");
        self.inc();
        self.ln_str("(i32.store (global.get $__gc_shadow_ptr) (local.get $val))");
        self.ln_str("(global.set $__gc_shadow_ptr");
        self.inc();
        self.ln_str("(i32.add (global.get $__gc_shadow_ptr) (i32.const 4))))");
        self.dec();
        self.dec();
        self.blank();
        self.comment_str("$gc_shadow_pop — pop a (potentially GC-updated) root off the shadow stack.");
        self.ln_str("(func $gc_shadow_pop (result i32)");
        self.inc();
        self.ln_str("(global.set $__gc_shadow_ptr");
        self.inc();
        self.ln_str("(i32.sub (global.get $__gc_shadow_ptr) (i32.const 4)))");
        self.dec();
        self.ln_str("(i32.load (global.get $__gc_shadow_ptr)))");
        self.dec();
        self.blank();
        self.comment_str("$gc_trace_shadow_stack — copy-update all live roots on the shadow stack.");
        self.ln_str("(func $gc_trace_shadow_stack");
        self.inc();
        self.ln_str("(local $scan i32)");
        self.ln_str("(local.set $scan (global.get $__gc_shadow_base))");
        self.ln_str("(block $done");
        self.inc();
        self.ln_str("(loop $loop");
        self.inc();
        self.ln_str("(br_if $done (i32.ge_u (local.get $scan) (global.get $__gc_shadow_ptr)))");
        self.ln_str("(i32.store (local.get $scan)");
        self.inc();
        self.ln_str("(call $gc_copy (i32.load (local.get $scan))))");
        self.dec();
        self.ln_str("(local.set $scan (i32.add (local.get $scan) (i32.const 4)))");
        self.ln_str("(br $loop)))");
        self.dec();
        self.dec();
        self.ln_str(")");
        self.dec();
        self.blank();
        self.comment_str("$gc_trace_remembered_set — re-scan old-gen objects that point into nursery.");
        self.ln_str("(func $gc_trace_remembered_set");
        self.inc();
        self.ln_str("(local $scan i32)");
        self.ln_str("(local.set $scan (global.get $__gc_rset_base))");
        self.ln_str("(block $done");
        self.inc();
        self.ln_str("(loop $loop");
        self.inc();
        self.ln_str("(br_if $done (i32.ge_u (local.get $scan) (global.get $__gc_rset_ptr)))");
        self.ln_str("(call $gc_scan_object (i32.load (local.get $scan)))");
        self.ln_str("(local.set $scan (i32.add (local.get $scan) (i32.const 4)))");
        self.ln_str("(br $loop)))");
        self.dec();
        self.dec();
        self.ln_str(")");
        self.dec();
        self.blank();
        self.comment_str("$gc_write_barrier — record old-gen→nursery pointer stores in the remembered set.");
        self.ln_str("(func $gc_write_barrier (param $obj_ptr i32) (param $new_val i32)");
        self.inc();
        self.comment_str("If obj_ptr is in old-gen AND new_val is in nursery from-space → record");
        self.ln_str("(if (i32.and");
        self.inc();
        self.ln_str("(i32.and");
        self.inc();
        self.ln_str("(i32.ge_u (local.get $obj_ptr) (global.get $__gc_old_start))");
        self.ln_str("(i32.lt_u (local.get $obj_ptr) (global.get $__gc_old_end)))");
        self.dec();
        self.ln_str("(i32.and");
        self.inc();
        self.ln_str("(i32.ge_u (local.get $new_val) (global.get $__gc_from_start))");
        self.ln_str("(i32.lt_u (local.get $new_val) (global.get $__gc_from_ptr))))");
        self.dec();
        self.dec();
        self.ln_str("(then");
        self.inc();
        self.ln_str("(i32.store (global.get $__gc_rset_ptr) (local.get $obj_ptr))");
        self.ln_str("(global.set $__gc_rset_ptr");
        self.inc();
        self.ln_str("(i32.add (global.get $__gc_rset_ptr) (i32.const 4)))))");
        self.dec();
        self.dec();
        self.ln_str(")");
        self.dec();
        self.blank();
        self.comment_str("$gc_minor_collect — Cheney's copying minor GC: evacuates live nursery objects to to-space, then swaps semi-spaces.");
        self.ln_str("(func $gc_minor_collect");
        self.inc();
        self.ln_str("(local $scan i32)");
        self.ln_str("(local $obj_size i32)");
        self.ln_str("(local $old_from_start i32)");
        self.ln_str("(local $old_from_end i32)");
        self.blank();
        self.comment_str("Save allocation frontier so $gc_copy knows what was live");
        self.ln_str("(global.set $__gc_collect_frontier (global.get $__gc_from_ptr))");
        self.comment_str("Reset to-space scanning/allocation pointer");
        self.ln_str("(global.set $__gc_to_ptr (global.get $__gc_to_start))");
        self.blank();
        self.comment_str("1. Trace roots: shadow stack + remembered set");
        self.ln_str("(call $gc_trace_shadow_stack)");
        self.ln_str("(call $gc_trace_remembered_set)");
        self.blank();
        self.comment_str("2. Cheney scan: walk to-space, updating each object's pointer fields");
        self.ln_str("(local.set $scan (global.get $__gc_to_start))");
        self.ln_str("(block $scan_done");
        self.inc();
        self.ln_str("(loop $scan_loop");
        self.inc();
        self.ln_str("(br_if $scan_done (i32.ge_u (local.get $scan) (global.get $__gc_to_ptr)))");
        self.ln_str("(call $gc_scan_object (local.get $scan))");
        self.ln_str("(local.set $obj_size (call $gc_object_size (i32.load (local.get $scan))))");
        self.ln_str("(local.set $scan (i32.add (local.get $scan) (local.get $obj_size)))");
        self.ln_str("(br $scan_loop))");
        self.dec();
        self.dec();
        self.ln_str(")");
        self.blank();
        self.comment_str("3. Swap from-space and to-space");
        self.ln_str("(local.set $old_from_start (global.get $__gc_from_start))");
        self.ln_str("(local.set $old_from_end   (global.get $__gc_from_end))");
        self.comment_str("New from-space = old to-space (where survivors live)");
        self.ln_str("(global.set $__gc_from_start (global.get $__gc_to_start))");
        self.ln_str("(global.set $__gc_from_end   (global.get $__gc_to_end))");
        self.ln_str("(global.set $__gc_from_ptr   (global.get $__gc_to_ptr))");
        self.comment_str("New to-space = old from-space (now free for next collection)");
        self.ln_str("(global.set $__gc_to_start   (local.get $old_from_start))");
        self.ln_str("(global.set $__gc_to_end     (local.get $old_from_end))");
        self.ln_str("(global.set $__gc_to_ptr     (local.get $old_from_start))");
        self.comment_str("Sync legacy heap pointer");
        self.ln_str("(global.set $__heap_ptr (global.get $__gc_from_ptr))");
        self.blank();
        self.comment_str("4. Clear remembered set");
        self.ln_str("(global.set $__gc_rset_ptr (global.get $__gc_rset_base)))");
        self.dec();
    }
}

} // verus!
