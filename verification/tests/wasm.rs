use nexa::ir::{
    IrBinOp, IrClass, IrClassKind, IrExpr, IrField, IrMethod, IrModule, IrParam, IrRoute, IrServer, IrStmt, IrType,
};
use nexa::wasm::module::{WasmCodegen, WasmCodegenError};

fn counter_ir() -> IrModule {
    IrModule {
        name: "Counter".into(),
        server: Some(IrServer { port: 3000 }),
        classes: vec![IrClass {
            name: "Counter".into(),
            kind: IrClassKind::Class,
            is_public: true,
            fields: vec![IrField {
                name: "count".into(),
                ty: IrType::Int,
                is_public: false,
            }],
            constructor_params: vec![IrParam {
                name: "count".into(),
                ty: IrType::Int,
            }],
            constructor_body: vec![],
            methods: vec![
                IrMethod {
                    name: "get_count".into(),
                    params: vec![],
                    return_ty: IrType::Int,
                    body: vec![IrStmt::Return(Some(IrExpr::Field {
                        receiver: Box::new(IrExpr::SelfRef),
                        name: "count".into(),
                    }))],
                    is_public: true,
                    is_async: false,
                },
                IrMethod {
                    name: "increment".into(),
                    params: vec![],
                    return_ty: IrType::Void,
                    body: vec![IrStmt::Assign {
                        target: IrExpr::Field {
                            receiver: Box::new(IrExpr::SelfRef),
                            name: "count".into(),
                        },
                        value: IrExpr::Bin {
                            op: IrBinOp::Add,
                            lhs: Box::new(IrExpr::Field {
                                receiver: Box::new(IrExpr::SelfRef),
                                name: "count".into(),
                            }),
                            rhs: Box::new(IrExpr::Int(1)),
                        },
                    }],
                    is_public: true,
                    is_async: false,
                },
            ],
        }],
        routes: vec![],
    }
}

fn window_ir() -> IrModule {
    IrModule {
        name: "App".into(),
        server: Some(IrServer { port: 3000 }),
        classes: vec![IrClass {
            name: "HomePage".into(),
            kind: IrClassKind::Window,
            is_public: true,
            fields: vec![],
            constructor_params: vec![],
            constructor_body: vec![],
            methods: vec![IrMethod {
                name: "render".into(),
                params: vec![],
                return_ty: IrType::Named("Component".into()),
                body: vec![IrStmt::Return(Some(IrExpr::Node {
                    tag: "Page".into(),
                    children: vec![IrExpr::Node {
                        tag: "Heading".into(),
                        children: vec![IrExpr::Str("Hello!".into())],
                    }],
                }))],
                is_public: true,
                is_async: false,
            }],
        }],
        routes: vec![IrRoute { path: "/".into(), target: "HomePage".into() }],
    }
}

fn wat(ir: &IrModule) -> String {
    WasmCodegen::new().generate_wat(ir).unwrap()
}

// ── Existing tests (backward compat) ─────────────────────────────────────

#[test]
fn output_starts_and_ends_as_module() {
    let w = wat(&counter_ir());
    assert!(w.contains("(module"), "should open with (module");
    let last = w.lines().filter(|l| !l.trim().is_empty()).last().unwrap_or("");
    assert_eq!(last, ")", "should close module with )");
}

#[test]
fn output_declares_exported_memory() {
    let w = wat(&counter_ir());
    assert!(w.contains("(memory"), "should declare memory");
    assert!(w.contains("(export \"memory\")"), "memory should be exported");
}

#[test]
fn output_has_dom_imports() {
    let w = wat(&window_ir());
    assert!(w.contains("dom_create_element"), "missing dom_create_element import");
    assert!(w.contains("dom_append_child"), "missing dom_append_child import");
    assert!(w.contains("dom_query_selector"), "missing dom_query_selector import");
}

#[test]
fn output_has_alloc() {
    let w = wat(&counter_ir());
    assert!(w.contains("$__alloc"), "__alloc function missing");
    assert!(w.contains("$__heap_ptr"), "__heap_ptr global missing");
}

#[test]
fn class_generates_constructor() {
    let w = wat(&counter_ir());
    assert!(w.contains("$Counter_new"), "Counter_new missing");
}

#[test]
fn class_generates_methods() {
    let w = wat(&counter_ir());
    assert!(w.contains("$Counter_get_count"), "Counter_get_count missing");
    assert!(w.contains("$Counter_increment"), "Counter_increment missing");
}

#[test]
fn int_field_uses_i64() {
    let w = wat(&counter_ir());
    assert!(w.contains("i64.store"), "int field store should use i64.store");
    assert!(w.contains("i64.load"), "int field load should use i64.load");
}

#[test]
fn int_arithmetic_uses_i64_add() {
    let w = wat(&counter_ir());
    assert!(w.contains("i64.add"), "int arithmetic should use i64.add");
}

#[test]
fn window_generates_start_export() {
    let w = wat(&window_ir());
    assert!(w.contains("_nexa_start"), "_nexa_start missing");
    assert!(w.contains("export \"_nexa_start\""), "_nexa_start should be exported");
}

#[test]
fn string_literals_go_into_data_section() {
    let w = wat(&window_ir());
    assert!(w.contains("(data (i32.const 0)"), "data section missing");
    assert!(w.contains("Hello!"), "string literal missing from data");
}

#[test]
fn node_calls_dom_create_element() {
    let w = wat(&window_ir());
    assert!(w.contains("call $env_dom_create_element"), "dom_create_element not called");
}

#[test]
fn str_child_calls_dom_set_text_content() {
    let w = wat(&window_ir());
    assert!(w.contains("call $env_dom_set_text_content"), "text content not set");
}

#[test]
fn bool_literal_emits_i32_const() {
    let ir = IrModule {
        name: "Test".into(),
        server: None,
        classes: vec![IrClass {
            name: "T".into(),
            kind: IrClassKind::Class,
            is_public: false,
            fields: vec![],
            constructor_params: vec![],
            constructor_body: vec![],
            methods: vec![IrMethod {
                name: "ok".into(),
                params: vec![],
                return_ty: IrType::Bool,
                body: vec![IrStmt::Return(Some(IrExpr::Bool(true)))],
                is_public: true,
                is_async: false,
            }],
        }],
        routes: vec![],
    };
    let w = wat(&ir);
    assert!(w.contains("i32.const 1"), "true should be i32.const 1");
}

// ── New GC tests ──────────────────────────────────────────────────────────

#[test]
fn gc_alloc_function_present() {
    let w = wat(&counter_ir());
    assert!(w.contains("$gc_alloc"), "$gc_alloc function missing");
    assert!(w.contains("$__gc_from_ptr"), "from-space pointer global missing");
}

#[test]
fn gc_object_header_written_in_constructor() {
    let w = wat(&counter_ir());
    assert!(
        w.contains("i32.store (local.get $ptr) (local.get $tag)"),
        "type tag not written in header"
    );
    assert!(
        w.contains("i64.store offset=8"),
        "Int field should be at offset 8 (after header)"
    );
}

#[test]
fn gc_minor_collect_present() {
    let w = wat(&counter_ir());
    assert!(w.contains("$gc_minor_collect"), "$gc_minor_collect missing");
    assert!(w.contains("$gc_copy"), "$gc_copy missing");
    assert!(w.contains("memory.copy"), "memory.copy instruction missing");
}

#[test]
fn gc_write_barrier_present() {
    let w = wat(&counter_ir());
    assert!(w.contains("$gc_write_barrier"), "$gc_write_barrier missing");
    assert!(w.contains("$__gc_rset_ptr"), "remembered-set pointer missing");
}

#[test]
fn gc_shadow_stack_present() {
    let w = wat(&counter_ir());
    assert!(w.contains("$gc_shadow_push"), "$gc_shadow_push missing");
    assert!(w.contains("$gc_shadow_pop"), "$gc_shadow_pop missing");
    assert!(w.contains("$__gc_shadow_ptr"), "shadow stack pointer missing");
}

#[test]
fn gc_self_reload_via_forwarded() {
    let w = wat(&counter_ir());
    assert!(
        w.contains("$gc_reload_if_forwarded"),
        "$gc_reload_if_forwarded missing"
    );
}

#[test]
fn gc_semi_spaces_are_page_aligned() {
    let w = wat(&counter_ir());
    assert!(
        w.contains("65536"),
        "nursery from-space should start at page 1 (65536)"
    );
    assert!(w.contains("196608"), "nursery to-space start (196608) missing");
    assert!(w.contains("327680"), "old-gen start (327680) missing");
}

#[test]
fn gc_shape_map_emits_object_size() {
    let w = wat(&counter_ir());
    assert!(w.contains("$gc_object_size"), "$gc_object_size missing");
    assert!(w.contains("$gc_scan_object"), "$gc_scan_object missing");
}

// ── GC v2 tests — shadow-stack frame for let-bindings ─────────────────────

fn gc_v2_ir() -> IrModule {
    IrModule {
        name: "GcV2Test".into(),
        server: None,
        classes: vec![IrClass {
            name: "Node".into(),
            kind: IrClassKind::Class,
            is_public: true,
            fields: vec![],
            constructor_params: vec![],
            constructor_body: vec![],
            methods: vec![IrMethod {
                name: "clone_node".into(),
                params: vec![],
                return_ty: IrType::Named("Node".into()),
                body: vec![
                    IrStmt::Let {
                        name: "child".into(),
                        ty: IrType::Named("Node".into()),
                        init: IrExpr::Invoke {
                            callee: "Node".into(),
                            args: vec![],
                        },
                    },
                    IrStmt::Return(Some(IrExpr::Local("child".into()))),
                ],
                is_public: true,
                is_async: false,
            }],
        }],
        routes: vec![],
    }
}

#[test]
fn gc_v2_frame_local_declared() {
    let w = wat(&gc_v2_ir());
    assert!(
        w.contains("(local $__gc_frame i32)"),
        "$__gc_frame local not declared"
    );
}

#[test]
fn gc_v2_frame_setup_bumps_shadow_ptr() {
    let w = wat(&gc_v2_ir());
    assert!(
        w.contains("(global.set $__gc_shadow_ptr"),
        "frame setup must bump $__gc_shadow_ptr"
    );
    assert!(
        w.contains("(local.set $__gc_frame (global.get $__gc_shadow_ptr))"),
        "frame base not saved to $__gc_frame"
    );
}

#[test]
fn gc_v2_i32_let_writes_to_frame() {
    let w = wat(&gc_v2_ir());
    assert!(
        w.contains("(local.get $__gc_frame)") && w.contains("(local.get $child)"),
        "i32 let-binding 'child' not written to GC frame"
    );
}

#[test]
fn gc_v2_i32_local_read_goes_through_reload() {
    let w = wat(&gc_v2_ir());
    assert!(
        w.contains("$gc_reload_if_forwarded") && w.contains("(local.get $child)"),
        "i32 local 'child' not read through gc_reload_if_forwarded"
    );
}

#[test]
fn gc_v2_frame_cleanup_restores_shadow_ptr() {
    let w = wat(&gc_v2_ir());
    assert!(
        w.contains("(global.set $__gc_shadow_ptr (local.get $__gc_frame))"),
        "frame not restored on return"
    );
}

#[test]
fn gc_v2_constructor_uses_frame_not_push_pop() {
    let w = wat(&gc_v2_ir());
    assert!(
        w.contains("(i32.load (local.get $__gc_frame))"),
        "constructor must load $self back from GC frame"
    );
}


fn empty_ir() -> IrModule {
    IrModule { name: "E".into(), server: None, classes: vec![], routes: vec![] }
}

#[test]
fn empty_module_layout() {
    let w = wat(&empty_ir());
    assert!(w.starts_with(";; Generated by nexa-compiler — WASM target\n;; Assemble: wat2wasm --enable-bulk-memory app.wat -o app.wasm\n(module\n"));
    assert!(w.contains("  (memory (export \"memory\") 15)\n"));
    assert!(w.contains(";; ─── Memory (15 pages = 960 KiB — generational semi-space GC) "));
    assert!(w.contains("  (data (i32.const 0) \"#app\\00\")\n"));
    assert!(w.contains("  ;;   @0: \"#app\"\n"));
    assert!(w.contains("  ;; No route \"/\" defined — nothing to render at startup\n"));
    assert!(w.ends_with("  )\n)\n"));
}

#[test]
fn struct_comment_lists_fields_by_offset() {
    let mut ir = empty_ir();
    ir.classes.push(IrClass {
        name: "P".into(),
        kind: IrClassKind::Component,
        is_public: true,
        fields: vec![
            IrField { name: "a".into(), ty: IrType::Bool, is_public: true },
            IrField { name: "b".into(), ty: IrType::Int, is_public: true },
        ],
        constructor_params: vec![],
        constructor_body: vec![],
        methods: vec![],
    });
    let w = wat(&ir);
    assert!(w.contains(";; ─── class P (Component) "));
    assert!(w.contains("  ;; struct { a: i32 @8, b: i64 @16 }\n"));
    assert!(w.contains("  ;; total = 24 bytes (incl. 8-byte GC header)\n"));
    assert!(w.contains("(then (return (i32.const 24))))  ;; class P"));
    assert!(w.contains(";; class P — field 'a' at +8"));
}

#[test]
fn string_cut_inside_a_character_is_refused() {
    let mut ir = window_ir();
    let long = format!("{}é", "x".repeat(39));
    ir.classes[0].methods[0].body = vec![IrStmt::Discard(IrExpr::Str(long))];
    match WasmCodegen::new().generate_wat(&ir) {
        Err(WasmCodegenError::Error(m)) => assert!(m.contains("does not fit")),
        Ok(_) => panic!("expected an error"),
    }
    let mut ok = window_ir();
    ok.classes[0].methods[0].body = vec![IrStmt::Discard(IrExpr::Str(format!("{}é", "x".repeat(38))))];
    let w = wat(&ok);
    assert!(w.contains(&format!("\"{}é\"", "x".repeat(38))));
}

#[test]
fn string_literal_comment_uses_escape_default() {
    let mut ir = window_ir();
    ir.classes[0].methods[0].body = vec![IrStmt::Discard(IrExpr::Str("a\"b\n\u{e9}".into()))];
    let w = wat(&ir);
    assert!(w.contains(";; \"a\\\"b\\n\\u{e9}\""));
}

#[test]
fn loops_and_breaks_share_labels() {
    let mut ir = window_ir();
    ir.classes[0].methods[0].return_ty = IrType::Void;
    ir.classes[0].methods[0].body = vec![IrStmt::While { cond: IrExpr::Bool(true), body: vec![IrStmt::Break] }];
    let w = wat(&ir);
    assert!(w.contains("block $brk_0\n"));
    assert!(w.contains("loop $lp_0\n"));
    assert!(w.contains("br_if $brk_0\n"));
    assert!(w.contains("br $brk_0\n"));
    assert!(w.contains("br $lp_0\n"));
}
