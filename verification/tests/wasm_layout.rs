use nexa::ir::{IrClass, IrClassKind, IrField, IrType};
use nexa::wasm_layout::{align_up, ir_to_val, GcLayout, StringPool, StructLayout, ValTy, HEADER_SIZE};

fn field(name: &str, ty: IrType) -> IrField {
    IrField { name: name.into(), ty, is_public: true }
}

fn class_with(fields: Vec<IrField>) -> IrClass {
    IrClass {
        name: "C".into(),
        kind: IrClassKind::Class,
        is_public: true,
        fields,
        constructor_params: vec![],
        constructor_body: vec![],
        methods: vec![],
    }
}

#[test]
fn value_types_and_instructions() {
    assert_eq!(ValTy::I32.as_str(), "i32");
    assert_eq!(ValTy::I64.as_str(), "i64");
    assert_eq!(ValTy::I32.byte_size(), 4);
    assert_eq!(ValTy::I64.byte_size(), 8);
    assert_eq!(ValTy::I32.store(0), "i32.store");
    assert_eq!(ValTy::I64.store(8), "i64.store offset=8");
    assert_eq!(ValTy::I32.load(0), "i32.load");
    assert_eq!(ValTy::I64.load(120), "i64.load offset=120");
}

#[test]
fn type_mapping() {
    assert_eq!(ir_to_val(&IrType::Int), ValTy::I64);
    assert_eq!(ir_to_val(&IrType::Bool), ValTy::I32);
    assert_eq!(ir_to_val(&IrType::String), ValTy::I32);
    assert_eq!(ir_to_val(&IrType::Named("User".into())), ValTy::I32);
    assert_eq!(ir_to_val(&IrType::List(Box::new(IrType::Int))), ValTy::I32);
    assert_eq!(ir_to_val(&IrType::Unknown), ValTy::I32);
}

#[test]
fn alignment() {
    assert_eq!(align_up(13, 8), 16);
    assert_eq!(align_up(16, 8), 16);
    assert_eq!(align_up(0, 4), 0);
    assert_eq!(align_up(5, 0), 5);
    assert_eq!(align_up(1, 65536), 65536);
}

#[test]
fn gc_regions_fill_fifteen_pages() {
    let g = GcLayout::new(0);
    assert_eq!(g.nursery_from_start, 65536);
    assert_eq!(g.nursery_from_end, 3 * 65536);
    assert_eq!(g.nursery_to_start, 3 * 65536);
    assert_eq!(g.nursery_to_end, 5 * 65536);
    assert_eq!(g.old_start, 5 * 65536);
    assert_eq!(g.old_end, 13 * 65536);
    assert_eq!(g.shadow_base, 13 * 65536);
    assert_eq!(g.rset_base, 14 * 65536);
    assert_eq!(g.total_pages, 15);
    let h = GcLayout::new(70000);
    assert_eq!(h.nursery_from_start, 2 * 65536);
    assert_eq!(h.total_pages, 16);
}

#[test]
fn fields_follow_the_header_aligned() {
    let cls = class_with(vec![
        field("b", IrType::Bool),
        field("n", IrType::Int),
        field("s", IrType::String),
    ]);
    let l = StructLayout::compute(&cls);
    assert_eq!(l.get("b"), Some((HEADER_SIZE, ValTy::I32)));
    assert_eq!(l.get("n"), Some((16, ValTy::I64)));
    assert_eq!(l.get("s"), Some((24, ValTy::I32)));
    assert_eq!(l.get("missing"), None);
    assert_eq!(l.total_size, 28);
    let empty = StructLayout::compute(&class_with(vec![]));
    assert_eq!(empty.total_size, HEADER_SIZE);
}

#[test]
fn string_pool_interns_once() {
    let mut p = StringPool::new();
    assert_eq!(p.intern("hi"), 0);
    assert_eq!(p.intern("a\"b"), 3);
    assert_eq!(p.intern("hi"), 0);
    assert_eq!(p.data.len(), 7);
    assert_eq!(p.heap_start(), 8);
    assert_eq!(p.escaped(), "hi\\00a\\22b\\00");
    assert_eq!(StringPool::new().heap_start(), 8);
}

#[test]
fn string_pool_escapes_other_bytes_in_hex() {
    let mut p = StringPool::new();
    p.intern("\u{1}é\\");
    assert_eq!(p.escaped(), "\\01\\c3\\a9\\5c\\00");
}
