//! Memory layout of the WebAssembly backend: how IR types map to WASM value
//! types, where the regions of the generational semi-space collector lie,
//! where each field of an object sits behind the object header, and how
//! string literals are pooled in the data section.
//!
//! | Nexa IR type     | WAT type      | Memory width |
//! |------------------|---------------|--------------|
//! | `Int`            | `i64`         | 8 bytes      |
//! | anything else    | `i32`         | 4 bytes      |
//!
//! Every heap object starts with an 8-byte header: a type tag at `ptr + 0`
//! and a forwarding pointer at `ptr + 4`; user fields follow.
use vstd::prelude::*;
use vstd::utf8::encode_utf8;
use crate::ir::{IrClass, IrField, IrType, SpecIrField, SpecIrType};
use crate::ast::views;
use crate::spelling::hex_digit;
use crate::testgen::push_decimal;
use crate::updater::decimal;
use crate::text::{chars_vec, push_str, str_eq, string_from_chars};

verus! {

/// Size of the object header prepended to every heap-allocated object.
pub const HEADER_SIZE: u32 = 8;

/// A WASM page: 64 KiB.
pub const PAGE: u32 = 65536;

/// Pages of each nursery semi-space (128 KiB).
pub const NURSERY_PAGES: u32 = 2;

/// Pages of the old generation (512 KiB).
pub const OLD_GEN_PAGES: u32 = 8;

/// Pages of the shadow stack (64 KiB).
pub const SHADOW_PAGES: u32 = 1;

/// Pages of the remembered set (64 KiB).
pub const RSET_PAGES: u32 = 1;

// ── Value types ────────────────────────────────────────────────────────────

/// WASM register-level value type.
#[derive(Debug, Clone, Copy, PartialEq, Eq, Structural)]
pub enum ValTy {
    /// Bool, pointer, string offset.
    I32,
    /// Int.
    I64,
}

impl ValTy {
    /// The WAT name of the type.
    pub open spec fn name(self) -> Seq<char> {
        match self {
            ValTy::I32 => "i32"@,
            ValTy::I64 => "i64"@,
        }
    }

    /// The width of the type in memory.
    pub open spec fn size(self) -> u32 {
        match self {
            ValTy::I32 => 4,
            ValTy::I64 => 8,
        }
    }

    /// A memory instruction on the type: `op` after the type's name, with
    /// ` offset=N` when the offset is not zero.
    pub open spec fn access(self, op: Seq<char>, offset: u32) -> Seq<char> {
        if offset == 0 {
            self.name() + op
        } else {
            self.name() + op + " offset="@ + decimal(offset as nat)
        }
    }

    /// The WAT name of the type.
    pub fn as_str(self) -> (s: &'static str)
        ensures
            s@ == self.name(),
    {
        match self {
            ValTy::I32 => "i32",
            ValTy::I64 => "i64",
        }
    }

    /// The width of the type in memory, in bytes.
    pub fn byte_size(self) -> (n: u32)
        ensures
            n == self.size(),
    {
        match self {
            ValTy::I32 => 4,
            ValTy::I64 => 8,
        }
    }

    fn access_text(self, op: &str, offset: u32) -> (s: String)
        ensures
            s@ == self.access(op@, offset),
    {
        let mut out: Vec<char> = Vec::new();
        push_str(&mut out, self.as_str());
        push_str(&mut out, op);
        if offset != 0 {
            push_str(&mut out, " offset=");
            push_decimal(&mut out, offset as u64);
        }
        assert(out@ =~= self.access(op@, offset));
        string_from_chars(out.as_slice())
    }

    /// The store instruction at `offset`.
    pub fn store(self, offset: u32) -> (s: String)
        ensures
            s@ == self.access(".store"@, offset),
    {
        self.access_text(".store", offset)
    }

    /// The load instruction at `offset`.
    pub fn load(self, offset: u32) -> (s: String)
        ensures
            s@ == self.access(".load"@, offset),
    {
        self.access_text(".load", offset)
    }
}

/// The value type an IR type is held in: `i64` for `Int`, `i32` otherwise.
pub open spec fn val_of(t: SpecIrType) -> ValTy {
    match t {
        SpecIrType::Int => ValTy::I64,
        _ => ValTy::I32,
    }
}

/// The value type an IR type is held in.
pub fn ir_to_val(ty: &IrType) -> (v: ValTy)
    ensures
        v == val_of(ty@),
{
    match ty {
        IrType::Int => ValTy::I64,
        _ => ValTy::I32,
    }
}

// ── Alignment ──────────────────────────────────────────────────────────────

/// `n` rounded up to a multiple of `a` (unchanged when `a` is zero).
pub open spec fn round_up(n: nat, a: nat) -> nat {
    if a == 0 {
        n
    } else {
        (((n + a - 1) / (a as int)) * (a as int)) as nat
    }
}

/// Rounding up moves by less than the alignment.
pub proof fn lemma_round_up(n: nat, a: nat)
    requires
        a > 0,
    ensures
        n <= round_up(n, a) <= n + a - 1,
        round_up(n, a) % a == 0,
{
    let x: int = n + a - 1;
    let y: int = a as int;
    assert((x / y) * y <= x) by (nonlinear_arith)
        requires
            y > 0,
            x >= 0,
    ;
    assert((x / y) * y > x - y) by (nonlinear_arith)
        requires
            y > 0,
            x >= 0,
    ;
    assert(((x / y) * y) % y == 0) by (nonlinear_arith)
        requires
            y > 0,
            x >= 0,
    ;
}

/// `n` rounded up to a multiple of `align`, for the power-of-two
/// alignments the backend uses (4, 8 and the page size).
pub fn align_up(n: u32, align: u32) -> (r: u32)
    requires
        n + align <= u32::MAX + 1,
    ensures
        r == round_up(n as nat, align as nat),
{
    if align == 0 {
        n
    } else {
        proof {
            lemma_round_up(n as nat, align as nat);
        }
        (n + (align - 1)) / align * align
    }
}

// ── Regions of the collector ───────────────────────────────────────────────

/// Memory regions for the generational semi-space GC, as byte offsets from
/// the start of linear memory.
pub struct GcLayout {
    pub nursery_from_start: u32,
    pub nursery_from_end: u32,
    pub nursery_to_start: u32,
    pub nursery_to_end: u32,
    pub old_start: u32,
    pub old_end: u32,
    pub shadow_base: u32,
    pub rset_base: u32,
    pub total_pages: u32,
}

/// Where the nursery starts: the heap start rounded up to a page, and not
/// below the first page.
pub open spec fn nursery_start(heap_start: nat) -> nat {
    let a = round_up(heap_start, PAGE as nat);
    if a >= PAGE {
        a
    } else {
        PAGE as nat
    }
}

impl GcLayout {
    /// The regions after a heap that starts at `heap_start`: the nursery's
    /// two semi-spaces, the old generation, the shadow stack and the
    /// remembered set, one after another from a page boundary.
    pub fn new(heap_start: u32) -> (g: GcLayout)
        requires
            heap_start as nat + 15 * PAGE <= u32::MAX,
        ensures
            g.nursery_from_start == nursery_start(heap_start as nat),
            g.nursery_from_end == g.nursery_from_start + NURSERY_PAGES * PAGE,
            g.nursery_to_start == g.nursery_from_end,
            g.nursery_to_end == g.nursery_to_start + NURSERY_PAGES * PAGE,
            g.old_start == g.nursery_to_end,
            g.old_end == g.old_start + OLD_GEN_PAGES * PAGE,
            g.shadow_base == g.old_end,
            g.rset_base == g.shadow_base + SHADOW_PAGES * PAGE,
            g.total_pages == (g.rset_base + RSET_PAGES * PAGE) / (PAGE as int),
    {
        proof {
            lemma_round_up(heap_start as nat, PAGE as nat);
        }
        let a = align_up(heap_start, PAGE);
        let nursery_from_start = if a >= PAGE { a } else { PAGE };
        let nursery_from_end = nursery_from_start + NURSERY_PAGES * PAGE;
        let nursery_to_start = nursery_from_end;
        let nursery_to_end = nursery_to_start + NURSERY_PAGES * PAGE;
        let old_start = nursery_to_end;
        let old_end = old_start + OLD_GEN_PAGES * PAGE;
        let shadow_base = old_end;
        let rset_base = shadow_base + SHADOW_PAGES * PAGE;
        let total_pages = (rset_base + RSET_PAGES * PAGE) / PAGE;
        GcLayout {
            nursery_from_start,
            nursery_from_end,
            nursery_to_start,
            nursery_to_end,
            old_start,
            old_end,
            shadow_base,
            rset_base,
            total_pages,
        }
    }
}

// ── Object layout ──────────────────────────────────────────────────────────

/// Where a field sits in an object, and its value type.
#[derive(Debug, Clone, Copy, PartialEq, Eq, Structural)]
pub struct FieldSlot {
    pub offset: u32,
    pub vt: ValTy,
}

/// The slots of the fields in order (name, offset, type), and the end of
/// the last one: each field is aligned to its own width, after the header.
pub open spec fn slots_spec(fields: Seq<SpecIrField>) -> (Seq<(Seq<char>, nat, ValTy)>, nat)
    decreases fields.len(),
{
    if fields.len() == 0 {
        (Seq::empty(), HEADER_SIZE as nat)
    } else {
        let (s, end) = slots_spec(fields.drop_last());
        let vt = val_of(fields.last().ty);
        let off = round_up(end, vt.size() as nat);
        (s.push((fields.last().name, off, vt)), (off + vt.size()) as nat)
    }
}

/// Each field adds at most 15 bytes to the layout.
pub proof fn lemma_slots_bound(fields: Seq<SpecIrField>)
    ensures
        slots_spec(fields).0.len() == fields.len(),
        HEADER_SIZE <= slots_spec(fields).1 <= HEADER_SIZE + 15 * fields.len(),
    decreases fields.len(),
{
    if fields.len() > 0 {
        lemma_slots_bound(fields.drop_last());
        let (s, end) = slots_spec(fields.drop_last());
        let vt = val_of(fields.last().ty);
        lemma_round_up(end, vt.size() as nat);
    }
}

/// The object layout law: each field has its own slot, of its own value
/// type, at an offset of at least 8 (behind the header) that is a multiple
/// of its width; slots follow the declaration order without overlapping;
/// and the layout ends right after the last slot (at 8 when there is none).
pub proof fn lemma_layout_law(fields: Seq<SpecIrField>)
    ensures
        slots_spec(fields).0.len() == fields.len(),
        forall|i: int| 0 <= i < fields.len() ==> {
            let e = #[trigger] slots_spec(fields).0[i];
            &&& e.0 == fields[i].name
            &&& e.2 == val_of(fields[i].ty)
            &&& e.1 >= HEADER_SIZE
            &&& e.1 % (e.2.size() as nat) == 0
        },
        forall|i: int, j: int| 0 <= i < j < fields.len() ==> #[trigger] slots_spec(fields).0[i].1 + slots_spec(fields).0[i].2.size()
            <= #[trigger] slots_spec(fields).0[j].1,
        fields.len() == 0 ==> slots_spec(fields).1 == HEADER_SIZE,
        fields.len() > 0 ==> slots_spec(fields).1 == slots_spec(fields).0.last().1 + slots_spec(fields).0.last().2.size(),
        forall|i: int| 0 <= i < fields.len() ==> #[trigger] slots_spec(fields).0[i].1 + slots_spec(fields).0[i].2.size()
            <= slots_spec(fields).1,
    decreases fields.len(),
{
    if fields.len() > 0 {
        let prev = fields.drop_last();
        lemma_layout_law(prev);
        let (s, end) = slots_spec(prev);
        let vt = val_of(fields.last().ty);
        lemma_round_up(end, vt.size() as nat);
        let off = round_up(end, vt.size() as nat);
        let s2 = slots_spec(fields).0;
        assert(s2 == s.push((fields.last().name, off, vt)));
        assert forall|i: int| 0 <= i < fields.len() implies {
            let e = #[trigger] s2[i];
            &&& e.0 == fields[i].name
            &&& e.2 == val_of(fields[i].ty)
            &&& e.1 >= HEADER_SIZE
            &&& e.1 % (e.2.size() as nat) == 0
        } by {
            if i < fields.len() - 1 {
                assert(s2[i] == s[i]);
                assert(prev[i] == fields[i]);
            } else {
                if prev.len() == 0 {
                    assert(end == HEADER_SIZE);
                } else {
                    assert(s[prev.len() - 1].1 >= HEADER_SIZE);
                }
            }
        }
        assert forall|i: int, j: int| 0 <= i < j < fields.len() implies #[trigger] s2[i].1 + s2[i].2.size() <= #[trigger] s2[j].1 by {
            assert(s2[i] == s[i]);
            if j < fields.len() - 1 {
                assert(s2[j] == s[j]);
            }
        }
        assert forall|i: int| 0 <= i < fields.len() implies #[trigger] s2[i].1 + s2[i].2.size() <= slots_spec(fields).1 by {
            if i < fields.len() - 1 {
                assert(s2[i] == s[i]);
            }
        }
    }
}

/// The layout of a class's objects: the slot of each field, in field order,
/// and the object's size.
pub struct StructLayout {
    pub slots: Vec<(String, FieldSlot)>,
    pub total_size: u32,
}

/// The slot of the last field named `name`.
pub open spec fn slot_find(slots: Seq<(Seq<char>, nat, ValTy)>, name: Seq<char>) -> Option<(nat, ValTy)>
    decreases slots.len(),
{
    if slots.len() == 0 {
        None
    } else if slots.last().0 == name {
        Some((slots.last().1, slots.last().2))
    } else {
        slot_find(slots.drop_last(), name)
    }
}

impl StructLayout {
    /// The slots as plain values.
    pub open spec fn slots_view(&self) -> Seq<(Seq<char>, nat, ValTy)> {
        self.slots@.map_values(|e: (String, FieldSlot)| (e.0@, e.1.offset as nat, e.1.vt))
    }

    /// Lays out the fields of `cls` after the object header.
    pub fn compute(cls: &IrClass) -> (l: StructLayout)
        requires
            cls.fields.len() <= 0x0fff_ffff,
        ensures
            l.slots_view() == slots_spec(views(cls.fields@)).0,
            l.total_size == (if slots_spec(views(cls.fields@)).1 >= HEADER_SIZE {
                slots_spec(views(cls.fields@)).1
            } else {
                HEADER_SIZE as nat
            }),
    {
        let ghost fs = views(cls.fields@);
        let mut offset: u32 = HEADER_SIZE;
        let mut slots: Vec<(String, FieldSlot)> = Vec::new();
        let mut i: usize = 0;
        assert(fs.take(0) =~= Seq::<SpecIrField>::empty());
        while i < cls.fields.len()
            invariant
                i <= cls.fields.len() <= 0x0fff_ffff,
                fs == views(cls.fields@),
                (slots@.map_values(|e: (String, FieldSlot)| (e.0@, e.1.offset as nat, e.1.vt)), offset as nat)
                    == slots_spec(fs.take(i as int)),
            decreases cls.fields.len() - i,
        {
            let f: &IrField = &cls.fields[i];
            proof {
                assert(fs.take(i + 1).drop_last() =~= fs.take(i as int));
                assert(fs.take(i + 1).last() == f@);
                lemma_slots_bound(fs.take(i as int));
                lemma_round_up(offset as nat, val_of(f.ty@).size() as nat);
            }
            let vt = ir_to_val(&f.ty);
            let at = align_up(offset, vt.byte_size());
            let ghost prev = slots@;
            slots.push((f.name.clone(), FieldSlot { offset: at, vt }));
            offset = at + vt.byte_size();
            assert(slots@.map_values(|e: (String, FieldSlot)| (e.0@, e.1.offset as nat, e.1.vt)) =~= prev.map_values(
                |e: (String, FieldSlot)| (e.0@, e.1.offset as nat, e.1.vt),
            ).push((f.name@, at as nat, vt)));
            i = i + 1;
        }
        assert(fs.take(cls.fields.len() as int) =~= fs);
        let total_size = if offset >= HEADER_SIZE { offset } else { HEADER_SIZE };
        StructLayout { slots, total_size }
    }

    /// The offset and value type of the field `name`.
    pub fn get(&self, name: &str) -> (r: Option<(u32, ValTy)>)
        ensures
            match slot_find(self.slots_view(), name@) {
                Some((off, vt)) => r == Some((off as u32, vt)),
                None => r is None,
            },
    {
        let mut i: usize = self.slots.len();
        assert(self.slots_view().take(i as int) =~= self.slots_view());
        while i > 0
            invariant
                i <= self.slots.len(),
                slot_find(self.slots_view(), name@) == slot_find(self.slots_view().take(i as int), name@),
            decreases i,
        {
            assert(self.slots_view().take(i as int).drop_last() =~= self.slots_view().take(i - 1));
            if str_eq(self.slots[i - 1].0.as_str(), name) {
                return Some((self.slots[i - 1].1.offset, self.slots[i - 1].1.vt));
            }
            i = i - 1;
        }
        None
    }
}

// ── String pool ────────────────────────────────────────────────────────────

/// String literals laid out in the data section, each followed by a zero
/// byte, and the offset of each one.
pub struct StringPool {
    pub data: Vec<u8>,
    pub index: Vec<(String, u32)>,
}

/// The offset of the last pooled string equal to `s`.
pub open spec fn pool_find(index: Seq<(Seq<char>, u32)>, s: Seq<char>) -> Option<u32>
    decreases index.len(),
{
    if index.len() == 0 {
        None
    } else if index.last().0 == s {
        Some(index.last().1)
    } else {
        pool_find(index.drop_last(), s)
    }
}

/// How a byte is written inside a WAT data string: quote, backslash and zero
/// as hex escapes, printable ASCII and space as themselves, anything else as
/// two lower-case hex digits after a backslash.
pub open spec fn data_byte(b: u8) -> Seq<char> {
    if b == 34 {
        "\\22"@
    } else if b == 92 {
        "\\5c"@
    } else if b == 0 {
        "\\00"@
    } else if 32 <= b <= 126 {
        seq![b as char]
    } else {
        seq!['\\', hex_digit((b / 16) as nat), hex_digit((b % 16) as nat)]
    }
}

/// The WAT text of a data string.
pub open spec fn data_text(d: Seq<u8>) -> Seq<char>
    decreases d.len(),
{
    if d.len() == 0 {
        Seq::empty()
    } else {
        data_text(d.drop_last()) + data_byte(d.last())
    }
}

/// The lower-case hexadecimal digit of `d`.
fn hex_char(d: u8) -> (c: char)
    requires
        d < 16,
    ensures
        c == hex_digit(d as nat),
{
    if d < 10 {
        (48 + d) as char
    } else {
        (87 + d) as char
    }
}

impl StringPool {
    /// The pooled strings and their offsets as plain values.
    pub open spec fn index_view(&self) -> Seq<(Seq<char>, u32)> {
        self.index@.map_values(|e: (String, u32)| (e.0@, e.1))
    }

    /// An empty pool.
    pub fn new() -> (p: StringPool)
        ensures
            p.data@ == Seq::<u8>::empty(),
            p.index_view() == Seq::<(Seq<char>, u32)>::empty(),
    {
        let p = StringPool { data: Vec::new(), index: Vec::new() };
        assert(p.index_view() =~= Seq::<(Seq<char>, u32)>::empty());
        p
    }

    /// The offset of `s` in the data section, adding it (and a zero byte)
    /// the first time it is seen.
    pub fn intern(&mut self, s: &str) -> (off: u32)
        requires
            old(self).data.len() + encode_utf8(s@).len() + 1 <= u32::MAX,
        ensures
            match pool_find(old(self).index_view(), s@) {
                Some(o) => off == o && final(self).data@ == old(self).data@ && final(self).index_view()
                    == old(self).index_view(),
                None => off == old(self).data@.len() && final(self).data@ == old(self).data@ + encode_utf8(s@)
                    + seq![0u8] && final(self).index_view() == old(self).index_view().push((s@, off)),
            },
    {
        let mut i: usize = self.index.len();
        assert(self.index_view().take(i as int) =~= self.index_view());
        while i > 0
            invariant
                i <= self.index.len(),
                self.data == old(self).data,
                self.index == old(self).index,
                pool_find(self.index_view(), s@) == pool_find(self.index_view().take(i as int), s@),
            decreases i,
        {
            assert(self.index_view().take(i as int).drop_last() =~= self.index_view().take(i - 1));
            if str_eq(self.index[i - 1].0.as_str(), s) {
                assert(self.index_view().take(i as int).last() == self.index_view()[i - 1]);
                return self.index[i - 1].1;
            }
            i = i - 1;
        }
        assert(self.index_view().take(0) =~= Seq::<(Seq<char>, u32)>::empty());
        let off = self.data.len() as u32;
        let ghost iv = self.index_view();
        self.index.push((string_from_chars(chars_vec(s).as_slice()), off));
        assert(self.index_view() =~= iv.push((s@, off)));
        let bytes = s.as_bytes();
        let mut k: usize = 0;
        let ghost d0 = self.data@;
        while k < bytes.len()
            invariant
                k <= bytes.len(),
                bytes@ == encode_utf8(s@),
                self.data@ == d0 + bytes@.take(k as int),
                self.index_view() == iv.push((s@, off)),
            decreases bytes.len() - k,
        {
            self.data.push(bytes[k]);
            assert(self.data@ =~= d0 + bytes@.take(k + 1));
            k = k + 1;
        }
        assert(bytes@.take(bytes.len() as int) =~= bytes@);
        self.data.push(0);
        assert(self.data@ =~= d0 + encode_utf8(s@) + seq![0u8]);
        off
    }

    /// Where the heap starts: the end of the data rounded up to 8, and at
    /// least 8.
    pub fn heap_start(&self) -> (h: u32)
        requires
            self.data.len() + 8 <= u32::MAX,
        ensures
            h == (if round_up(self.data@.len(), 8) >= 8 {
                round_up(self.data@.len(), 8)
            } else {
                8
            }),
    {
        proof {
            lemma_round_up(self.data@.len(), 8);
        }
        let a = align_up(self.data.len() as u32, 8);
        if a >= 8 {
            a
        } else {
            8
        }
    }

    /// The data as the text of a WAT `(data ...)` string.
    pub fn escaped(&self) -> (s: String)
        ensures
            s@ == data_text(self.data@),
    {
        let mut out: Vec<char> = Vec::new();
        let mut i: usize = 0;
        while i < self.data.len()
            invariant
                i <= self.data.len(),
                out@ == data_text(self.data@.take(i as int)),
            decreases self.data.len() - i,
        {
            let b = self.data[i];
            assert(self.data@.take(i + 1).drop_last() =~= self.data@.take(i as int));
            if b == 34 {
                push_str(&mut out, "\\22");
            } else if b == 92 {
                push_str(&mut out, "\\5c");
            } else if b == 0 {
                push_str(&mut out, "\\00");
            } else if 32 <= b && b <= 126 {
                out.push(b as char);
            } else {
                out.push('\\');
                out.push(hex_char(b / 16));
                out.push(hex_char(b % 16));
            }
            assert(out@ =~= data_text(self.data@.take(i + 1)));
            i = i + 1;
        }
        assert(self.data@.take(self.data.len() as int) =~= self.data@);
        string_from_chars(out.as_slice())
    }
}

} // verus!
