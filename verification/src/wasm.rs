//! WASM backend: lowers an IR module to WebAssembly Text format (WAT).
//!
//! The output requires the bulk-memory proposal for `memory.copy`; assemble
//! it with `wat2wasm --enable-bulk-memory app.wat -o app.wasm`. Objects live
//! in a generational semi-space heap (see [`crate::wasm_layout`]); minor
//! collections use Cheney's copying collector, roots are kept on a shadow
//! stack, and a write barrier records old-to-nursery pointers.
//!
//! Every emitting function is specified as a transformation of the
//! generator's state [`WatSt`]: the text written so far, the indentation,
//! the loop and node counters, and the frame of the function being emitted.
use vstd::prelude::*;
use crate::wasm_layout::{
    ValTy, GcLayout, StructLayout, StringPool, HEADER_SIZE, PAGE, SHADOW_PAGES, RSET_PAGES, val_of,
};
use crate::updater::decimal;
use crate::testgen::{int_text, push_decimal, push_int};
use crate::text::{chars_vec, push_str, string_from_chars};

pub mod runtime;
pub mod sections;
pub mod body;
pub mod class;
pub mod module;

verus! {

// ── Generator state ────────────────────────────────────────────────────────

/// What emitting changes: the text so far, the indentation, the loop and
/// node counters, the class being compiled, and the shadow-stack frame of
/// the function being emitted (slot of each pointer local, frame size,
/// value type of the return).
pub struct WatSt {
    pub out: Seq<char>,
    pub indent: nat,
    pub loop_idx: nat,
    pub node_idx: nat,
    pub current_class: Seq<char>,
    pub frame: Seq<(Seq<char>, u32)>,
    pub frame_size: u32,
    pub ret_vt: Option<ValTy>,
}

/// Two spaces per level of indentation.
pub open spec fn pad(n: nat) -> Seq<char> {
    Seq::new(2 * n, |i: int| ' ')
}

/// A line at the current indentation.
pub open spec fn ln_s(st: WatSt, s: Seq<char>) -> WatSt {
    WatSt { out: st.out + pad(st.indent) + s + seq!['\n'], ..st }
}

/// An empty line.
pub open spec fn blank_s(st: WatSt) -> WatSt {
    WatSt { out: st.out + seq!['\n'], ..st }
}

/// A `;;` comment line at the current indentation.
pub open spec fn comment_s(st: WatSt, s: Seq<char>) -> WatSt {
    WatSt { out: st.out + pad(st.indent) + ";; "@ + s + seq!['\n'], ..st }
}

/// One level deeper.
pub open spec fn inc_s(st: WatSt) -> WatSt {
    WatSt { indent: if st.indent < usize::MAX { st.indent + 1 } else { st.indent }, ..st }
}

/// One level shallower.
pub open spec fn dec_s(st: WatSt) -> WatSt {
    WatSt { indent: if st.indent > 0 { (st.indent - 1) as nat } else { 0 }, ..st }
}

/// The UTF-8 width of a character.
pub open spec fn char_width(c: char) -> nat {
    if (c as u32) < 0x80 {
        1
    } else if (c as u32) < 0x800 {
        2
    } else if (c as u32) < 0x10000 {
        3
    } else {
        4
    }
}

/// The UTF-8 length of a text.
pub open spec fn utf8_len(s: Seq<char>) -> nat
    decreases s.len(),
{
    if s.len() == 0 {
        0
    } else {
        utf8_len(s.drop_last()) + char_width(s.last())
    }
}

/// A rule of `n` box-drawing dashes.
pub open spec fn bar(n: nat) -> Seq<char> {
    Seq::new(n, |i: int| '─')
}

/// A section heading: an empty line, then a comment with the title and a
/// rule that pads it to 60 bytes.
pub open spec fn section_s(st: WatSt, title: Seq<char>) -> WatSt {
    let w = utf8_len(title) + 2;
    let n: nat = if w <= 60 { (60 - w) as nat } else { 0 };
    comment_s(blank_s(st), "─── "@ + title + " "@ + bar(n))
}

/// The text of a count.
pub open spec fn dec(n: nat) -> Seq<char> {
    decimal(n)
}

/// The generator: its state, and what the first phase collected (the string
/// pool, the layout and type tag of each class, and the methods that return
/// nothing).
pub struct WatGen {
    pub out: Vec<char>,
    pub indent: usize,
    pub pool: StringPool,
    pub layouts: Vec<(String, StructLayout)>,
    pub void_methods: Vec<(String, String)>,
    pub loop_idx: usize,
    pub node_idx: usize,
    pub current_class: String,
    pub class_tags: Vec<(String, u32)>,
    pub gc_ptr_frame: Vec<(String, u32)>,
    pub gc_frame_size: u32,
    pub current_return_vt: Option<ValTy>,
}

/// The layout of a class as plain values: its slots and total size.
pub struct LayoutV {
    pub slots: Seq<(Seq<char>, nat, ValTy)>,
    pub total: u32,
}

/// What the first phase collected.
pub struct WatCtx {
    pub pool: Seq<(Seq<char>, u32)>,
    pub pool_data: Seq<u8>,
    pub layouts: Seq<(Seq<char>, LayoutV)>,
    pub void_methods: Seq<(Seq<char>, Seq<char>)>,
    pub class_tags: Seq<(Seq<char>, u32)>,
}

/// Names with values as plain values.
pub open spec fn named_u32(v: Seq<(String, u32)>) -> Seq<(Seq<char>, u32)> {
    v.map_values(|e: (String, u32)| (e.0@, e.1))
}

impl WatGen {
    pub open spec fn st(&self) -> WatSt {
        WatSt {
            out: self.out@,
            indent: self.indent as nat,
            loop_idx: self.loop_idx as nat,
            node_idx: self.node_idx as nat,
            current_class: self.current_class@,
            frame: named_u32(self.gc_ptr_frame@),
            frame_size: self.gc_frame_size,
            ret_vt: self.current_return_vt,
        }
    }

    pub open spec fn ctx(&self) -> WatCtx {
        WatCtx {
            pool: self.pool.index_view(),
            pool_data: self.pool.data@,
            layouts: self.layouts@.map_values(
                |e: (String, StructLayout)| (e.0@, LayoutV { slots: e.1.slots_view(), total: e.1.total_size }),
            ),
            void_methods: self.void_methods@.map_values(|e: (String, String)| (e.0@, e.1@)),
            class_tags: named_u32(self.class_tags@),
        }
    }

    /// A generator with nothing written.
    pub fn new() -> (g: WatGen)
        ensures
            g.st().out == Seq::<char>::empty(),
            g.st().indent == 0,
            g.st().loop_idx == 0,
            g.st().node_idx == 0,
            g.st().frame == Seq::<(Seq<char>, u32)>::empty(),
            g.st().frame_size == 0,
            g.st().ret_vt is None,
            g.st().current_class == Seq::<char>::empty(),
            g.ctx().pool == Seq::<(Seq<char>, u32)>::empty(),
            g.ctx().pool_data == Seq::<u8>::empty(),
            g.ctx().layouts == Seq::<(Seq<char>, LayoutV)>::empty(),
            g.ctx().void_methods == Seq::<(Seq<char>, Seq<char>)>::empty(),
            g.ctx().class_tags == Seq::<(Seq<char>, u32)>::empty(),
    {
        let g = WatGen {
            out: Vec::new(),
            indent: 0,
            pool: StringPool::new(),
            layouts: Vec::new(),
            void_methods: Vec::new(),
            loop_idx: 0,
            node_idx: 0,
            current_class: String::new(),
            class_tags: Vec::new(),
            gc_ptr_frame: Vec::new(),
            gc_frame_size: 0,
            current_return_vt: None,
        };
        assert(g.st().out =~= Seq::<char>::empty());
        assert(g.st().current_class =~= Seq::<char>::empty());
        assert(g.st().frame =~= Seq::<(Seq<char>, u32)>::empty());
        assert(g.ctx().layouts =~= Seq::<(Seq<char>, LayoutV)>::empty());
        assert(g.ctx().void_methods =~= Seq::<(Seq<char>, Seq<char>)>::empty());
        assert(g.ctx().class_tags =~= Seq::<(Seq<char>, u32)>::empty());
        g
    }

    fn push_pad(&mut self)
        ensures
            final(self).out@ == old(self).out@ + pad(old(self).indent as nat),
            final(self).indent == old(self).indent,
            final(self).pool == old(self).pool,
            final(self).layouts == old(self).layouts,
            final(self).void_methods == old(self).void_methods,
            final(self).loop_idx == old(self).loop_idx,
            final(self).node_idx == old(self).node_idx,
            final(self).current_class == old(self).current_class,
            final(self).class_tags == old(self).class_tags,
            final(self).gc_ptr_frame == old(self).gc_ptr_frame,
            final(self).gc_frame_size == old(self).gc_frame_size,
            final(self).current_return_vt == old(self).current_return_vt,
    {
        let mut i: usize = 0;
        let ghost base = self.out@;
        while i < self.indent
            invariant
                i <= self.indent == old(self).indent,
                self.out@ == base + pad(i as nat),
                base == old(self).out@,
                self.pool == old(self).pool,
                self.layouts == old(self).layouts,
                self.void_methods == old(self).void_methods,
                self.loop_idx == old(self).loop_idx,
                self.node_idx == old(self).node_idx,
                self.current_class == old(self).current_class,
                self.class_tags == old(self).class_tags,
                self.gc_ptr_frame == old(self).gc_ptr_frame,
                self.gc_frame_size == old(self).gc_frame_size,
                self.current_return_vt == old(self).current_return_vt,
            decreases self.indent - i,
        {
            self.out.push(' ');
            self.out.push(' ');
            assert(self.out@ =~= base + pad((i + 1) as nat));
            i = i + 1;
        }
    }

    /// Writes a line at the current indentation.
    pub fn ln(&mut self, s: &Vec<char>)
        ensures
            final(self).st() == ln_s(old(self).st(), s@),
            final(self).ctx() == old(self).ctx(),
    {
        self.push_pad();
        let mut i: usize = 0;
        let ghost base = self.out@;
        while i < s.len()
            invariant
                i <= s.len(),
                self.out@ == base + s@.take(i as int),
                base == old(self).out@ + pad(old(self).indent as nat),
                self.indent == old(self).indent,
                self.pool == old(self).pool,
                self.layouts == old(self).layouts,
                self.void_methods == old(self).void_methods,
                self.loop_idx == old(self).loop_idx,
                self.node_idx == old(self).node_idx,
                self.current_class == old(self).current_class,
                self.class_tags == old(self).class_tags,
                self.gc_ptr_frame == old(self).gc_ptr_frame,
                self.gc_frame_size == old(self).gc_frame_size,
                self.current_return_vt == old(self).current_return_vt,
            decreases s.len() - i,
        {
            self.out.push(s[i]);
            assert(self.out@ =~= base + s@.take(i + 1));
            i = i + 1;
        }
        self.out.push('\n');
        assert(s@.take(s.len() as int) =~= s@);
        assert(self.out@ =~= old(self).out@ + pad(old(self).indent as nat) + s@ + seq!['\n']);
    }

    /// Writes a fixed line at the current indentation.
    pub fn ln_str(&mut self, s: &str)
        ensures
            final(self).st() == ln_s(old(self).st(), s@),
            final(self).ctx() == old(self).ctx(),
    {
        let v = chars_vec(s);
        self.ln(&v);
    }

    /// Writes an empty line.
    pub fn blank(&mut self)
        ensures
            final(self).st() == blank_s(old(self).st()),
            final(self).ctx() == old(self).ctx(),
    {
        self.out.push('\n');
        assert(self.out@ =~= old(self).out@ + seq!['\n']);
    }

    /// Writes a `;;` comment at the current indentation.
    pub fn comment(&mut self, s: &Vec<char>)
        ensures
            final(self).st() == comment_s(old(self).st(), s@),
            final(self).ctx() == old(self).ctx(),
    {
        let mut v: Vec<char> = Vec::new();
        push_str(&mut v, ";; ");
        let ghost b = v@;
        let mut i: usize = 0;
        while i < s.len()
            invariant
                i <= s.len(),
                v@ == b + s@.take(i as int),
            decreases s.len() - i,
        {
            v.push(s[i]);
            assert(v@ =~= b + s@.take(i + 1));
            i = i + 1;
        }
        assert(s@.take(s.len() as int) =~= s@);
        self.ln(&v);
        assert(old(self).out@ + pad(old(self).indent as nat) + v@ + seq!['\n'] =~= old(self).out@ + pad(
            old(self).indent as nat,
        ) + ";; "@ + s@ + seq!['\n']);
    }

    /// Writes a fixed `;;` comment at the current indentation.
    pub fn comment_str(&mut self, s: &str)
        ensures
            final(self).st() == comment_s(old(self).st(), s@),
            final(self).ctx() == old(self).ctx(),
    {
        let v = chars_vec(s);
        self.comment(&v);
    }

    /// One level deeper.
    pub fn inc(&mut self)
        ensures
            final(self).st() == inc_s(old(self).st()),
            final(self).ctx() == old(self).ctx(),
    {
        if self.indent < usize::MAX {
            self.indent = self.indent + 1;
        }
    }

    /// One level shallower.
    pub fn dec(&mut self)
        ensures
            final(self).st() == dec_s(old(self).st()),
            final(self).ctx() == old(self).ctx(),
    {
        if self.indent > 0 {
            self.indent = self.indent - 1;
        }
    }

    /// Writes a section heading.
    pub fn section(&mut self, title: &Vec<char>)
        ensures
            final(self).st() == section_s(old(self).st(), title@),
            final(self).ctx() == old(self).ctx(),
    {
        let w = utf8_width(title);
        let n: usize = if w <= 58 { 58 - w } else { 0 };
        let mut v: Vec<char> = Vec::new();
        push_str(&mut v, "─── ");
        push_chars(&mut v, title);
        push_str(&mut v, " ");
        let ghost b = v@;
        let mut i: usize = 0;
        while i < n
            invariant
                i <= n,
                v@ == b + bar(i as nat),
            decreases n - i,
        {
            v.push('─');
            assert(v@ =~= b + bar((i + 1) as nat));
            i = i + 1;
        }
        self.blank();
        self.comment(&v);
        assert(v@ =~= "─── "@ + title@ + " "@ + bar(n as nat));
    }

    /// Writes a fixed section heading.
    pub fn section_str(&mut self, title: &str)
        ensures
            final(self).st() == section_s(old(self).st(), title@),
            final(self).ctx() == old(self).ctx(),
    {
        let v = chars_vec(title);
        self.section(&v);
    }
}

/// The value of the last entry for `k`.
pub open spec fn lookup<V>(m: Seq<(Seq<char>, V)>, k: Seq<char>) -> Option<V>
    decreases m.len(),
{
    if m.len() == 0 {
        None
    } else if m.last().0 == k {
        Some(m.last().1)
    } else {
        lookup(m.drop_last(), k)
    }
}

/// A copy of a character vector.
pub fn copy_vec(s: &Vec<char>) -> (r: Vec<char>)
    ensures
        r@ == s@,
{
    let mut r: Vec<char> = Vec::new();
    push_chars(&mut r, s);
    assert(r@ =~= s@);
    r
}

/// Appends characters.
pub fn push_chars(out: &mut Vec<char>, s: &Vec<char>)
    ensures
        final(out)@ == old(out)@ + s@,
{
    let mut i: usize = 0;
    while i < s.len()
        invariant
            i <= s.len(),
            out@ == old(out)@ + s@.take(i as int),
        decreases s.len() - i,
    {
        out.push(s[i]);
        assert(out@ =~= old(out)@ + s@.take(i + 1));
        i = i + 1;
    }
    assert(s@.take(s.len() as int) =~= s@);
}

/// The UTF-8 width of a text, saturating at `usize::MAX`.
pub fn utf8_width(s: &Vec<char>) -> (w: usize)
    ensures
        w == (if utf8_len(s@) <= usize::MAX { utf8_len(s@) } else { usize::MAX as nat }),
{
    let mut w: usize = 0;
    let mut i: usize = 0;
    while i < s.len()
        invariant
            i <= s.len(),
            w == (if utf8_len(s@.take(i as int)) <= usize::MAX { utf8_len(s@.take(i as int)) } else { usize::MAX as nat }),
        decreases s.len() - i,
    {
        let c = s[i];
        let v = c as u32;
        let cw: usize = if v < 0x80 { 1 } else if v < 0x800 { 2 } else if v < 0x10000 { 3 } else { 4 };
        assert(s@.take(i + 1).drop_last() =~= s@.take(i as int));
        assert(s@.take(i + 1).last() == c);
        if w <= usize::MAX - cw {
            w = w + cw;
        } else {
            w = usize::MAX;
        }
        i = i + 1;
    }
    assert(s@.take(s.len() as int) =~= s@);
    w
}

} // verus!
