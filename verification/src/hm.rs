//! The types of Hindley-Milner inference, their substitution, and Robinson
//! unification with an occurs check.
use vstd::prelude::*;
use crate::text::{push_str, string_from_chars};
use crate::updater::decimal;
use crate::testgen::push_decimal;

verus! {

/// The type representation used during unification.
#[derive(Debug, PartialEq)]
pub enum HmType {
    Int,
    String,
    Bool,
    Void,
    List(Box<HmType>),
    Custom(String),
    Function(Vec<HmType>, Box<HmType>),
    /// A unification variable.
    Var(u32),
}

/// The mathematical view of an [`HmType`]: names become character sequences.
pub enum SpecHm {
    Int,
    String,
    Bool,
    Void,
    List(Box<SpecHm>),
    Custom(Seq<char>),
    Function(Seq<SpecHm>, Box<SpecHm>),
    Var(u32),
}

pub open spec fn hm_view(t: HmType) -> SpecHm
    decreases t,
{
    match t {
        HmType::Int => SpecHm::Int,
        HmType::String => SpecHm::String,
        HmType::Bool => SpecHm::Bool,
        HmType::Void => SpecHm::Void,
        HmType::List(inner) => SpecHm::List(Box::new(hm_view(*inner))),
        HmType::Custom(n) => SpecHm::Custom(n@),
        HmType::Function(ps, r) => SpecHm::Function(hms_view(ps@), Box::new(hm_view(*r))),
        HmType::Var(v) => SpecHm::Var(v),
    }
}

pub open spec fn hms_view(s: Seq<HmType>) -> Seq<SpecHm>
    decreases s,
{
    if s.len() == 0 {
        Seq::empty()
    } else {
        hms_view(s.drop_last()).push(hm_view(s.last()))
    }
}

impl View for HmType {
    type V = SpecHm;

    open spec fn view(&self) -> SpecHm {
        hm_view(*self)
    }
}

pub proof fn lemma_hms_view(s: Seq<HmType>)
    ensures
        hms_view(s).len() == s.len(),
        forall|i: int| 0 <= i < s.len() ==> #[trigger] hms_view(s)[i] == s[i]@,
    decreases s.len(),
{
    if s.len() > 0 {
        lemma_hms_view(s.drop_last());
        assert forall|i: int| 0 <= i < s.len() implies #[trigger] hms_view(s)[i] == s[i]@ by {
            if i < s.len() - 1 {
                assert(s.drop_last()[i] == s[i]);
            }
        }
    }
}

// ── Measures and occurrences ─────────────────────────────────────────────────

/// The number of constructors in a type.
pub open spec fn size(t: SpecHm) -> nat
    decreases t,
{
    match t {
        SpecHm::List(inner) => 1 + size(*inner),
        SpecHm::Function(ps, r) => 1 + sizes(ps) + size(*r),
        _ => 1,
    }
}

pub open spec fn sizes(s: Seq<SpecHm>) -> nat
    decreases s,
{
    if s.len() == 0 {
        0
    } else {
        sizes(s.drop_last()) + size(s.last())
    }
}

/// Whether the variable `v` occurs in `t`.
pub open spec fn has_var(t: SpecHm, v: u32) -> bool
    decreases t,
{
    match t {
        SpecHm::Var(w) => w == v,
        SpecHm::List(inner) => has_var(*inner, v),
        SpecHm::Function(ps, r) => any_has_var(ps, v) || has_var(*r, v),
        _ => false,
    }
}

pub open spec fn any_has_var(s: Seq<SpecHm>, v: u32) -> bool
    decreases s,
{
    if s.len() == 0 {
        false
    } else {
        any_has_var(s.drop_last(), v) || has_var(s.last(), v)
    }
}

pub proof fn lemma_any_has_var(s: Seq<SpecHm>, v: u32)
    ensures
        any_has_var(s, v) <==> exists|i: int| 0 <= i < s.len() && #[trigger] has_var(s[i], v),
    decreases s.len(),
{
    if s.len() > 0 {
        lemma_any_has_var(s.drop_last(), v);
        if any_has_var(s.drop_last(), v) {
            let i = choose|i: int| 0 <= i < s.drop_last().len() && #[trigger] has_var(s.drop_last()[i], v);
            assert(s[i] == s.drop_last()[i]);
        }
        if exists|i: int| 0 <= i < s.len() && #[trigger] has_var(s[i], v) {
            let i = choose|i: int| 0 <= i < s.len() && #[trigger] has_var(s[i], v);
            if i < s.len() - 1 {
                assert(s.drop_last()[i] == s[i]);
            }
        }
        if has_var(s.last(), v) {
            assert(has_var(s[s.len() - 1], v));
        }
    }
}

pub proof fn lemma_size_positive(t: SpecHm)
    ensures
        size(t) >= 1,
{
}

pub proof fn lemma_sizes_push(s: Seq<SpecHm>, t: SpecHm)
    ensures
        sizes(s.push(t)) == sizes(s) + size(t),
{
    assert(s.push(t).drop_last() =~= s);
}

/// Every variable of `t` is below `n`.
pub open spec fn below(t: SpecHm, n: nat) -> bool {
    forall|w: u32| #[trigger] has_var(t, w) ==> (w as nat) < n
}

// ── Substitutions ─────────────────────────────────────────────────────────────

/// A substitution: entry `v` holds what variable `v` is bound to, if anything.
pub type Subst = Seq<Option<SpecHm>>;

pub open spec fn is_bound(s: Subst, v: u32) -> bool {
    (v as int) < s.len() && s[v as int] is Some
}

/// Applies the substitution once: every bound variable is replaced by its
/// binding.
pub open spec fn resolve(s: Subst, t: SpecHm) -> SpecHm
    decreases t,
{
    match t {
        SpecHm::Var(v) => if is_bound(s, v) {
            s[v as int]->0
        } else {
            t
        },
        SpecHm::List(inner) => SpecHm::List(Box::new(resolve(s, *inner))),
        SpecHm::Function(ps, r) => SpecHm::Function(resolve_all(s, ps), Box::new(resolve(s, *r))),
        _ => t,
    }
}

pub open spec fn resolve_all(s: Subst, ps: Seq<SpecHm>) -> Seq<SpecHm>
    decreases ps,
{
    if ps.len() == 0 {
        Seq::empty()
    } else {
        resolve_all(s, ps.drop_last()).push(resolve(s, ps.last()))
    }
}

/// No variable of `t` is bound, and each is below the length of `s`.
pub open spec fn free_in(s: Subst, t: SpecHm) -> bool {
    forall|w: u32| #[trigger] has_var(t, w) ==> (w as int) < s.len() && s[w as int] is None
}

/// A well-formed substitution is idempotent: every binding mentions only
/// unbound variables, all of them allocated.
pub open spec fn wf_subst(s: Subst) -> bool {
    forall|v: int| 0 <= v < s.len() && #[trigger] s[v] is Some ==> free_in(s, s[v]->0)
}

/// The number of unbound variables.
pub open spec fn unbound(s: Subst) -> nat
    decreases s.len(),
{
    if s.len() == 0 {
        0
    } else {
        unbound(s.drop_last()) + if s.last() is None {
            1nat
        } else {
            0nat
        }
    }
}

pub proof fn lemma_resolve_all(s: Subst, ps: Seq<SpecHm>)
    ensures
        resolve_all(s, ps).len() == ps.len(),
        forall|i: int| 0 <= i < ps.len() ==> #[trigger] resolve_all(s, ps)[i] == resolve(s, ps[i]),
    decreases ps.len(),
{
    if ps.len() > 0 {
        lemma_resolve_all(s, ps.drop_last());
        assert forall|i: int| 0 <= i < ps.len() implies #[trigger] resolve_all(s, ps)[i] == resolve(s, ps[i]) by {
            if i < ps.len() - 1 {
                assert(ps.drop_last()[i] == ps[i]);
            }
        }
    }
}

/// `w` occurs in `t` unbound, or in the binding of a bound variable of `t`.
pub open spec fn reaches(s: Subst, t: SpecHm, w: u32) -> bool {
    (has_var(t, w) && !is_bound(s, w)) || exists|v: u32|
        #[trigger] has_var(t, v) && is_bound(s, v) && has_var(s[v as int]->0, w)
}

/// `reaches` through a part of a type that keeps the part's variables.
proof fn lemma_reaches_part(s: Subst, part: SpecHm, t: SpecHm, w: u32)
    requires
        forall|u: u32| #[trigger] has_var(part, u) ==> has_var(t, u),
        reaches(s, part, w),
    ensures
        reaches(s, t, w),
{
    if !(has_var(part, w) && !is_bound(s, w)) {
        let v = choose|v: u32| #[trigger] has_var(part, v) && is_bound(s, v) && has_var(s[v as int]->0, w);
        assert(has_var(t, v));
    }
}

/// The variables of a resolved type: those of `t` that stay unbound, and
/// those of the bindings of its bound ones.
pub proof fn lemma_resolve_vars(s: Subst, t: SpecHm, w: u32)
    ensures
        has_var(resolve(s, t), w) <==> reaches(s, t, w),
    decreases t,
{
    match t {
        SpecHm::Var(v) => {
            assert(has_var(t, v));
            assert forall|u: u32| #[trigger] has_var(t, u) implies u == v by {}
            if is_bound(s, v) {
                assert(resolve(s, t) == s[v as int]->0);
                if has_var(s[v as int]->0, w) {
                    assert(has_var(t, v) && is_bound(s, v) && has_var(s[v as int]->0, w));
                }
            } else {
                assert(resolve(s, t) == t);
            }
        },
        SpecHm::List(inner) => {
            lemma_resolve_vars(s, *inner, w);
            assert(resolve(s, t) == SpecHm::List(Box::new(resolve(s, *inner))));
            assert forall|u: u32| #[trigger] has_var(*inner, u) implies has_var(t, u) by {}
            if reaches(s, *inner, w) {
                lemma_reaches_part(s, *inner, t, w);
            }
            if reaches(s, t, w) {
                if !(has_var(t, w) && !is_bound(s, w)) {
                    let v = choose|v: u32| #[trigger] has_var(t, v) && is_bound(s, v) && has_var(s[v as int]->0, w);
                    assert(has_var(*inner, v));
                }
            }
        },
        SpecHm::Function(ps, r) => {
            assert(decreases_to!(t => ps));
            lemma_resolve_vars(s, *r, w);
            lemma_resolve_all(s, ps);
            let rs = resolve_all(s, ps);
            assert(resolve(s, t) == SpecHm::Function(rs, Box::new(resolve(s, *r))));
            lemma_any_has_var(rs, w);
            assert forall|u: u32| #[trigger] has_var(*r, u) implies has_var(t, u) by {}
            assert forall|i: int, u: u32| 0 <= i < ps.len() && #[trigger] has_var(ps[i], u) implies has_var(t, u) by {
                lemma_any_has_var(ps, u);
            }
            // from a resolved occurrence to `reaches`
            if has_var(resolve(s, t), w) {
                if any_has_var(rs, w) {
                    let i = choose|i: int| 0 <= i < rs.len() && #[trigger] has_var(rs[i], w);
                    lemma_resolve_vars(s, ps[i], w);
                    assert forall|u: u32| #[trigger] has_var(ps[i], u) implies has_var(t, u) by {
                        assert(has_var(ps[i], u) ==> has_var(t, u));
                    }
                    lemma_reaches_part(s, ps[i], t, w);
                } else {
                    lemma_reaches_part(s, *r, t, w);
                }
            }
            // from `reaches` to a resolved occurrence
            if reaches(s, t, w) {
                let u = if has_var(t, w) && !is_bound(s, w) {
                    w
                } else {
                    choose|v: u32| #[trigger] has_var(t, v) && is_bound(s, v) && has_var(s[v as int]->0, w)
                };
                assert(has_var(t, u));
                if any_has_var(ps, u) {
                    lemma_any_has_var(ps, u);
                    let i = choose|i: int| 0 <= i < ps.len() && #[trigger] has_var(ps[i], u);
                    lemma_resolve_vars(s, ps[i], w);
                    assert(reaches(s, ps[i], w));
                    assert(has_var(rs[i], w));
                } else {
                    assert(has_var(*r, u));
                    assert(reaches(s, *r, w));
                }
            }
        },
        _ => {
            assert forall|u: u32| !#[trigger] has_var(t, u) by {}
            assert(resolve(s, t) == t);
        },
    }
}

/// Under a well-formed substitution a resolved type mentions no bound
/// variable, and stays below a bound that the type and the substitution keep.
pub proof fn lemma_resolve_free(s: Subst, t: SpecHm)
    requires
        wf_subst(s),
        below(t, s.len()),
    ensures
        free_in(s, resolve(s, t)),
{
    assert forall|w: u32| #[trigger] has_var(resolve(s, t), w) implies (w as int) < s.len()
        && s[w as int] is None by {
        lemma_resolve_vars(s, t, w);
        if !(has_var(t, w) && !is_bound(s, w)) {
            let v = choose|v: u32| #[trigger] has_var(t, v) && is_bound(s, v) && has_var(s[v as int]->0, w);
            assert(s[v as int] is Some);
        }
    }
}

/// Resolving a type that mentions no bound variable changes nothing.
pub proof fn lemma_resolve_idem(s: Subst, t: SpecHm)
    requires
        forall|w: u32| #[trigger] has_var(t, w) ==> !is_bound(s, w),
    ensures
        resolve(s, t) == t,
    decreases t,
{
    match t {
        SpecHm::List(inner) => {
            assert forall|w: u32| #[trigger] has_var(*inner, w) implies !is_bound(s, w) by {
                assert(has_var(t, w));
            }
            lemma_resolve_idem(s, *inner);
            let ri = resolve(s, *inner);
            assert(ri == *inner);
            assert(resolve(s, t) == SpecHm::List(Box::new(ri)));
            assert(t == SpecHm::List(Box::new(*inner)));
        },
        SpecHm::Function(ps, r) => {
            assert forall|w: u32| #[trigger] has_var(*r, w) implies !is_bound(s, w) by {
                assert(has_var(t, w));
            }
            lemma_resolve_idem(s, *r);
            lemma_resolve_all(s, ps);
            assert forall|i: int| 0 <= i < ps.len() implies resolve(s, ps[i]) == ps[i] by {
                assert(decreases_to!(t => ps));
                assert forall|w: u32| #[trigger] has_var(ps[i], w) implies !is_bound(s, w) by {
                    lemma_any_has_var(ps, w);
                    assert(has_var(t, w));
                }
                lemma_resolve_idem(s, ps[i]);
            }
            assert(resolve_all(s, ps) =~= ps);
        },
        SpecHm::Var(v) => {
            assert(has_var(t, v));
            assert(resolve(s, t) == t);
        },
        SpecHm::Custom(n) => {
            assert(resolve(s, t) == t);
        },
        _ => {
            assert(resolve(s, t) == t);
        },
    }
}

pub proof fn lemma_wf_push_none(s: Subst)
    requires
        wf_subst(s),
    ensures
        wf_subst(s.push(None)),
        unbound(s.push(None)) == unbound(s) + 1,
{
    let t = s.push(None);
    assert(t.drop_last() =~= s);
    assert forall|v: int| 0 <= v < t.len() && #[trigger] t[v] is Some implies free_in(t, t[v]->0) by {
        assert(t[v] == s[v]);
        assert(free_in(s, s[v]->0));
        assert forall|w: u32| #[trigger] has_var(t[v]->0, w) implies (w as int) < t.len() && t[w as int] is None by {
            assert(s[w as int] is None);
        }
    }
}

// ── Binding a variable ────────────────────────────────────────────────────────

/// `t` with every occurrence of variable `id` replaced by `r`.
pub open spec fn subst_one(t: SpecHm, id: u32, r: SpecHm) -> SpecHm
    decreases t,
{
    match t {
        SpecHm::Var(v) => if v == id {
            r
        } else {
            t
        },
        SpecHm::List(inner) => SpecHm::List(Box::new(subst_one(*inner, id, r))),
        SpecHm::Function(ps, ret) => SpecHm::Function(subst_one_all(ps, id, r), Box::new(subst_one(*ret, id, r))),
        _ => t,
    }
}

pub open spec fn subst_one_all(ps: Seq<SpecHm>, id: u32, r: SpecHm) -> Seq<SpecHm>
    decreases ps,
{
    if ps.len() == 0 {
        Seq::empty()
    } else {
        subst_one_all(ps.drop_last(), id, r).push(subst_one(ps.last(), id, r))
    }
}

pub proof fn lemma_subst_one_all(ps: Seq<SpecHm>, id: u32, r: SpecHm)
    ensures
        subst_one_all(ps, id, r).len() == ps.len(),
        forall|i: int| 0 <= i < ps.len() ==> #[trigger] subst_one_all(ps, id, r)[i] == subst_one(ps[i], id, r),
    decreases ps.len(),
{
    if ps.len() > 0 {
        lemma_subst_one_all(ps.drop_last(), id, r);
        assert forall|i: int| 0 <= i < ps.len() implies #[trigger] subst_one_all(ps, id, r)[i] == subst_one(ps[i], id, r) by {
            if i < ps.len() - 1 {
                assert(ps.drop_last()[i] == ps[i]);
            }
        }
    }
}

/// A variable of `t` with `id` replaced by `r` comes from `t` (and is not
/// `id`) or from `r`.
pub proof fn lemma_subst_one_vars(t: SpecHm, id: u32, r: SpecHm, w: u32)
    ensures
        has_var(subst_one(t, id, r), w) ==> (has_var(t, w) && w != id) || has_var(r, w),
    decreases t,
{
    match t {
        SpecHm::List(inner) => {
            lemma_subst_one_vars(*inner, id, r, w);
        },
        SpecHm::Function(ps, ret) => {
            assert(decreases_to!(t => ps));
            lemma_subst_one_vars(*ret, id, r, w);
            lemma_subst_one_all(ps, id, r);
            lemma_any_has_var(subst_one_all(ps, id, r), w);
            if any_has_var(subst_one_all(ps, id, r), w) {
                let i = choose|i: int| 0 <= i < ps.len() && #[trigger] has_var(subst_one_all(ps, id, r)[i], w);
                lemma_subst_one_vars(ps[i], id, r, w);
                if has_var(ps[i], w) {
                    lemma_any_has_var(ps, w);
                }
            }
        },
        _ => {},
    }
}

/// The substitution after binding the unbound variable `id` to `r`: every
/// earlier binding has `id` replaced by `r`, so that the result stays
/// idempotent.
pub open spec fn bind(s: Subst, id: u32, r: SpecHm) -> Subst {
    Seq::new(
        s.len(),
        |i: int|
            if i == id as int {
                Some(r)
            } else if s[i] is Some {
                Some(subst_one(s[i]->0, id, r))
            } else {
                None
            },
    )
}

proof fn lemma_unbound_change(s: Subst, t: Subst, k: int)
    requires
        s.len() == t.len(),
        0 <= k < s.len(),
        s[k] is None,
        t[k] is Some,
        forall|i: int| 0 <= i < s.len() && i != k ==> (#[trigger] s[i] is None <==> t[i] is None),
    ensures
        unbound(t) + 1 == unbound(s),
    decreases s.len(),
{
    if k < s.len() - 1 {
        lemma_unbound_change(s.drop_last(), t.drop_last(), k);
        assert(s.last() is None <==> t.last() is None);
    } else {
        lemma_unbound_same(s.drop_last(), t.drop_last());
    }
}

proof fn lemma_unbound_same(s: Subst, t: Subst)
    requires
        s.len() == t.len(),
        forall|i: int| 0 <= i < s.len() ==> (#[trigger] s[i] is None <==> t[i] is None),
    ensures
        unbound(t) == unbound(s),
    decreases s.len(),
{
    if s.len() > 0 {
        lemma_unbound_same(s.drop_last(), t.drop_last());
        assert(s.last() is None <==> t.last() is None);
    }
}

/// Binding an unbound variable to a resolved type that does not mention it
/// keeps the substitution well formed and binds one variable more.
pub proof fn lemma_bind_wf(s: Subst, id: u32, r: SpecHm)
    requires
        wf_subst(s),
        (id as int) < s.len(),
        s[id as int] is None,
        free_in(s, r),
        !has_var(r, id),
    ensures
        wf_subst(bind(s, id, r)),
        unbound(bind(s, id, r)) + 1 == unbound(s),
{
    let t = bind(s, id, r);
    assert forall|v: int| 0 <= v < t.len() && #[trigger] t[v] is Some implies free_in(t, t[v]->0) by {
        assert forall|w: u32| #[trigger] has_var(t[v]->0, w) implies (w as int) < t.len() && t[w as int] is None by {
            if v == id as int {
                assert(s[w as int] is None);
                assert(w != id);
            } else {
                lemma_subst_one_vars(s[v]->0, id, r, w);
                assert(free_in(s, s[v]->0));
                if has_var(s[v]->0, w) && w != id {
                    assert(s[w as int] is None);
                } else {
                    assert(s[w as int] is None);
                    assert(w != id);
                }
            }
        }
    }
    lemma_unbound_change(s, t, id as int);
}

// ── Text of types and of unification failures ────────────────────────────────

/// How a type is written in messages.
pub open spec fn display(t: SpecHm) -> Seq<char>
    decreases t,
{
    match t {
        SpecHm::Int => "Int"@,
        SpecHm::String => "String"@,
        SpecHm::Bool => "Bool"@,
        SpecHm::Void => "Void"@,
        SpecHm::List(inner) => "List<"@ + display(*inner) + ">"@,
        SpecHm::Custom(n) => n,
        SpecHm::Function(ps, r) => "("@ + display_list(ps) + ") => "@ + display(*r),
        SpecHm::Var(id) => "α"@ + decimal(id as nat),
    }
}

/// The types of a list written one after another, separated by `, `.
pub open spec fn display_list(ps: Seq<SpecHm>) -> Seq<char>
    decreases ps,
{
    if ps.len() == 0 {
        Seq::empty()
    } else if ps.len() == 1 {
        display(ps[0])
    } else {
        display_list(ps.drop_last()) + ", "@ + display(ps.last())
    }
}

pub open spec fn infinite_msg(id: u32, t: SpecHm) -> Seq<char> {
    "infinite type: α"@ + decimal(id as nat) + " = "@ + display(t)
}

pub open spec fn arity_msg(n1: nat, n2: nat) -> Seq<char> {
    "function arity mismatch: "@ + decimal(n1) + " vs "@ + decimal(n2)
}

pub open spec fn clash_msg(a: SpecHm, b: SpecHm) -> Seq<char> {
    "cannot unify "@ + display(a) + " with "@ + display(b)
}

// ── Robinson unification ──────────────────────────────────────────────────────

/// The size of a pair once resolved: what unification of the pair works on.
pub open spec fn msize(s: Subst, t1: SpecHm, t2: SpecHm) -> nat {
    size(resolve(s, t1)) + size(resolve(s, t2))
}

pub open spec fn msizes(s: Subst, xs: Seq<SpecHm>, ys: Seq<SpecHm>) -> nat
    decreases xs.len(),
{
    if xs.len() == 0 || ys.len() == 0 {
        0
    } else {
        msize(s, xs[0], ys[0]) + msizes(s, xs.drop_first(), ys.drop_first())
    }
}

/// Unifies `t1` with `t2` under `s`: the outcome, and the substitution after
/// it. Both are resolved first; equal types unify at once; a variable is
/// bound to the other side unless it occurs there; lists unify their
/// elements; functions of equal arity unify their parameters in order and
/// then their results; anything else fails. A failure leaves the bindings
/// made before it.
pub open spec fn unify_spec(s: Subst, t1: SpecHm, t2: SpecHm) -> (Result<(), Seq<char>>, Subst)
    decreases unbound(s), msize(s, t1, t2), 1nat,
{
    let a = resolve(s, t1);
    let b = resolve(s, t2);
    if a == b {
        (Ok(()), s)
    } else if let SpecHm::Var(id) = a {
        if has_var(b, id) {
            (Err(infinite_msg(id, b)), s)
        } else {
            (Ok(()), bind(s, id, b))
        }
    } else if let SpecHm::Var(id) = b {
        if has_var(a, id) {
            (Err(infinite_msg(id, a)), s)
        } else {
            (Ok(()), bind(s, id, a))
        }
    } else if let (SpecHm::List(x), SpecHm::List(y)) = (a, b) {
        if msize(s, *x, *y) < msize(s, t1, t2) {
            unify_spec(s, *x, *y)
        } else {
            (Ok(()), s)
        }
    } else if let (SpecHm::Function(ps1, r1), SpecHm::Function(ps2, r2)) = (a, b) {
        if ps1.len() != ps2.len() {
            (Err(arity_msg(ps1.len(), ps2.len())), s)
        } else {
            let xs = ps1.push(*r1);
            let ys = ps2.push(*r2);
            if msizes(s, xs, ys) < msize(s, t1, t2) {
                unify_all(s, xs, ys)
            } else {
                (Ok(()), s)
            }
        }
    } else {
        (Err(clash_msg(a, b)), s)
    }
}

/// Unifies the pairs of `xs` and `ys` in order, stopping at the first failure.
pub open spec fn unify_all(s: Subst, xs: Seq<SpecHm>, ys: Seq<SpecHm>) -> (Result<(), Seq<char>>, Subst)
    decreases unbound(s), msizes(s, xs, ys), 2nat,
{
    if xs.len() == 0 || ys.len() == 0 {
        (Ok(()), s)
    } else {
        let (r, s1) = unify_spec(s, xs[0], ys[0]);
        if r is Err {
            (r, s1)
        } else if unbound(s1) < unbound(s) || s1 == s {
            unify_all(s1, xs.drop_first(), ys.drop_first())
        } else {
            (r, s1)
        }
    }
}

proof fn lemma_sizes_front(s: Seq<SpecHm>)
    requires
        s.len() > 0,
    ensures
        sizes(s) == size(s[0]) + sizes(s.drop_first()),
    decreases s.len(),
{
    if s.len() > 1 {
        lemma_sizes_front(s.drop_last());
        assert(s.drop_last().drop_first() =~= s.drop_first().drop_last());
        assert(s.drop_last()[0] == s[0]);
        assert(s.drop_first().last() == s.last());
        let d = s.drop_first();
        assert(sizes(d) == sizes(d.drop_last()) + size(d.last()));
        assert(sizes(s) == sizes(s.drop_last()) + size(s.last()));
    } else {
        assert(s.last() == s[0]);
        assert(s.drop_last().len() == 0);
        assert(s.drop_first().len() == 0);
        assert(sizes(s.drop_last()) == 0);
        assert(sizes(s.drop_first()) == 0);
        assert(sizes(s) == sizes(s.drop_last()) + size(s.last()));
    }
}

/// On pairs that resolve to themselves, the measure is the sum of the sizes.
proof fn lemma_msizes_free(s: Subst, xs: Seq<SpecHm>, ys: Seq<SpecHm>)
    requires
        xs.len() == ys.len(),
        forall|i: int| 0 <= i < xs.len() ==> resolve(s, #[trigger] xs[i]) == xs[i],
        forall|i: int| 0 <= i < ys.len() ==> resolve(s, #[trigger] ys[i]) == ys[i],
    ensures
        msizes(s, xs, ys) == sizes(xs) + sizes(ys),
    decreases xs.len(),
{
    if xs.len() > 0 {
        lemma_sizes_front(xs);
        lemma_sizes_front(ys);
        assert forall|i: int| 0 <= i < xs.drop_first().len() implies resolve(s, #[trigger] xs.drop_first()[i])
            == xs.drop_first()[i] by {
            assert(xs.drop_first()[i] == xs[i + 1]);
        }
        assert forall|i: int| 0 <= i < ys.drop_first().len() implies resolve(s, #[trigger] ys.drop_first()[i])
            == ys.drop_first()[i] by {
            assert(ys.drop_first()[i] == ys[i + 1]);
        }
        lemma_msizes_free(s, xs.drop_first(), ys.drop_first());
        assert(resolve(s, xs[0]) == xs[0]);
        assert(resolve(s, ys[0]) == ys[0]);
    }
}

/// One pair's measure is at most that of any suffix that starts with it.
proof fn lemma_msizes_skip(s: Subst, xs: Seq<SpecHm>, ys: Seq<SpecHm>, i: int)
    requires
        xs.len() == ys.len(),
        0 <= i < xs.len(),
    ensures
        msize(s, xs[i], ys[i]) <= msizes(s, xs.skip(i), ys.skip(i)),
        msizes(s, xs.skip(i), ys.skip(i)) <= msizes(s, xs, ys),
    decreases i,
{
    assert(xs.skip(i)[0] == xs[i]);
    assert(ys.skip(i)[0] == ys[i]);
    if i > 0 {
        lemma_msizes_skip(s, xs, ys, i - 1);
        assert(xs.skip(i - 1).drop_first() =~= xs.skip(i));
        assert(ys.skip(i - 1).drop_first() =~= ys.skip(i));
    } else {
        assert(xs.skip(0) =~= xs);
        assert(ys.skip(0) =~= ys);
    }
}

// ── Executable types ──────────────────────────────────────────────────────────

impl HmType {
    /// A copy with the same view.
    #[verifier::loop_isolation(false)]
    pub fn duplicate(&self) -> (t: HmType)
        ensures
            t@ == self@,
        decreases self,
    {
        match self {
            HmType::Int => HmType::Int,
            HmType::String => HmType::String,
            HmType::Bool => HmType::Bool,
            HmType::Void => HmType::Void,
            HmType::Custom(n) => HmType::Custom(n.clone()),
            HmType::Var(v) => HmType::Var(*v),
            HmType::List(inner) => HmType::List(Box::new((**inner).duplicate())),
            HmType::Function(ps, r) => {
                let mut out: Vec<HmType> = Vec::new();
                let mut i: usize = 0;
                while i < ps.len()
                    invariant
                        i <= ps.len(),
                        out@.len() == i,
                        forall|j: int| 0 <= j < i ==> (#[trigger] out@[j])@ == ps@[j]@,
                    decreases ps.len() - i,
                {
                    proof {
                        assert(decreases_to!(ps => ps@));
                        assert(decreases_to!(ps@ => ps@[i as int]));
                    }
                    let t = ps[i].duplicate();
                    out.push(t);
                    i = i + 1;
                }
                proof {
                    lemma_hms_view(out@);
                    lemma_hms_view(ps@);
                    assert(hms_view(out@) =~= hms_view(ps@));
                }
                HmType::Function(out, Box::new((**r).duplicate()))
            },
        }
    }

    /// How the type is written in messages.
    pub fn display(&self) -> (s: String)
        ensures
            s@ == display(self@),
    {
        let mut out: Vec<char> = Vec::new();
        push_display(&mut out, self);
        string_from_chars(out.as_slice())
    }
}

impl Clone for HmType {
    fn clone(&self) -> (t: HmType)
        ensures
            t@ == self@,
    {
        self.duplicate()
    }
}

/// Whether two types are equal.
#[verifier::loop_isolation(false)]
pub fn hm_eq(a: &HmType, b: &HmType) -> (r: bool)
    ensures
        r == (a@ == b@),
    decreases a,
{
    match (a, b) {
        (HmType::Int, HmType::Int) => true,
        (HmType::String, HmType::String) => true,
        (HmType::Bool, HmType::Bool) => true,
        (HmType::Void, HmType::Void) => true,
        (HmType::Custom(x), HmType::Custom(y)) => x.eq(y),
        (HmType::Var(x), HmType::Var(y)) => *x == *y,
        (HmType::List(x), HmType::List(y)) => hm_eq(x, y),
        (HmType::Function(ps, r1), HmType::Function(qs, r2)) => {
            proof {
                lemma_hms_view(ps@);
                lemma_hms_view(qs@);
            }
            if ps.len() != qs.len() {
                return false;
            }
            let mut i: usize = 0;
            while i < ps.len()
                invariant
                    i <= ps.len(),
                    ps.len() == qs.len(),
                    forall|j: int| 0 <= j < i ==> (#[trigger] ps@[j])@ == qs@[j]@,
                decreases ps.len() - i,
            {
                proof {
                    assert(decreases_to!(ps => ps@));
                    assert(decreases_to!(ps@ => ps@[i as int]));
                }
                if !hm_eq(&ps[i], &qs[i]) {
                    assert(hms_view(ps@)[i as int] != hms_view(qs@)[i as int]);
                    return false;
                }
                i = i + 1;
            }
            assert(hms_view(ps@) =~= hms_view(qs@));
            hm_eq(r1, r2)
        },
        _ => false,
    }
}

/// Appends how `t` is written to `out`.
#[verifier::loop_isolation(false)]
fn push_display(out: &mut Vec<char>, t: &HmType)
    ensures
        final(out)@ == old(out)@ + display(t@),
    decreases t,
{
    match t {
        HmType::Int => push_str(out, "Int"),
        HmType::String => push_str(out, "String"),
        HmType::Bool => push_str(out, "Bool"),
        HmType::Void => push_str(out, "Void"),
        HmType::Custom(n) => push_str(out, n.as_str()),
        HmType::Var(id) => {
            push_str(out, "α");
            push_decimal(out, *id as u64);
        },
        HmType::List(inner) => {
            push_str(out, "List<");
            push_display(out, inner);
            push_str(out, ">");
        },
        HmType::Function(ps, r) => {
            proof {
                lemma_hms_view(ps@);
            }
            let ghost pv = hms_view(ps@);
            push_str(out, "(");
            let ghost start = out@;
            let mut i: usize = 0;
            while i < ps.len()
                invariant
                    i <= ps.len(),
                    out@ == start + display_list(pv.take(i as int)),
                decreases ps.len() - i,
            {
                proof {
                    assert(decreases_to!(ps => ps@));
                    assert(decreases_to!(ps@ => ps@[i as int]));
                }
                let ghost before = out@;
                if i > 0 {
                    push_str(out, ", ");
                }
                push_display(out, &ps[i]);
                proof {
                    let tk = pv.take(i + 1);
                    assert(tk.drop_last() =~= pv.take(i as int));
                    assert(tk.last() == ps@[i as int]@);
                    if i == 0 {
                        assert(tk.len() == 1);
                        assert(display_list(tk) == display(tk[0]));
                        assert(display_list(pv.take(0)) == Seq::<char>::empty());
                        assert(out@ =~= start + display_list(tk));
                    } else {
                        assert(out@ =~= start + display_list(tk));
                    }
                }
                i = i + 1;
            }
            assert(pv.take(ps.len() as int) =~= pv);
            push_str(out, ") => ");
            push_display(out, r);
            assert(out@ =~= old(out)@ + display(t@));
        },
    }
}

fn text_of(out: Vec<char>) -> (s: String)
    ensures
        s@ == out@,
{
    string_from_chars(out.as_slice())
}

fn infinite_text(id: u32, t: &HmType) -> (s: String)
    ensures
        s@ == infinite_msg(id, t@),
{
    let mut out: Vec<char> = Vec::new();
    push_str(&mut out, "infinite type: α");
    push_decimal(&mut out, id as u64);
    push_str(&mut out, " = ");
    push_display(&mut out, t);
    assert(out@ =~= infinite_msg(id, t@));
    text_of(out)
}

fn arity_text(n1: usize, n2: usize) -> (s: String)
    ensures
        s@ == arity_msg(n1 as nat, n2 as nat),
{
    let mut out: Vec<char> = Vec::new();
    push_str(&mut out, "function arity mismatch: ");
    push_decimal(&mut out, n1 as u64);
    push_str(&mut out, " vs ");
    push_decimal(&mut out, n2 as u64);
    assert(out@ =~= arity_msg(n1 as nat, n2 as nat));
    text_of(out)
}

fn clash_text(a: &HmType, b: &HmType) -> (s: String)
    ensures
        s@ == clash_msg(a@, b@),
{
    let mut out: Vec<char> = Vec::new();
    push_str(&mut out, "cannot unify ");
    push_display(&mut out, a);
    push_str(&mut out, " with ");
    push_display(&mut out, b);
    assert(out@ =~= clash_msg(a@, b@));
    text_of(out)
}

/// Whether the variable `id` occurs in `t`.
#[verifier::loop_isolation(false)]
fn mentions(t: &HmType, id: u32) -> (r: bool)
    ensures
        r == has_var(t@, id),
    decreases t,
{
    match t {
        HmType::Var(v) => *v == id,
        HmType::List(inner) => mentions(inner, id),
        HmType::Function(ps, r) => {
            proof {
                lemma_hms_view(ps@);
                lemma_any_has_var(hms_view(ps@), id);
            }
            let mut i: usize = 0;
            while i < ps.len()
                invariant
                    i <= ps.len(),
                    forall|j: int| 0 <= j < i ==> !has_var(#[trigger] ps@[j]@, id),
                decreases ps.len() - i,
            {
                proof {
                    assert(decreases_to!(ps => ps@));
                    assert(decreases_to!(ps@ => ps@[i as int]));
                }
                if mentions(&ps[i], id) {
                    assert(has_var(hms_view(ps@)[i as int], id));
                    return true;
                }
                i = i + 1;
            }
            mentions(r, id)
        },
        _ => false,
    }
}

/// `t` with every occurrence of variable `id` replaced by `r`.
#[verifier::loop_isolation(false)]
fn replace_var(t: &HmType, id: u32, r: &HmType) -> (out: HmType)
    ensures
        out@ == subst_one(t@, id, r@),
    decreases t,
{
    match t {
        HmType::Var(v) => if *v == id {
            r.duplicate()
        } else {
            HmType::Var(*v)
        },
        HmType::List(inner) => HmType::List(Box::new(replace_var(inner, id, r))),
        HmType::Function(ps, ret) => {
            let mut out: Vec<HmType> = Vec::new();
            let mut i: usize = 0;
            while i < ps.len()
                invariant
                    i <= ps.len(),
                    out@.len() == i,
                    forall|j: int| 0 <= j < i ==> (#[trigger] out@[j])@ == subst_one(ps@[j]@, id, r@),
                decreases ps.len() - i,
            {
                proof {
                    assert(decreases_to!(ps => ps@));
                    assert(decreases_to!(ps@ => ps@[i as int]));
                }
                let x = replace_var(&ps[i], id, r);
                out.push(x);
                i = i + 1;
            }
            proof {
                lemma_hms_view(out@);
                lemma_hms_view(ps@);
                lemma_subst_one_all(hms_view(ps@), id, r@);
                assert(hms_view(out@) =~= subst_one_all(hms_view(ps@), id, r@));
            }
            HmType::Function(out, Box::new(replace_var(ret, id, r)))
        },
        HmType::Int => HmType::Int,
        HmType::String => HmType::String,
        HmType::Bool => HmType::Bool,
        HmType::Void => HmType::Void,
        HmType::Custom(n) => HmType::Custom(n.clone()),
    }
}

// ── The unifier ───────────────────────────────────────────────────────────────

pub open spec fn opt_view(o: Option<HmType>) -> Option<SpecHm> {
    match o {
        Some(t) => Some(t@),
        None => None,
    }
}

pub open spec fn res_view(r: Result<(), String>) -> Result<(), Seq<char>> {
    match r {
        Ok(()) => Ok(()),
        Err(e) => Err(e@),
    }
}

/// The substitution of one inference, and the next free variable. Entry `v`
/// of `subst` holds what variable `v` is bound to; bindings are kept fully
/// resolved.
pub struct Unifier {
    pub next_id: u32,
    pub subst: Vec<Option<HmType>>,
}

impl Unifier {
    pub open spec fn sv(&self) -> Subst {
        Seq::new(self.subst@.len(), |i: int| opt_view(self.subst@[i]))
    }

    /// One entry per allocated variable, and the substitution well formed.
    pub open spec fn wf(&self) -> bool {
        &&& self.subst@.len() == self.next_id as nat
        &&& wf_subst(self.sv())
    }

    /// A unifier with no variable yet.
    pub fn new() -> (u: Unifier)
        ensures
            u.wf(),
            u.next_id == 0,
            u.sv() == Seq::<Option<SpecHm>>::empty(),
    {
        let u = Unifier { next_id: 0, subst: Vec::new() };
        assert(u.sv() =~= Seq::<Option<SpecHm>>::empty());
        u
    }

    /// Allocates a fresh, unbound variable.
    pub fn fresh(&mut self) -> (id: u32)
        requires
            old(self).wf(),
            old(self).next_id < u32::MAX,
        ensures
            id == old(self).next_id,
            final(self).next_id == old(self).next_id + 1,
            final(self).sv() == old(self).sv().push(None),
            final(self).wf(),
    {
        let id = self.next_id;
        proof {
            lemma_wf_push_none(self.sv());
        }
        self.subst.push(None);
        self.next_id = self.next_id + 1;
        assert(self.sv() =~= old(self).sv().push(None));
        id
    }

    /// Applies the substitution to `ty`.
    #[verifier::loop_isolation(false)]
    pub fn apply(&self, ty: &HmType) -> (r: HmType)
        ensures
            r@ == resolve(self.sv(), ty@),
        decreases ty,
    {
        match ty {
            HmType::Var(v) => {
                let i = *v as usize;
                if i < self.subst.len() {
                    match &self.subst[i] {
                        Some(b) => b.duplicate(),
                        None => HmType::Var(*v),
                    }
                } else {
                    HmType::Var(*v)
                }
            },
            HmType::List(inner) => HmType::List(Box::new(self.apply(inner))),
            HmType::Function(ps, r) => {
                let mut out: Vec<HmType> = Vec::new();
                let mut i: usize = 0;
                while i < ps.len()
                    invariant
                        i <= ps.len(),
                        out@.len() == i,
                        forall|j: int| 0 <= j < i ==> (#[trigger] out@[j])@ == resolve(self.sv(), ps@[j]@),
                    decreases ps.len() - i,
                {
                    proof {
                        assert(decreases_to!(ps => ps@));
                        assert(decreases_to!(ps@ => ps@[i as int]));
                    }
                    let x = self.apply(&ps[i]);
                    out.push(x);
                    i = i + 1;
                }
                proof {
                    lemma_hms_view(out@);
                    lemma_hms_view(ps@);
                    lemma_resolve_all(self.sv(), hms_view(ps@));
                    assert(hms_view(out@) =~= resolve_all(self.sv(), hms_view(ps@)));
                }
                HmType::Function(out, Box::new(self.apply(r)))
            },
            HmType::Int => HmType::Int,
            HmType::String => HmType::String,
            HmType::Bool => HmType::Bool,
            HmType::Void => HmType::Void,
            HmType::Custom(n) => HmType::Custom(n.clone()),
        }
    }

    /// Occurs check: whether `id` appears in `ty` once the substitution is
    /// applied.
    pub fn occurs(&self, id: u32, ty: &HmType) -> (r: bool)
        ensures
            r == has_var(resolve(self.sv(), ty@), id),
    {
        let t = self.apply(ty);
        mentions(&t, id)
    }

    /// Binds the variable `id` to `other`, replacing it in every binding.
    fn bind(&mut self, id: u32, other: HmType)
        requires
            (id as int) < old(self).subst@.len(),
        ensures
            final(self).sv() == bind(old(self).sv(), id, other@),
            final(self).next_id == old(self).next_id,
            final(self).subst@.len() == old(self).subst@.len(),
    {
        let ghost s0 = self.sv();
        let n = self.subst.len();
        let mut out: Vec<Option<HmType>> = Vec::new();
        let mut i: usize = 0;
        while i < n
            invariant
                n == self.subst@.len(),
                self.sv() == s0,
                i <= n,
                out@.len() == i,
                forall|j: int| 0 <= j < i ==> #[trigger] opt_view(out@[j]) == bind(s0, id, other@)[j],
            decreases n - i,
        {
            if i == id as usize {
                out.push(Some(other.duplicate()));
            } else {
                match &self.subst[i] {
                    Some(t) => {
                        let x = replace_var(t, id, &other);
                        out.push(Some(x));
                    },
                    None => out.push(None),
                }
            }
            i = i + 1;
        }
        self.subst = out;
        assert(self.sv() =~= bind(s0, id, other@));
    }

    /// Robinson unification: extends the substitution so that `t1` and `t2`
    /// become equal, or says why they cannot be.
    pub fn unify(&mut self, t1: &HmType, t2: &HmType) -> (r: Result<(), String>)
        requires
            old(self).wf(),
            below(t1@, old(self).next_id as nat),
            below(t2@, old(self).next_id as nat),
        ensures
            final(self).wf(),
            final(self).next_id == old(self).next_id,
            (res_view(r), final(self).sv()) == unify_spec(old(self).sv(), t1@, t2@),
            unbound(final(self).sv()) <= unbound(old(self).sv()),
            unbound(final(self).sv()) == unbound(old(self).sv()) ==> final(self).sv() == old(self).sv(),
        decreases unbound(old(self).sv()), msize(old(self).sv(), t1@, t2@), 1nat,
    {
        let ghost s0 = self.sv();
        let a = self.apply(t1);
        let b = self.apply(t2);
        proof {
            lemma_resolve_free(s0, t1@);
            lemma_resolve_free(s0, t2@);
            lemma_resolve_idem(s0, a@);
            lemma_resolve_idem(s0, b@);
        }
        if hm_eq(&a, &b) {
            return Ok(());
        }
        if let HmType::Var(id) = a {
            if self.occurs(id, &b) {
                return Err(infinite_text(id, &b));
            }
            proof {
                assert(has_var(a@, id));
                lemma_bind_wf(s0, id, b@);
            }
            self.bind(id, b);
            return Ok(());
        }
        if let HmType::Var(id) = b {
            if self.occurs(id, &a) {
                return Err(infinite_text(id, &a));
            }
            proof {
                assert(has_var(b@, id));
                lemma_bind_wf(s0, id, a@);
            }
            self.bind(id, a);
            return Ok(());
        }
        match (&a, &b) {
            (HmType::List(x), HmType::List(y)) => {
                proof {
                    assert forall|w: u32| #[trigger] has_var(x@, w) implies !is_bound(s0, w) && (w as nat)
                        < self.next_id as nat by {
                        assert(has_var(a@, w));
                    }
                    assert forall|w: u32| #[trigger] has_var(y@, w) implies !is_bound(s0, w) && (w as nat)
                        < self.next_id as nat by {
                        assert(has_var(b@, w));
                    }
                    lemma_resolve_idem(s0, x@);
                    lemma_resolve_idem(s0, y@);
                    assert(msize(s0, x@, y@) < msize(s0, t1@, t2@));
                    assert(unify_spec(s0, t1@, t2@) == unify_spec(s0, x@, y@));
                }
                self.unify(x, y)
            },
            (HmType::Function(ps1, r1), HmType::Function(ps2, r2)) => {
                proof {
                    lemma_hms_view(ps1@);
                    lemma_hms_view(ps2@);
                }
                if ps1.len() != ps2.len() {
                    return Err(arity_text(ps1.len(), ps2.len()));
                }
                let ghost xs = hms_view(ps1@).push(r1@);
                let ghost ys = hms_view(ps2@).push(r2@);
                let n = ps1.len();
                proof {
                    assert forall|j: int| 0 <= j < xs.len() implies free_in(s0, #[trigger] xs[j]) by {
                        assert forall|w: u32| #[trigger] has_var(xs[j], w) implies (w as int) < s0.len()
                            && s0[w as int] is None by {
                            if j < n {
                                lemma_any_has_var(hms_view(ps1@), w);
                                assert(hms_view(ps1@)[j] == xs[j]);
                            }
                            assert(has_var(a@, w));
                        }
                    }
                    assert forall|j: int| 0 <= j < ys.len() implies free_in(s0, #[trigger] ys[j]) by {
                        assert forall|w: u32| #[trigger] has_var(ys[j], w) implies (w as int) < s0.len()
                            && s0[w as int] is None by {
                            if j < n {
                                lemma_any_has_var(hms_view(ps2@), w);
                                assert(hms_view(ps2@)[j] == ys[j]);
                            }
                            assert(has_var(b@, w));
                        }
                    }
                    assert forall|j: int| 0 <= j < xs.len() implies resolve(s0, #[trigger] xs[j]) == xs[j] by {
                        assert(free_in(s0, xs[j]));
                        lemma_resolve_idem(s0, xs[j]);
                    }
                    assert forall|j: int| 0 <= j < ys.len() implies resolve(s0, #[trigger] ys[j]) == ys[j] by {
                        assert(free_in(s0, ys[j]));
                        lemma_resolve_idem(s0, ys[j]);
                    }
                    lemma_msizes_free(s0, xs, ys);
                    lemma_sizes_push(hms_view(ps1@), r1@);
                    lemma_sizes_push(hms_view(ps2@), r2@);
                    assert(xs.skip(0) =~= xs);
                    assert(ys.skip(0) =~= ys);
                }
                let mut i: usize = 0;
                while i < n
                    invariant
                        self.wf(),
                        s0 == old(self).sv(),
                        self.next_id == old(self).next_id,
                        s0.len() == self.next_id as nat,
                        i <= n,
                        n == ps1.len(),
                        n == ps2.len(),
                        xs.len() == n + 1,
                        ys.len() == n + 1,
                        forall|j: int| 0 <= j < n ==> #[trigger] xs[j] == ps1@[j]@,
                        forall|j: int| 0 <= j < n ==> #[trigger] ys[j] == ps2@[j]@,
                        xs[n as int] == r1@,
                        ys[n as int] == r2@,
                        forall|j: int| 0 <= j < xs.len() ==> free_in(s0, #[trigger] xs[j]),
                        forall|j: int| 0 <= j < ys.len() ==> free_in(s0, #[trigger] ys[j]),
                        unbound(self.sv()) <= unbound(s0),
                        unbound(self.sv()) == unbound(s0) ==> self.sv() == s0,
                        unify_spec(s0, t1@, t2@) == unify_all(self.sv(), xs.skip(i as int), ys.skip(i as int)),
                        msizes(s0, xs, ys) < msize(s0, t1@, t2@),
                    decreases n - i,
                {
                    proof {
                        lemma_msizes_skip(s0, xs, ys, i as int);
                        assert(free_in(s0, xs[i as int]));
                        assert(free_in(s0, ys[i as int]));
                        if unbound(self.sv()) == unbound(s0) {
                            assert(self.sv() == s0);
                            assert(msize(self.sv(), ps1@[i as int]@, ps2@[i as int]@) < msize(s0, t1@, t2@));
                        }
                    }
                    let ghost si = self.sv();
                    let res = self.unify(&ps1[i], &ps2[i]);
                    proof {
                        let xk = xs.skip(i as int);
                        let yk = ys.skip(i as int);
                        assert(xk[0] == xs[i as int]);
                        assert(yk[0] == ys[i as int]);
                        assert(xk.drop_first() =~= xs.skip(i + 1));
                        assert(yk.drop_first() =~= ys.skip(i + 1));
                    }
                    match res {
                        Err(e) => {
                            return Err(e);
                        },
                        Ok(()) => {},
                    }
                    i = i + 1;
                }
                proof {
                    lemma_msizes_skip(s0, xs, ys, n as int);
                    assert(free_in(s0, xs[n as int]));
                    assert(free_in(s0, ys[n as int]));
                    if unbound(self.sv()) == unbound(s0) {
                        assert(self.sv() == s0);
                        assert(msize(self.sv(), r1@, r2@) < msize(s0, t1@, t2@));
                    }
                }
                let ghost sn = self.sv();
                let res = self.unify(r1, r2);
                proof {
                    let xk = xs.skip(n as int);
                    let yk = ys.skip(n as int);
                    assert(xk[0] == r1@);
                    assert(yk[0] == r2@);
                    assert(xk.drop_first().len() == 0);
                    assert(yk.drop_first().len() == 0);
                    let s1 = unify_spec(sn, r1@, r2@).1;
                    assert(unify_all(s1, xk.drop_first(), yk.drop_first()) == (Ok::<(), Seq<char>>(()), s1));
                    assert(unify_all(sn, xk, yk) == unify_spec(sn, r1@, r2@));
                }
                res
            },
            _ => {
                assert(!(a@ is Var) && !(b@ is Var));
                assert(!(a@ is List && b@ is List));
                assert(!(a@ is Function && b@ is Function));
                assert(unify_spec(s0, t1@, t2@) == (Err::<(), Seq<char>>(clash_msg(a@, b@)), s0));
                Err(clash_text(&a, &b))
            },
        }
    }
}

proof fn lemma_unify_len(s: Subst, t1: SpecHm, t2: SpecHm)
    ensures
        unify_spec(s, t1, t2).1.len() == s.len(),
    decreases unbound(s), msize(s, t1, t2), 1nat,
{
    let a = resolve(s, t1);
    let b = resolve(s, t2);
    if a == b {
    } else if let SpecHm::Var(id) = a {
    } else if let SpecHm::Var(id) = b {
    } else if let (SpecHm::List(x), SpecHm::List(y)) = (a, b) {
        if msize(s, *x, *y) < msize(s, t1, t2) {
            lemma_unify_len(s, *x, *y);
        }
    } else if let (SpecHm::Function(ps1, r1), SpecHm::Function(ps2, r2)) = (a, b) {
        if ps1.len() == ps2.len() {
            let xs = ps1.push(*r1);
            let ys = ps2.push(*r2);
            if msizes(s, xs, ys) < msize(s, t1, t2) {
                lemma_unify_all_len(s, xs, ys);
            }
        }
    }
}

proof fn lemma_unify_all_len(s: Subst, xs: Seq<SpecHm>, ys: Seq<SpecHm>)
    ensures
        unify_all(s, xs, ys).1.len() == s.len(),
    decreases unbound(s), msizes(s, xs, ys), 2nat,
{
    if xs.len() > 0 && ys.len() > 0 {
        lemma_unify_len(s, xs[0], ys[0]);
        let (r, s1) = unify_spec(s, xs[0], ys[0]);
        if r is Ok && (unbound(s1) < unbound(s) || s1 == s) {
            lemma_unify_all_len(s1, xs.drop_first(), ys.drop_first());
        }
    }
}

/// Unification keeps the number of variables.
pub proof fn lemma_unify_keeps_len(s: Subst, t1: SpecHm, t2: SpecHm)
    ensures
        unify_spec(s, t1, t2).1.len() == s.len(),
{
    lemma_unify_len(s, t1, t2);
}

// ── Type schemes and environments ────────────────────────────────────────────

/// A type scheme `∀ quantified. ty`; with nothing quantified it is a monotype.
pub struct TypeScheme {
    pub quantified: Vec<u32>,
    pub ty: HmType,
}

pub struct SpecScheme {
    pub quantified: Seq<u32>,
    pub ty: SpecHm,
}

impl View for TypeScheme {
    type V = SpecScheme;

    open spec fn view(&self) -> SpecScheme {
        SpecScheme { quantified: self.quantified@, ty: self.ty@ }
    }
}

impl TypeScheme {
    /// A monotype.
    pub fn mono(ty: HmType) -> (sc: TypeScheme)
        ensures
            sc@ == (SpecScheme { quantified: Seq::empty(), ty: ty@ }),
    {
        let sc = TypeScheme { quantified: Vec::new(), ty };
        assert(sc@.quantified =~= Seq::<u32>::empty());
        sc
    }

    pub fn duplicate(&self) -> (sc: TypeScheme)
        ensures
            sc@ == self@,
    {
        TypeScheme { quantified: self.quantified.clone(), ty: self.ty.duplicate() }
    }
}

/// An environment: names and their schemes, each name once.
pub type SEnv = Seq<(Seq<char>, SpecScheme)>;

/// The first entry named `name`.
pub open spec fn env_index(e: SEnv, name: Seq<char>) -> Option<int>
    decreases e.len(),
{
    if e.len() == 0 {
        None
    } else {
        match env_index(e.drop_last(), name) {
            Some(i) => Some(i),
            None => if e.last().0 == name {
                Some(e.len() - 1)
            } else {
                None
            },
        }
    }
}

pub open spec fn env_get(e: SEnv, name: Seq<char>) -> Option<SpecScheme> {
    match env_index(e, name) {
        Some(i) => Some(e[i].1),
        None => None,
    }
}

/// `e` with `name` now meaning `sc`.
pub open spec fn env_put(e: SEnv, name: Seq<char>, sc: SpecScheme) -> SEnv {
    match env_index(e, name) {
        Some(i) => e.update(i, (name, sc)),
        None => e.push((name, sc)),
    }
}

pub proof fn lemma_env_index(e: SEnv, name: Seq<char>)
    ensures
        match env_index(e, name) {
            Some(i) => 0 <= i < e.len() && e[i].0 == name && forall|j: int| 0 <= j < i ==> #[trigger] e[j].0 != name,
            None => forall|j: int| 0 <= j < e.len() ==> #[trigger] e[j].0 != name,
        },
    decreases e.len(),
{
    if e.len() > 0 {
        lemma_env_index(e.drop_last(), name);
        match env_index(e.drop_last(), name) {
            Some(i) => {
                assert(e.drop_last()[i] == e[i]);
                assert forall|j: int| 0 <= j < i implies #[trigger] e[j].0 != name by {
                    assert(e.drop_last()[j] == e[j]);
                }
            },
            None => {
                assert forall|j: int| 0 <= j < e.len() - 1 implies #[trigger] e[j].0 != name by {
                    assert(e.drop_last()[j] == e[j]);
                }
            },
        }
    }
}

/// An environment of names and schemes.
pub struct HmEnv {
    pub entries: Vec<(String, TypeScheme)>,
}

impl HmEnv {
    pub open spec fn ev(&self) -> SEnv {
        Seq::new(self.entries@.len(), |i: int| (self.entries@[i].0@, self.entries@[i].1@))
    }

    /// The empty environment.
    pub fn new() -> (e: HmEnv)
        ensures
            e.ev() == Seq::<(Seq<char>, SpecScheme)>::empty(),
    {
        let e = HmEnv { entries: Vec::new() };
        assert(e.ev() =~= Seq::<(Seq<char>, SpecScheme)>::empty());
        e
    }

    fn index_of(&self, name: &str) -> (r: Option<usize>)
        ensures
            match r {
                Some(i) => (i as int) < self.entries@.len() && env_index(self.ev(), name@) == Some(i as int),
                None => env_index(self.ev(), name@) is None,
            },
    {
        proof {
            lemma_env_index(self.ev(), name@);
        }
        let mut i: usize = 0;
        while i < self.entries.len()
            invariant
                i <= self.entries@.len(),
                forall|j: int| 0 <= j < i ==> #[trigger] self.ev()[j].0 != name@,
            decreases self.entries.len() - i,
        {
            if crate::text::str_eq(self.entries[i].0.as_str(), name) {
                proof {
                    lemma_env_index(self.ev(), name@);
                    match env_index(self.ev(), name@) {
                        Some(k) => {
                            if k < i {
                                assert(self.ev()[k].0 != name@);
                            }
                            if k > i {
                                assert(self.ev()[i as int].0 == name@);
                            }
                        },
                        None => {
                            assert(self.ev()[i as int].0 == name@);
                        },
                    }
                }
                return Some(i);
            }
            i = i + 1;
        }
        proof {
            lemma_env_index(self.ev(), name@);
            if env_index(self.ev(), name@) is Some {
                let k = env_index(self.ev(), name@)->0;
                assert(self.ev()[k].0 != name@);
            }
        }
        None
    }

    /// The scheme of `name`, if it has one.
    pub fn get(&self, name: &str) -> (r: Option<&TypeScheme>)
        ensures
            match r {
                Some(sc) => env_get(self.ev(), name@) == Some(sc@),
                None => env_get(self.ev(), name@) is None,
            },
    {
        match self.index_of(name) {
            Some(i) => Some(&self.entries[i].1),
            None => None,
        }
    }

    /// Gives `name` the scheme `sc`, in place of any it had.
    pub fn insert(&mut self, name: String, sc: TypeScheme)
        ensures
            final(self).ev() == env_put(old(self).ev(), name@, sc@),
    {
        let ghost e0 = self.ev();
        let ghost nv = name@;
        let ghost scv = sc@;
        match self.index_of(name.as_str()) {
            Some(i) => {
                self.entries.set(i, (name, sc));
                assert(self.ev() =~= e0.update(i as int, (nv, scv)));
            },
            None => {
                self.entries.push((name, sc));
                assert(self.ev() =~= e0.push((nv, scv)));
            },
        }
    }

    /// A copy with the same view.
    pub fn duplicate(&self) -> (e: HmEnv)
        ensures
            e.ev() == self.ev(),
    {
        let mut out: Vec<(String, TypeScheme)> = Vec::new();
        let mut i: usize = 0;
        while i < self.entries.len()
            invariant
                i <= self.entries@.len(),
                out@.len() == i,
                forall|j: int| 0 <= j < i ==> (#[trigger] out@[j]).0@ == self.entries@[j].0@ && out@[j].1@
                    == self.entries@[j].1@,
            decreases self.entries.len() - i,
        {
            out.push((self.entries[i].0.clone(), self.entries[i].1.duplicate()));
            i = i + 1;
        }
        let e = HmEnv { entries: out };
        assert(e.ev() =~= self.ev());
        e
    }
}

/// Every type in the environment mentions only variables below `n`.
pub open spec fn env_below(e: SEnv, n: nat) -> bool {
    forall|i: int| 0 <= i < e.len() ==> below(#[trigger] e[i].1.ty, n)
}

// ── Generalization and instantiation ──────────────────────────────────────────

/// Whether `w` is free in the environment: it occurs in some scheme's
/// resolved type without being quantified there.
pub open spec fn env_free(s: Subst, e: SEnv, w: u32) -> bool {
    exists|i: int|
        0 <= i < e.len() && #[trigger] has_var(resolve(s, e[i].1.ty), w) && !e[i].1.quantified.contains(w)
}

/// The variables below `n` of `r` that are not free in the environment, in
/// increasing order.
pub open spec fn gen_vars(s: Subst, e: SEnv, r: SpecHm, n: nat) -> Seq<u32>
    decreases n,
{
    if n == 0 {
        Seq::empty()
    } else {
        let w = (n - 1) as u32;
        gen_vars(s, e, r, (n - 1) as nat) + if has_var(r, w) && !env_free(s, e, w) {
            seq![w]
        } else {
            Seq::empty()
        }
    }
}

/// Generalization: the resolved type, with every variable of it that the
/// environment leaves free quantified.
pub open spec fn gen_spec(s: Subst, e: SEnv, t: SpecHm) -> SpecScheme {
    SpecScheme { quantified: gen_vars(s, e, resolve(s, t), s.len()), ty: resolve(s, t) }
}

/// The last position of `v` in `qs`.
pub open spec fn last_index(qs: Seq<u32>, v: u32) -> Option<int>
    decreases qs.len(),
{
    if qs.len() == 0 {
        None
    } else if qs.last() == v {
        Some(qs.len() - 1)
    } else {
        last_index(qs.drop_last(), v)
    }
}

/// `t` with the `k`-th quantified variable replaced by variable `base + k`.
pub open spec fn inst_vars(t: SpecHm, qs: Seq<u32>, base: nat) -> SpecHm
    decreases t,
{
    match t {
        SpecHm::Var(v) => match last_index(qs, v) {
            Some(k) => SpecHm::Var((base + k) as u32),
            None => t,
        },
        SpecHm::List(inner) => SpecHm::List(Box::new(inst_vars(*inner, qs, base))),
        SpecHm::Function(ps, r) => SpecHm::Function(inst_vars_all(ps, qs, base), Box::new(inst_vars(*r, qs, base))),
        _ => t,
    }
}

pub open spec fn inst_vars_all(ps: Seq<SpecHm>, qs: Seq<u32>, base: nat) -> Seq<SpecHm>
    decreases ps,
{
    if ps.len() == 0 {
        Seq::empty()
    } else {
        inst_vars_all(ps.drop_last(), qs, base).push(inst_vars(ps.last(), qs, base))
    }
}

/// `n` fresh unbound variables after those of `s`.
pub open spec fn fresh_n(s: Subst, n: nat) -> Subst {
    s + Seq::new(n, |i: int| None::<SpecHm>)
}

/// Instantiation: a monotype is resolved; otherwise each quantified variable
/// gets a fresh variable, allocated in order.
pub open spec fn instantiate_spec(sc: SpecScheme, s: Subst) -> (SpecHm, Subst) {
    if sc.quantified.len() == 0 {
        (resolve(s, sc.ty), s)
    } else {
        (inst_vars(sc.ty, sc.quantified, s.len()), fresh_n(s, sc.quantified.len()))
    }
}

pub proof fn lemma_last_index(qs: Seq<u32>, v: u32)
    ensures
        match last_index(qs, v) {
            Some(k) => 0 <= k < qs.len() && qs[k] == v && forall|j: int| k < j < qs.len() ==> #[trigger] qs[j] != v,
            None => forall|j: int| 0 <= j < qs.len() ==> #[trigger] qs[j] != v,
        },
    decreases qs.len(),
{
    if qs.len() > 0 && qs.last() != v {
        lemma_last_index(qs.drop_last(), v);
        match last_index(qs.drop_last(), v) {
            Some(k) => {
                assert(qs.drop_last()[k] == qs[k]);
                assert forall|j: int| k < j < qs.len() implies #[trigger] qs[j] != v by {
                    if j < qs.len() - 1 {
                        assert(qs.drop_last()[j] == qs[j]);
                    }
                }
            },
            None => {
                assert forall|j: int| 0 <= j < qs.len() implies #[trigger] qs[j] != v by {
                    if j < qs.len() - 1 {
                        assert(qs.drop_last()[j] == qs[j]);
                    }
                }
            },
        }
    }
}

pub proof fn lemma_inst_vars_all(ps: Seq<SpecHm>, qs: Seq<u32>, base: nat)
    ensures
        inst_vars_all(ps, qs, base).len() == ps.len(),
        forall|i: int| 0 <= i < ps.len() ==> #[trigger] inst_vars_all(ps, qs, base)[i] == inst_vars(ps[i], qs, base),
    decreases ps.len(),
{
    if ps.len() > 0 {
        lemma_inst_vars_all(ps.drop_last(), qs, base);
        assert forall|i: int| 0 <= i < ps.len() implies #[trigger] inst_vars_all(ps, qs, base)[i] == inst_vars(ps[i], qs, base) by {
            if i < ps.len() - 1 {
                assert(ps.drop_last()[i] == ps[i]);
            }
        }
    }
}

/// Instantiating a type below `base` stays below `base` plus the number of
/// quantified variables.
pub proof fn lemma_inst_vars_below(t: SpecHm, qs: Seq<u32>, base: nat)
    requires
        below(t, base),
        base + qs.len() <= u32::MAX + 1,
    ensures
        below(inst_vars(t, qs, base), base + qs.len()),
    decreases t,
{
    match t {
        SpecHm::Var(v) => {
            assert(has_var(t, v));
            lemma_last_index(qs, v);
        },
        SpecHm::List(inner) => {
            assert forall|w: u32| #[trigger] has_var(*inner, w) implies (w as nat) < base by {
                assert(has_var(t, w));
            }
            lemma_inst_vars_below(*inner, qs, base);
            assert forall|w: u32| #[trigger] has_var(inst_vars(t, qs, base), w) implies (w as nat) < base + qs.len() by {
                assert(has_var(inst_vars(*inner, qs, base), w));
            }
        },
        SpecHm::Function(ps, r) => {
            assert forall|w: u32| #[trigger] has_var(*r, w) implies (w as nat) < base by {
                assert(has_var(t, w));
            }
            lemma_inst_vars_below(*r, qs, base);
            lemma_inst_vars_all(ps, qs, base);
            assert forall|w: u32| #[trigger] has_var(inst_vars(t, qs, base), w) implies (w as nat) < base + qs.len() by {
                let ips = inst_vars_all(ps, qs, base);
                if any_has_var(ips, w) {
                    lemma_any_has_var(ips, w);
                    let i = choose|i: int| 0 <= i < ips.len() && #[trigger] has_var(ips[i], w);
                    assert(decreases_to!(t => ps));
                    assert forall|u: u32| #[trigger] has_var(ps[i], u) implies (u as nat) < base by {
                        lemma_any_has_var(ps, u);
                        assert(has_var(t, u));
                    }
                    lemma_inst_vars_below(ps[i], qs, base);
                    assert(has_var(inst_vars(ps[i], qs, base), w));
                } else {
                    assert(has_var(inst_vars(*r, qs, base), w));
                }
            }
        },
        _ => {
            assert(inst_vars(t, qs, base) == t);
        },
    }
}

/// A resolved type under a well-formed substitution stays below its length.
pub proof fn lemma_resolve_below(s: Subst, t: SpecHm)
    requires
        wf_subst(s),
        below(t, s.len()),
    ensures
        below(resolve(s, t), s.len()),
        free_in(s, resolve(s, t)),
{
    lemma_resolve_free(s, t);
}

fn contains_u32(v: &Vec<u32>, x: u32) -> (r: bool)
    ensures
        r == v@.contains(x),
{
    let mut i: usize = 0;
    while i < v.len()
        invariant
            i <= v@.len(),
            forall|j: int| 0 <= j < i ==> v@[j] != x,
        decreases v.len() - i,
    {
        if v[i] == x {
            return true;
        }
        i = i + 1;
    }
    false
}

fn last_pos(qs: &Vec<u32>, v: u32) -> (r: Option<usize>)
    ensures
        match r {
            Some(k) => last_index(qs@, v) == Some(k as int),
            None => last_index(qs@, v) is None,
        },
{
    proof {
        lemma_last_index(qs@, v);
    }
    let mut i: usize = qs.len();
    while i > 0
        invariant
            i <= qs@.len(),
            forall|j: int| i <= j < qs@.len() ==> #[trigger] qs@[j] != v,
        decreases i,
    {
        if qs[i - 1] == v {
            proof {
                lemma_last_index(qs@, v);
                match last_index(qs@, v) {
                    Some(k) => {
                        if k < i - 1 {
                            assert(qs@[i - 1] != v);
                        }
                        if k > i - 1 {
                            assert(qs@[k] != v);
                        }
                    },
                    None => {
                        assert(qs@[i - 1] != v);
                    },
                }
            }
            return Some(i - 1);
        }
        i = i - 1;
    }
    proof {
        lemma_last_index(qs@, v);
        if last_index(qs@, v) is Some {
            let k = last_index(qs@, v)->0;
            assert(qs@[k] != v);
        }
    }
    None
}

/// `t` with the `k`-th quantified variable replaced by variable `base + k`.
#[verifier::loop_isolation(false)]
fn subst_vars(t: &HmType, qs: &Vec<u32>, base: u32) -> (r: HmType)
    requires
        base + qs@.len() <= u32::MAX + 1,
    ensures
        r@ == inst_vars(t@, qs@, base as nat),
    decreases t,
{
    match t {
        HmType::Var(v) => {
            proof {
                lemma_last_index(qs@, *v);
            }
            match last_pos(qs, *v) {
                Some(k) => HmType::Var(base + k as u32),
                None => HmType::Var(*v),
            }
        },
        HmType::List(inner) => HmType::List(Box::new(subst_vars(inner, qs, base))),
        HmType::Function(ps, r) => {
            let mut out: Vec<HmType> = Vec::new();
            let mut i: usize = 0;
            while i < ps.len()
                invariant
                    i <= ps.len(),
                    out@.len() == i,
                    forall|j: int| 0 <= j < i ==> (#[trigger] out@[j])@ == inst_vars(ps@[j]@, qs@, base as nat),
                decreases ps.len() - i,
            {
                proof {
                    assert(decreases_to!(ps => ps@));
                    assert(decreases_to!(ps@ => ps@[i as int]));
                }
                let x = subst_vars(&ps[i], qs, base);
                out.push(x);
                i = i + 1;
            }
            proof {
                lemma_hms_view(out@);
                lemma_hms_view(ps@);
                lemma_inst_vars_all(hms_view(ps@), qs@, base as nat);
                assert(hms_view(out@) =~= inst_vars_all(hms_view(ps@), qs@, base as nat));
            }
            HmType::Function(out, Box::new(subst_vars(r, qs, base)))
        },
        HmType::Int => HmType::Int,
        HmType::String => HmType::String,
        HmType::Bool => HmType::Bool,
        HmType::Void => HmType::Void,
        HmType::Custom(n) => HmType::Custom(n.clone()),
    }
}

/// Whether `w` is free in the environment.
fn env_has_free(env: &HmEnv, u: &Unifier, w: u32) -> (r: bool)
    ensures
        r == env_free(u.sv(), env.ev(), w),
{
    let ghost e = env.ev();
    let ghost s = u.sv();
    let mut i: usize = 0;
    while i < env.entries.len()
        invariant
            i <= env.entries@.len(),
            e == env.ev(),
            s == u.sv(),
            forall|j: int| 0 <= j < i ==> !(#[trigger] has_var(resolve(s, e[j].1.ty), w) && !e[j].1.quantified.contains(w)),
        decreases env.entries.len() - i,
    {
        let t = u.apply(&env.entries[i].1.ty);
        if mentions(&t, w) && !contains_u32(&env.entries[i].1.quantified, w) {
            assert(has_var(resolve(s, e[i as int].1.ty), w) && !e[i as int].1.quantified.contains(w));
            return true;
        }
        i = i + 1;
    }
    false
}

/// Generalizes `ty` with respect to `env`: every variable of the resolved
/// type that the environment leaves free is quantified, in increasing order.
pub fn generalize(env: &HmEnv, ty: &HmType, u: &Unifier) -> (sc: TypeScheme)
    requires
        u.wf(),
    ensures
        sc@ == gen_spec(u.sv(), env.ev(), ty@),
{
    let r = u.apply(ty);
    let n = u.subst.len();
    let mut q: Vec<u32> = Vec::new();
    let mut w: usize = 0;
    while w < n
        invariant
            u.wf(),
            n == u.subst@.len(),
            w <= n,
            q@ == gen_vars(u.sv(), env.ev(), r@, w as nat),
        decreases n - w,
    {
        let wv = w as u32;
        if mentions(&r, wv) && !env_has_free(env, u, wv) {
            q.push(wv);
        }
        assert(q@ =~= gen_vars(u.sv(), env.ev(), r@, (w + 1) as nat));
        w = w + 1;
    }
    TypeScheme { quantified: q, ty: r }
}

/// Instantiates a scheme: a fresh variable for each quantified one.
pub fn instantiate(scheme: &TypeScheme, u: &mut Unifier) -> (t: HmType)
    requires
        old(u).wf(),
        old(u).next_id + scheme.quantified@.len() <= u32::MAX,
    ensures
        final(u).wf(),
        (t@, final(u).sv()) == instantiate_spec(scheme@, old(u).sv()),
{
    if scheme.quantified.len() == 0 {
        return u.apply(&scheme.ty);
    }
    let ghost s0 = u.sv();
    let base = u.next_id;
    let mut k: usize = 0;
    assert(fresh_n(s0, 0) =~= s0);
    while k < scheme.quantified.len()
        invariant
            u.wf(),
            k <= scheme.quantified@.len(),
            u.next_id == base + k,
            base + scheme.quantified@.len() <= u32::MAX,
            u.sv() == fresh_n(s0, k as nat),
            s0.len() == base,
        decreases scheme.quantified.len() - k,
    {
        u.fresh();
        assert(fresh_n(s0, k as nat).push(None) =~= fresh_n(s0, (k + 1) as nat));
        k = k + 1;
    }
    subst_vars(&scheme.ty, &scheme.quantified, base)
}

// ── Soundness of unification ────────────────────────────────────────────────

pub proof fn lemma_subst_one_noop(t: SpecHm, id: u32, r: SpecHm)
    requires
        !has_var(t, id),
    ensures
        subst_one(t, id, r) == t,
    decreases t,
{
    match t {
        SpecHm::List(inner) => {
            lemma_subst_one_noop(*inner, id, r);
        },
        SpecHm::Function(ps, ret) => {
            lemma_subst_one_noop(*ret, id, r);
            lemma_subst_one_all(ps, id, r);
            lemma_any_has_var(ps, id);
            assert forall|i: int| 0 <= i < ps.len() implies subst_one(ps[i], id, r) == ps[i] by {
                assert(decreases_to!(t => ps));
                lemma_subst_one_noop(ps[i], id, r);
            }
            assert(subst_one_all(ps, id, r) =~= ps);
        },
        _ => {},
    }
}

/// Resolving under a substitution with `id` just bound to `r` is resolving
/// under the old one and then replacing `id` by `r`.
pub proof fn lemma_resolve_bind(s: Subst, id: u32, r: SpecHm, t: SpecHm)
    requires
        wf_subst(s),
        (id as int) < s.len(),
        s[id as int] is None,
    ensures
        resolve(bind(s, id, r), t) == subst_one(resolve(s, t), id, r),
    decreases t,
{
    let b = bind(s, id, r);
    match t {
        SpecHm::Var(v) => {
            if v == id {
                assert(b[id as int] == Some(r));
            } else if is_bound(s, v) {
                assert(b[v as int] == Some(subst_one(s[v as int]->0, id, r)));
            } else {
                if (v as int) < s.len() {
                    assert(b[v as int] is None);
                }
            }
        },
        SpecHm::List(inner) => {
            lemma_resolve_bind(s, id, r, *inner);
        },
        SpecHm::Function(ps, ret) => {
            lemma_resolve_bind(s, id, r, *ret);
            lemma_resolve_all(b, ps);
            lemma_resolve_all(s, ps);
            lemma_subst_one_all(resolve_all(s, ps), id, r);
            assert forall|i: int| 0 <= i < ps.len() implies resolve(b, ps[i]) == subst_one(resolve(s, ps[i]), id, r) by {
                assert(decreases_to!(t => ps));
                lemma_resolve_bind(s, id, r, ps[i]);
            }
            assert(resolve_all(b, ps) =~= subst_one_all(resolve_all(s, ps), id, r));
        },
        _ => {},
    }
}

/// `s2` extends `s`: resolving under `s` first changes nothing under `s2`.
pub open spec fn extends(s: Subst, s2: Subst) -> bool {
    forall|v: u32| #[trigger] resolve(s2, resolve(s, SpecHm::Var(v))) == resolve(s2, SpecHm::Var(v))
}

pub proof fn lemma_extends_all(s: Subst, s2: Subst, t: SpecHm)
    requires
        extends(s, s2),
    ensures
        resolve(s2, resolve(s, t)) == resolve(s2, t),
    decreases t,
{
    match t {
        SpecHm::Var(v) => {
            assert(resolve(s2, resolve(s, SpecHm::Var(v))) == resolve(s2, SpecHm::Var(v)));
        },
        SpecHm::List(inner) => {
            lemma_extends_all(s, s2, *inner);
        },
        SpecHm::Function(ps, r) => {
            lemma_extends_all(s, s2, *r);
            lemma_resolve_all(s, ps);
            lemma_resolve_all(s2, ps);
            lemma_resolve_all(s2, resolve_all(s, ps));
            assert forall|i: int| 0 <= i < ps.len() implies resolve(s2, resolve(s, ps[i])) == resolve(s2, ps[i]) by {
                assert(decreases_to!(t => ps));
                lemma_extends_all(s, s2, ps[i]);
            }
            assert(resolve_all(s2, resolve_all(s, ps)) =~= resolve_all(s2, ps));
        },
        _ => {},
    }
}

proof fn lemma_extends_refl(s: Subst)
    requires
        wf_subst(s),
    ensures
        extends(s, s),
{
    assert forall|v: u32| #[trigger] resolve(s, resolve(s, SpecHm::Var(v))) == resolve(s, SpecHm::Var(v)) by {
        let t = resolve(s, SpecHm::Var(v));
        if is_bound(s, v) {
            assert(free_in(s, s[v as int]->0));
            lemma_resolve_idem(s, t);
        } else {
            assert forall|w: u32| #[trigger] has_var(t, w) implies !is_bound(s, w) by {}
            lemma_resolve_idem(s, t);
        }
    }
}

proof fn lemma_extends_trans(s1: Subst, s2: Subst, s3: Subst)
    requires
        extends(s1, s2),
        extends(s2, s3),
    ensures
        extends(s1, s3),
{
    assert forall|v: u32| #[trigger] resolve(s3, resolve(s1, SpecHm::Var(v))) == resolve(s3, SpecHm::Var(v)) by {
        let t = resolve(s1, SpecHm::Var(v));
        lemma_extends_all(s2, s3, t);
        lemma_extends_all(s2, s3, SpecHm::Var(v));
        assert(resolve(s2, t) == resolve(s2, SpecHm::Var(v)));
    }
}

proof fn lemma_extends_bind(s: Subst, id: u32, r: SpecHm)
    requires
        wf_subst(s),
        (id as int) < s.len(),
        s[id as int] is None,
        free_in(s, r),
        !has_var(r, id),
    ensures
        extends(s, bind(s, id, r)),
{
    let b = bind(s, id, r);
    assert forall|v: u32| #[trigger] resolve(b, resolve(s, SpecHm::Var(v))) == resolve(b, SpecHm::Var(v)) by {
        if is_bound(s, v) {
            let sv = s[v as int]->0;
            assert(free_in(s, sv));
            lemma_resolve_bind(s, id, r, sv);
            lemma_resolve_idem(s, sv);
            assert(v != id);
            assert(b[v as int] == Some(subst_one(sv, id, r)));
        }
    }
}

/// Unification, on types whose variables are allocated, keeps the
/// substitution well formed, only extends it, binds one variable or none at
/// each step, and on success makes the two types equal.
pub proof fn lemma_unify_sound(s: Subst, t1: SpecHm, t2: SpecHm)
    requires
        wf_subst(s),
        below(t1, s.len()),
        below(t2, s.len()),
    ensures
        wf_subst(unify_spec(s, t1, t2).1),
        extends(s, unify_spec(s, t1, t2).1),
        unify_spec(s, t1, t2).1.len() == s.len(),
        unbound(unify_spec(s, t1, t2).1) <= unbound(s),
        unbound(unify_spec(s, t1, t2).1) == unbound(s) ==> unify_spec(s, t1, t2).1 == s,
        unify_spec(s, t1, t2).0 is Ok ==> resolve(unify_spec(s, t1, t2).1, t1) == resolve(unify_spec(s, t1, t2).1, t2),
    decreases unbound(s), msize(s, t1, t2), 1nat,
{
    let a = resolve(s, t1);
    let b = resolve(s, t2);
    lemma_resolve_free(s, t1);
    lemma_resolve_free(s, t2);
    lemma_resolve_idem(s, a);
    lemma_resolve_idem(s, b);
    lemma_extends_refl(s);
    lemma_unify_keeps_len(s, t1, t2);
    if a == b {
    } else if let SpecHm::Var(id) = a {
        if !has_var(b, id) {
            assert(has_var(a, id));
            lemma_bind_wf(s, id, b);
            lemma_extends_bind(s, id, b);
            let s2 = bind(s, id, b);
            lemma_extends_all(s, s2, t1);
            lemma_extends_all(s, s2, t2);
            lemma_resolve_bind(s, id, b, b);
            lemma_subst_one_noop(b, id, b);
            lemma_resolve_bind(s, id, b, a);
        }
    } else if let SpecHm::Var(id) = b {
        if !has_var(a, id) {
            assert(has_var(b, id));
            lemma_bind_wf(s, id, a);
            lemma_extends_bind(s, id, a);
            let s2 = bind(s, id, a);
            lemma_extends_all(s, s2, t1);
            lemma_extends_all(s, s2, t2);
            lemma_resolve_bind(s, id, a, a);
            lemma_subst_one_noop(a, id, a);
            lemma_resolve_bind(s, id, a, b);
        }
    } else if let (SpecHm::List(x), SpecHm::List(y)) = (a, b) {
        assert forall|w: u32| #[trigger] has_var(*x, w) implies !is_bound(s, w) && (w as nat) < s.len() by {
            assert(has_var(a, w));
        }
        assert forall|w: u32| #[trigger] has_var(*y, w) implies !is_bound(s, w) && (w as nat) < s.len() by {
            assert(has_var(b, w));
        }
        lemma_resolve_idem(s, *x);
        lemma_resolve_idem(s, *y);
        assert(msize(s, *x, *y) < msize(s, t1, t2));
        lemma_unify_sound(s, *x, *y);
        let s2 = unify_spec(s, *x, *y).1;
        lemma_extends_all(s, s2, t1);
        lemma_extends_all(s, s2, t2);
    } else if let (SpecHm::Function(ps1, r1), SpecHm::Function(ps2, r2)) = (a, b) {
        if ps1.len() == ps2.len() {
            let xs = ps1.push(*r1);
            let ys = ps2.push(*r2);
            assert forall|j: int| 0 <= j < xs.len() implies free_in(s, #[trigger] xs[j]) by {
                assert forall|w: u32| #[trigger] has_var(xs[j], w) implies (w as int) < s.len() && s[w as int] is None by {
                    if j < ps1.len() {
                        lemma_any_has_var(ps1, w);
                        assert(ps1[j] == xs[j]);
                    }
                    assert(has_var(a, w));
                }
            }
            assert forall|j: int| 0 <= j < ys.len() implies free_in(s, #[trigger] ys[j]) by {
                assert forall|w: u32| #[trigger] has_var(ys[j], w) implies (w as int) < s.len() && s[w as int] is None by {
                    if j < ps2.len() {
                        lemma_any_has_var(ps2, w);
                        assert(ps2[j] == ys[j]);
                    }
                    assert(has_var(b, w));
                }
            }
            assert forall|j: int| 0 <= j < xs.len() implies resolve(s, #[trigger] xs[j]) == xs[j] by {
                assert(free_in(s, xs[j]));
                lemma_resolve_idem(s, xs[j]);
            }
            assert forall|j: int| 0 <= j < ys.len() implies resolve(s, #[trigger] ys[j]) == ys[j] by {
                assert(free_in(s, ys[j]));
                lemma_resolve_idem(s, ys[j]);
            }
            lemma_msizes_free(s, xs, ys);
            lemma_sizes_push(ps1, *r1);
            lemma_sizes_push(ps2, *r2);
            assert(msizes(s, xs, ys) < msize(s, t1, t2));
            lemma_unify_all_sound(s, xs, ys);
            let s2 = unify_all(s, xs, ys).1;
            lemma_extends_all(s, s2, t1);
            lemma_extends_all(s, s2, t2);
            if unify_all(s, xs, ys).0 is Ok {
                lemma_resolve_all(s2, ps1);
                lemma_resolve_all(s2, ps2);
                assert forall|j: int| 0 <= j < ps1.len() implies resolve(s2, ps1[j]) == resolve(s2, ps2[j]) by {
                    assert(xs[j] == ps1[j]);
                    assert(ys[j] == ps2[j]);
                }
                assert(resolve_all(s2, ps1) =~= resolve_all(s2, ps2));
                assert(xs[ps1.len() as int] == *r1);
                assert(ys[ps2.len() as int] == *r2);
            }
        }
    }
}

proof fn lemma_unify_all_sound(s: Subst, xs: Seq<SpecHm>, ys: Seq<SpecHm>)
    requires
        wf_subst(s),
        xs.len() == ys.len(),
        forall|j: int| 0 <= j < xs.len() ==> below(#[trigger] xs[j], s.len()),
        forall|j: int| 0 <= j < ys.len() ==> below(#[trigger] ys[j], s.len()),
    ensures
        wf_subst(unify_all(s, xs, ys).1),
        extends(s, unify_all(s, xs, ys).1),
        unify_all(s, xs, ys).1.len() == s.len(),
        unbound(unify_all(s, xs, ys).1) <= unbound(s),
        unbound(unify_all(s, xs, ys).1) == unbound(s) ==> unify_all(s, xs, ys).1 == s,
        unify_all(s, xs, ys).0 is Ok ==> forall|j: int|
            0 <= j < xs.len() ==> resolve(unify_all(s, xs, ys).1, #[trigger] xs[j]) == resolve(unify_all(s, xs, ys).1, ys[j]),
    decreases unbound(s), msizes(s, xs, ys), 2nat,
{
    lemma_extends_refl(s);
    if xs.len() > 0 {
        assert(below(xs[0], s.len()));
        assert(below(ys[0], s.len()));
        lemma_unify_sound(s, xs[0], ys[0]);
        let (r, s1) = unify_spec(s, xs[0], ys[0]);
        if r is Ok {
            let xt = xs.drop_first();
            let yt = ys.drop_first();
            assert forall|j: int| 0 <= j < xt.len() implies below(#[trigger] xt[j], s1.len()) by {
                assert(xt[j] == xs[j + 1]);
                assert(below(xs[j + 1], s.len()));
            }
            assert forall|j: int| 0 <= j < yt.len() implies below(#[trigger] yt[j], s1.len()) by {
                assert(yt[j] == ys[j + 1]);
                assert(below(ys[j + 1], s.len()));
            }
            lemma_unify_all_sound(s1, xt, yt);
            let s3 = unify_all(s1, xt, yt).1;
            lemma_extends_trans(s, s1, s3);
            if unify_all(s1, xt, yt).0 is Ok {
                assert forall|j: int| 0 <= j < xs.len() implies resolve(s3, #[trigger] xs[j]) == resolve(s3, ys[j]) by {
                    if j == 0 {
                        lemma_extends_all(s1, s3, xs[0]);
                        lemma_extends_all(s1, s3, ys[0]);
                    } else {
                        assert(xt[j - 1] == xs[j]);
                        assert(yt[j - 1] == ys[j]);
                    }
                }
            }
        }
    }
}

/// Robinson unification is sound: when it succeeds, the two types are equal
/// under the substitution after it, which extends the one before.
pub proof fn lemma_unify_unifies(s: Subst, t1: SpecHm, t2: SpecHm)
    requires
        wf_subst(s),
        below(t1, s.len()),
        below(t2, s.len()),
        unify_spec(s, t1, t2).0 is Ok,
    ensures
        resolve(unify_spec(s, t1, t2).1, t1) == resolve(unify_spec(s, t1, t2).1, t2),
        extends(s, unify_spec(s, t1, t2).1),
{
    lemma_unify_sound(s, t1, t2);
}

/// Generalization quantifies exactly the variables of the resolved type
/// that the environment leaves free, each once and in increasing order.
pub proof fn lemma_gen_vars(s: Subst, e: SEnv, r: SpecHm, n: nat)
    requires
        n <= u32::MAX + 1,
    ensures
        forall|w: u32| gen_vars(s, e, r, n).contains(w) <==> ((w as nat) < n && has_var(r, w) && !env_free(s, e, w)),
        forall|i: int, j: int| 0 <= i < j < gen_vars(s, e, r, n).len() ==> gen_vars(s, e, r, n)[i] < gen_vars(s, e, r, n)[j],
        forall|i: int| 0 <= i < gen_vars(s, e, r, n).len() ==> (gen_vars(s, e, r, n)[i] as nat) < n,
    decreases n,
{
    if n > 0 {
        let m = (n - 1) as nat;
        lemma_gen_vars(s, e, r, m);
        let w0 = m as u32;
        let g = gen_vars(s, e, r, m);
        let extra = if has_var(r, w0) && !env_free(s, e, w0) {
            seq![w0]
        } else {
            Seq::<u32>::empty()
        };
        assert(gen_vars(s, e, r, n) == g + extra);
        assert forall|w: u32| (g + extra).contains(w) <==> ((w as nat) < n && has_var(r, w) && !env_free(s, e, w)) by {
            if (g + extra).contains(w) {
                let i = choose|i: int| 0 <= i < (g + extra).len() && (g + extra)[i] == w;
                if i < g.len() {
                    assert(g[i] == w);
                    assert(g.contains(w));
                } else {
                    assert(extra[i - g.len()] == w);
                }
            }
            if (w as nat) < n && has_var(r, w) && !env_free(s, e, w) {
                if (w as nat) < m {
                    assert(g.contains(w));
                    let i = choose|i: int| 0 <= i < g.len() && g[i] == w;
                    assert((g + extra)[i] == w);
                } else {
                    assert(w == w0);
                    assert((g + extra)[g.len() as int] == w);
                }
            }
        }
    }
}

} // verus!
