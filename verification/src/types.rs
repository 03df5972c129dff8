//! Type helpers: the TypeScript spelling of a type, and assignment compatibility.
use vstd::prelude::*;
use crate::ast::{SpecType, Type, types_view};

verus! {

/// The strings joined with `sep` between consecutive ones.
pub open spec fn join(parts: Seq<Seq<char>>, sep: Seq<char>) -> Seq<char>
    decreases parts.len(),
{
    if parts.len() == 0 {
        Seq::empty()
    } else if parts.len() == 1 {
        parts[0]
    } else {
        join(parts.drop_last(), sep) + sep + parts.last()
    }
}

/// The TypeScript spelling of a type.
pub open spec fn type_js(t: SpecType) -> Seq<char>
    decreases t,
{
    match t {
        SpecType::Int => "number"@,
        SpecType::String => "string"@,
        SpecType::Bool => "boolean"@,
        SpecType::Void => "void"@,
        SpecType::Custom(n) => n,
        SpecType::Generic(n) => n,
        SpecType::List(inner) => "Array<"@ + type_js(*inner) + ">"@,
        SpecType::Function(ps, r) => "("@ + join(types_js(ps), ", "@) + ") => "@ + type_js(*r),
    }
}

/// Each type spelled.
pub open spec fn types_js(s: Seq<SpecType>) -> Seq<Seq<char>>
    decreases s,
{
    if s.len() == 0 {
        Seq::empty()
    } else {
        types_js(s.drop_last()).push(type_js(s.last()))
    }
}

/// Two types are compatible when they are equal or either is a custom or
/// generic name.
pub open spec fn compatible(a: SpecType, b: SpecType) -> bool {
    a == b || a is Custom || b is Custom || a is Generic || b is Generic
}

/// The TypeScript spelling of `ty`.
#[verifier::loop_isolation(false)]
pub fn type_to_js(ty: &Type) -> (s: String)
    ensures
        s@ == type_js(ty@),
    decreases ty,
{
    match ty {
        Type::Int => "number".to_owned(),
        Type::String => "string".to_owned(),
        Type::Bool => "boolean".to_owned(),
        Type::Void => "void".to_owned(),
        Type::Custom(name) => name.clone(),
        Type::Generic(name) => name.clone(),
        Type::List(inner) => {
            let mut s = "Array<".to_owned();
            let inner_js = type_to_js(inner);
            s.append(inner_js.as_str());
            s.append(">");
            s
        },
        Type::Function(params, ret) => {
            let mut joined = String::new();
            let mut i: usize = 0;
            while i < params.len()
                invariant
                    i <= params.len(),
                    joined@ == join(types_js(types_view(params@.take(i as int))), ", "@),
                decreases params.len() - i,
            {
                proof {
                    assert(decreases_to!(params => params@));
                    assert(decreases_to!(params@ => params@[i as int]));
                }
                let p = type_to_js(&params[i]);
                let ghost tv = types_view(params@.take(i as int));
                assert(params@.take(i + 1).drop_last() =~= params@.take(i as int));
                assert(types_view(params@.take(i + 1)) == tv.push(params@[i as int]@));
                assert(tv.push(params@[i as int]@).drop_last() =~= tv);
                proof {
                    lemma_types_js_len(tv);
                    let pp = types_js(tv);
                    assert(types_js(tv.push(params@[i as int]@)) == pp.push(p@));
                    assert(pp.push(p@).drop_last() =~= pp);
                    if i == 0 {
                        assert(join(pp.push(p@), ", "@) == p@);
                    } else {
                        assert(join(pp.push(p@), ", "@) == join(pp, ", "@) + ", "@ + p@);
                    }
                }
                let ghost before = joined@;
                if i > 0 {
                    joined.append(", ");
                }
                joined.append(p.as_str());
                assert(i == 0 ==> before =~= Seq::<char>::empty());
                assert(i == 0 ==> joined@ =~= p@);
                i = i + 1;
            }
            assert(params@.take(params.len() as int) =~= params@);
            let mut s = "(".to_owned();
            s.append(joined.as_str());
            s.append(") => ");
            let r = type_to_js(ret);
            s.append(r.as_str());
            s
        },
    }
}

/// One spelling per type.
proof fn lemma_types_js_len(s: Seq<SpecType>)
    ensures
        types_js(s).len() == s.len(),
    decreases s.len(),
{
    if s.len() > 0 {
        lemma_types_js_len(s.drop_last());
    }
}

/// Whether two types are equal.
#[verifier::loop_isolation(false)]
pub(crate) fn type_eq(a: &Type, b: &Type) -> (r: bool)
    ensures
        r == (a@ == b@),
    decreases a,
{
    match (a, b) {
        (Type::Int, Type::Int) => true,
        (Type::String, Type::String) => true,
        (Type::Bool, Type::Bool) => true,
        (Type::Void, Type::Void) => true,
        (Type::Custom(x), Type::Custom(y)) => x.eq(y),
        (Type::Generic(x), Type::Generic(y)) => x.eq(y),
        (Type::List(x), Type::List(y)) => type_eq(x, y),
        (Type::Function(ps, r1), Type::Function(qs, r2)) => {
            if ps.len() != qs.len() {
                proof {
                    lemma_types_view_len(ps@);
                    lemma_types_view_len(qs@);
                }
                return false;
            }
            let mut i: usize = 0;
            while i < ps.len()
                invariant
                    i <= ps.len(),
                    ps.len() == qs.len(),
                    types_view(ps@.take(i as int)) == types_view(qs@.take(i as int)),
                decreases ps.len() - i,
            {
                proof {
                    assert(decreases_to!(ps => ps@));
                    assert(decreases_to!(ps@ => ps@[i as int]));
                    assert(ps@.take(i + 1).drop_last() =~= ps@.take(i as int));
                    assert(qs@.take(i + 1).drop_last() =~= qs@.take(i as int));
                }
                if !type_eq(&ps[i], &qs[i]) {
                    proof {
                        lemma_types_view_at(ps@, i as int);
                        lemma_types_view_at(qs@, i as int);
                    }
                    return false;
                }
                i = i + 1;
            }
            assert(ps@.take(ps.len() as int) =~= ps@);
            assert(qs@.take(qs.len() as int) =~= qs@);
            type_eq(r1, r2)
        },
        _ => false,
    }
}

/// One view per type.
proof fn lemma_types_view_len(s: Seq<Type>)
    ensures
        types_view(s).len() == s.len(),
    decreases s.len(),
{
    if s.len() > 0 {
        lemma_types_view_len(s.drop_last());
    }
}

/// The `i`-th view is the view of the `i`-th type.
proof fn lemma_types_view_at(s: Seq<Type>, i: int)
    requires
        0 <= i < s.len(),
    ensures
        types_view(s)[i] == s[i]@,
    decreases s.len(),
{
    lemma_types_view_len(s.drop_last());
    if i < s.len() - 1 {
        assert(s.drop_last()[i] == s[i]);
        lemma_types_view_at(s.drop_last(), i);
    }
}

/// Whether a value of type `b` may stand where `a` is expected: equal types,
/// or a custom or generic name on either side.
pub fn types_compatible(a: &Type, b: &Type) -> (r: bool)
    ensures
        r == compatible(a@, b@),
{
    type_eq(a, b) || matches!(a, Type::Custom(_)) || matches!(b, Type::Custom(_)) || matches!(a, Type::Generic(_))
        || matches!(b, Type::Generic(_))
}

} // verus!
