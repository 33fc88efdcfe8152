//! Resolving hupas out of a collection by name or by `category/name`.

use vstd::prelude::*;

use crate::hupa::{Hupa, HupaSpec};
use crate::strutil::str_eq;

verus! {

/// Whether `ident` names the hupa: its bare name, or its joined category,
/// a `/` and its name.
pub open spec fn matches_ident(h: HupaSpec, ident: Seq<char>) -> bool {
    h.name == ident || h.category_str() + seq!['/'] + h.name == ident
}

/// The first hupa that `ident` names, if any.
pub open spec fn first_match(hupas: Seq<HupaSpec>, ident: Seq<char>) -> Option<HupaSpec>
    decreases hupas.len(),
{
    if hupas.len() == 0 {
        None
    } else if matches_ident(hupas[0], ident) {
        Some(hupas[0])
    } else {
        first_match(hupas.drop_first(), ident)
    }
}

/// The hupas that the identifiers name, in order, beside the identifiers
/// that name none.
pub open spec fn resolve_spec(names: Seq<Seq<char>>, hupas: Seq<HupaSpec>) -> (
    Seq<HupaSpec>,
    Seq<Seq<char>>,
)
    decreases names.len(),
{
    if names.len() == 0 {
        (Seq::empty(), Seq::empty())
    } else {
        let rest = resolve_spec(names.drop_first(), hupas);
        match first_match(hupas, names[0]) {
            Some(h) => (seq![h] + rest.0, rest.1),
            None => (rest.0, seq![names[0]] + rest.1),
        }
    }
}

/// Return the list of hupas named by `hupas_names`, beside the names that
/// matched none of them.
pub fn resolve_names(hupas_names: &Vec<String>, hupas: &Vec<Hupa>) -> (r: (Vec<Hupa>, Vec<String>))
    ensures
        r.0.deep_view() == resolve_spec(hupas_names.deep_view(), hupas.deep_view()).0,
        r.1.deep_view() == resolve_spec(hupas_names.deep_view(), hupas.deep_view()).1,
{
    let ghost names = hupas_names.deep_view();
    let ghost pool = hupas.deep_view();
    let mut resolved: Vec<Hupa> = Vec::new();
    let mut unmatched: Vec<String> = Vec::new();
    let n = hupas_names.len();
    let mut i: usize = 0;
    proof {
        assert(names.skip(0) =~= names);
    }
    while i < n
        invariant
            i <= n,
            n == hupas_names@.len(),
            names == hupas_names.deep_view(),
            pool == hupas.deep_view(),
            resolved@.len() == resolved.deep_view().len(),
            unmatched@.len() == unmatched.deep_view().len(),
            resolve_spec(names, pool).0 == resolved.deep_view() + resolve_spec(
                names.skip(i as int),
                pool,
            ).0,
            resolve_spec(names, pool).1 == unmatched.deep_view() + resolve_spec(
                names.skip(i as int),
                pool,
            ).1,
        decreases n - i,
    {
        proof {
            assert(names.skip(i as int)[0] == names[i as int]);
            assert(names.skip(i as int).drop_first() =~= names.skip(i + 1));
            assert(names[i as int] == hupas_names@[i as int]@);
        }
        let found = find_hupa(hupas, hupas_names[i].as_str());
        match found {
            Some(j) => {
                let ghost r0 = resolved;
                resolved.push(hupas[j].clone());
                proof {
                    assert(resolved@.len() == r0@.len() + 1);
                    assert forall|k: int|
                        0 <= k < resolved@.len() implies resolved.deep_view()[k] == r0.deep_view()
                        .push(pool[j as int])[k] by {
                        assert(resolved.deep_view()[k] == resolved@[k]@);
                        if k < r0@.len() {
                            assert(resolved@[k] == r0@[k]);
                            assert(r0.deep_view()[k] == r0@[k]@);
                        }
                    }
                    assert(resolved.deep_view() =~= r0.deep_view().push(pool[j as int]));
                    let tail = resolve_spec(names.skip(i + 1), pool);
                    assert(first_match(pool, names[i as int]) == Some(pool[j as int]));
                    assert(r0.deep_view() + (seq![pool[j as int]] + tail.0)
                        =~= resolved.deep_view() + tail.0);
                }
            },
            None => {
                let ghost u0 = unmatched;
                unmatched.push(hupas_names[i].clone());
                proof {
                    assert(unmatched@.len() == u0@.len() + 1);
                    assert forall|k: int|
                        0 <= k < unmatched@.len() implies unmatched.deep_view()[k] == u0.deep_view()
                        .push(names[i as int])[k] by {
                        assert(unmatched.deep_view()[k] == unmatched@[k]@);
                        if k < u0@.len() {
                            assert(unmatched@[k] == u0@[k]);
                            assert(u0.deep_view()[k] == u0@[k]@);
                        }
                    }
                    assert(unmatched.deep_view() =~= u0.deep_view().push(names[i as int]));
                    let tail = resolve_spec(names.skip(i + 1), pool);
                    assert(u0.deep_view() + (seq![names[i as int]] + tail.1)
                        =~= unmatched.deep_view() + tail.1);
                }
            },
        }
        i = i + 1;
    }
    proof {
        assert(names.skip(n as int) =~= Seq::<Seq<char>>::empty());
        assert(resolved.deep_view() + Seq::<HupaSpec>::empty() =~= resolved.deep_view());
        assert(unmatched.deep_view() + Seq::<Seq<char>>::empty() =~= unmatched.deep_view());
    }
    (resolved, unmatched)
}

/// The position of the first hupa that `ident` names, if any.
fn find_hupa(hupas: &Vec<Hupa>, ident: &str) -> (r: Option<usize>)
    ensures
        match r {
            Some(j) => j < hupas.deep_view().len() && first_match(hupas.deep_view(), ident@)
                == Some(hupas.deep_view()[j as int]),
            None => first_match(hupas.deep_view(), ident@) is None,
        },
{
    let ghost pool = hupas.deep_view();
    let n = hupas.len();
    let mut j: usize = 0;
    proof {
        assert(pool.skip(0) =~= pool);
    }
    while j < n
        invariant
            j <= n,
            n == hupas@.len(),
            pool == hupas.deep_view(),
            first_match(pool, ident@) == first_match(pool.skip(j as int), ident@),
        decreases n - j,
    {
        proof {
            assert(pool.skip(j as int)[0] == pool[j as int]);
            assert(pool.skip(j as int).drop_first() =~= pool.skip(j + 1));
            assert(pool[j as int] == hupas@[j as int]@);
        }
        if str_eq(hupas[j].get_name(), ident) {
            return Some(j);
        }
        let full = full_ident(&hupas[j]);
        if str_eq(full.as_str(), ident) {
            return Some(j);
        }
        j = j + 1;
    }
    proof {
        assert(pool.skip(n as int) =~= Seq::<HupaSpec>::empty());
    }
    None
}

/// The joined category, a `/` and the name of a hupa.
fn full_ident(h: &Hupa) -> (r: String)
    ensures
        r@ == h@.category_str() + seq!['/'] + h@.name,
{
    let mut s = h.get_category_str();
    s.append("/");
    s.append(h.get_name());
    proof {
        reveal_strlit("/");
        assert("/"@ =~= seq!['/']);
        assert(s@ =~= h@.category_str() + seq!['/'] + h@.name);
    }
    s
}

} // verus!
