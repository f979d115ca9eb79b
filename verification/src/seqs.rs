//! Sequence helpers: string views, concatenated maps, membership and joins.
use vstd::prelude::*;

use crate::sorting::Keyed;
use crate::text::{owned, push_str, str_eq};

verus! {

/// The character views of a sequence of string slices.
pub open spec fn strs(v: Seq<&str>) -> Seq<Seq<char>> {
    v.map_values(|s: &str| s@)
}

/// The concatenation of `f(x)` over the elements `x` of `s`, in order.
pub open spec fn flat_map<A, B>(s: Seq<A>, f: spec_fn(A) -> Seq<B>) -> Seq<B>
    decreases s.len(),
{
    if s.len() == 0 {
        Seq::empty()
    } else {
        flat_map(s.drop_last(), f) + f(s.last())
    }
}

/// Extending a prefix by one element appends that element's image.
pub proof fn lemma_flat_map_take<A, B>(s: Seq<A>, f: spec_fn(A) -> Seq<B>, i: int)
    requires
        0 <= i < s.len(),
    ensures
        flat_map(s.take(i + 1), f) == flat_map(s.take(i), f) + f(s[i]),
{
    assert(s.take(i + 1).drop_last() =~= s.take(i));
}

/// `flat_map` over the whole of `s` is `flat_map` over its full prefix.
pub proof fn lemma_flat_map_full<A, B>(s: Seq<A>, f: spec_fn(A) -> Seq<B>)
    ensures
        flat_map(s.take(s.len() as int), f) == flat_map(s, f),
{
    assert(s.take(s.len() as int) =~= s);
}

/// `flat_map` distributes over concatenation.
pub proof fn lemma_flat_map_concat<A, B>(a: Seq<A>, b: Seq<A>, f: spec_fn(A) -> Seq<B>)
    ensures
        flat_map(a + b, f) == flat_map(a, f) + flat_map(b, f),
    decreases b.len(),
{
    if b.len() == 0 {
        assert(a + b =~= a);
    } else {
        lemma_flat_map_concat(a, b.drop_last(), f);
        assert((a + b).drop_last() =~= a + b.drop_last());
        assert((a + b).last() == b.last());
    }
}

/// Whatever the image of one element holds, the concatenation holds.
pub proof fn lemma_flat_map_contains<A, B>(s: Seq<A>, f: spec_fn(A) -> Seq<B>, i: int, x: B)
    requires
        0 <= i < s.len(),
        f(s[i]).contains(x),
    ensures
        flat_map(s, f).contains(x),
    decreases s.len(),
{
    let img = f(s[i]);
    let k = choose|k: int| 0 <= k < img.len() && #[trigger] img[k] == x;
    if i == s.len() - 1 {
        let pre = flat_map(s.drop_last(), f);
        assert(flat_map(s, f)[pre.len() + k] == x);
    } else {
        lemma_flat_map_contains(s.drop_last(), f, i, x);
        let pre = flat_map(s.drop_last(), f);
        let k2 = choose|k2: int| 0 <= k2 < pre.len() && #[trigger] pre[k2] == x;
        assert(flat_map(s, f)[k2] == x);
    }
}

/// `parts` joined with `sep` between consecutive parts.
pub open spec fn join(parts: Seq<Seq<char>>, sep: Seq<char>) -> Seq<char>
    decreases parts.len(),
{
    if parts.len() == 0 {
        Seq::empty()
    } else if parts.len() == 1 {
        parts[0]
    } else {
        join(parts.drop_last(), sep) + sep + parts.last()
    }
}

/// Whether `x` is one of the strings of `v`.
pub fn contains_str(v: &Vec<&str>, x: &str) -> (r: bool)
    ensures
        r == strs(v@).contains(x@),
{
    let mut i: usize = 0;
    while i < v.len()
        invariant
            i <= v.len(),
            forall|k: int| 0 <= k < i ==> v@[k]@ != x@,
        decreases v.len() - i,
    {
        if str_eq(v[i], x) {
            assert(strs(v@)[i as int] == x@);
            return true;
        }
        i = i + 1;
    }
    assert(!strs(v@).contains(x@)) by {
        if strs(v@).contains(x@) {
            let sv = strs(v@);
            let k = choose|k: int| 0 <= k < sv.len() && #[trigger] sv[k] == x@;
            assert(v@[k]@ == x@);
        }
    }
    false
}

/// The strings of `parts` joined with `sep`.
pub fn join_strs(parts: &Vec<&str>, sep: &str) -> (r: String)
    ensures
        r@ == join(strs(parts@), sep@),
{
    let mut r = String::new();
    let mut i: usize = 0;
    while i < parts.len()
        invariant
            i <= parts.len(),
            r@ == join(strs(parts@).take(i as int), sep@),
        decreases parts.len() - i,
    {
        let ghost prev = strs(parts@).take(i as int);
        if i > 0 {
            push_str(&mut r, sep);
        }
        push_str(&mut r, parts[i]);
        assert(strs(parts@).take(i + 1).drop_last() =~= prev);
        if i == 0 {
            assert(r@ =~= join(strs(parts@).take(1), sep@));
        }
        i = i + 1;
    }
    assert(strs(parts@).take(i as int) =~= strs(parts@));
    r
}

/// An owned copy of each string slice.
pub fn to_owned_all(v: &Vec<&str>) -> (r: Vec<String>)
    ensures
        r@.map_values(|s: String| s@) == strs(v@),
{
    let mut r: Vec<String> = Vec::new();
    let mut i: usize = 0;
    while i < v.len()
        invariant
            i <= v.len(),
            r@.map_values(|s: String| s@) == strs(v@).take(i as int),
        decreases v.len() - i,
    {
        let ghost prev = r@;
        r.push(owned(v[i]));
        assert(r@.map_values(|s: String| s@) =~= prev.map_values(|s: String| s@).push(v@[i as int]@));
        assert(strs(v@).take(i + 1) =~= strs(v@).take(i as int).push(v@[i as int]@));
        i = i + 1;
    }
    assert(strs(v@).take(i as int) =~= strs(v@));
    r
}

/// The keys of a list of keyed values, in order.
pub fn key_list<T: Keyed>(v: &Vec<T>) -> (r: Vec<&str>)
    ensures
        strs(r@) == v@.map_values(|x: T| x.key_of()),
{
    let mut r: Vec<&str> = Vec::new();
    let mut i: usize = 0;
    while i < v.len()
        invariant
            i <= v.len(),
            strs(r@) == v@.map_values(|x: T| x.key_of()).take(i as int),
        decreases v.len() - i,
    {
        let ghost prev = r@;
        r.push(v[i].key_str());
        assert(strs(r@) =~= strs(prev).push(v@[i as int].key_of()));
        assert(v@.map_values(|x: T| x.key_of()).take(i + 1) =~= v@.map_values(|x: T| x.key_of()).take(
            i as int,
        ).push(v@[i as int].key_of()));
        i = i + 1;
    }
    assert(v@.map_values(|x: T| x.key_of()).take(i as int) =~= v@.map_values(|x: T| x.key_of()));
    r
}

/// The strings of a list, as string slices.
pub fn as_strs(v: &Vec<String>) -> (r: Vec<&str>)
    ensures
        strs(r@) == v@.map_values(|d: String| d@),
{
    let mut r: Vec<&str> = Vec::new();
    let mut i: usize = 0;
    while i < v.len()
        invariant
            i <= v.len(),
            strs(r@) == v@.map_values(|d: String| d@).take(i as int),
        decreases v.len() - i,
    {
        let ghost prev = r@;
        r.push(v[i].as_str());
        assert(strs(r@) =~= strs(prev).push(v@[i as int]@));
        assert(v@.map_values(|d: String| d@).take(i + 1) =~= v@.map_values(|d: String| d@).take(
            i as int,
        ).push(v@[i as int]@));
        i = i + 1;
    }
    assert(v@.map_values(|d: String| d@).take(i as int) =~= v@.map_values(|d: String| d@));
    r
}

/// Whether `x` is one of the strings of `v`.
pub fn contains_string(v: &Vec<String>, x: &str) -> (r: bool)
    ensures
        r == v@.map_values(|d: String| d@).contains(x@),
{
    let refs = as_strs(v);
    contains_str(&refs, x)
}

} // verus!
