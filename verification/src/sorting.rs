//! Stable sorting by lexicographic keys, and lookup by key.
use vstd::prelude::*;

verus! {

/// Lexicographic "less than" on integer sequences.
pub open spec fn lex_lt(a: Seq<int>, b: Seq<int>) -> bool
    decreases a.len(),
{
    if a.len() == 0 {
        b.len() > 0
    } else if b.len() == 0 {
        false
    } else if a[0] < b[0] {
        true
    } else if a[0] > b[0] {
        false
    } else {
        lex_lt(a.drop_first(), b.drop_first())
    }
}

/// `a` sorts no later than `b`.
pub open spec fn lex_le(a: Seq<int>, b: Seq<int>) -> bool {
    !lex_lt(b, a)
}

/// `lex_lt` is irreflexive.
pub proof fn lemma_lex_irrefl(a: Seq<int>)
    ensures
        !lex_lt(a, a),
    decreases a.len(),
{
    if a.len() > 0 {
        lemma_lex_irrefl(a.drop_first());
    }
}

/// `lex_lt` is transitive.
pub proof fn lemma_lex_trans(a: Seq<int>, b: Seq<int>, c: Seq<int>)
    requires
        lex_lt(a, b),
        lex_lt(b, c),
    ensures
        lex_lt(a, c),
    decreases a.len(),
{
    if a.len() > 0 && b.len() > 0 && c.len() > 0 && a[0] == b[0] && b[0] == c[0] {
        lemma_lex_trans(a.drop_first(), b.drop_first(), c.drop_first());
    }
}

/// Two sequences are equal or one is less than the other.
#[verifier::spinoff_prover]
pub proof fn lemma_lex_total(a: Seq<int>, b: Seq<int>)
    ensures
        a == b || lex_lt(a, b) || lex_lt(b, a),
    decreases a.len(),
{
    if a.len() > 0 && b.len() > 0 && a[0] == b[0] {
        lemma_lex_total(a.drop_first(), b.drop_first());
        if a.drop_first() == b.drop_first() {
            assert(a =~= seq![a[0]] + a.drop_first());
            assert(b =~= seq![b[0]] + b.drop_first());
        }
    } else if a.len() == 0 && b.len() == 0 {
        assert(a =~= b);
    }
}

/// `lex_le` is transitive.
pub proof fn lemma_le_trans(a: Seq<int>, b: Seq<int>, c: Seq<int>)
    requires
        lex_le(a, b),
        lex_le(b, c),
    ensures
        lex_le(a, c),
{
    lemma_lex_total(a, b);
    lemma_lex_total(b, c);
    if lex_lt(c, a) {
        if a == b {
        } else {
            lemma_lex_trans(c, a, b);
        }
    }
}

/// Values with a lexicographic sort key.
pub trait SortKey {
    spec fn key(&self) -> Seq<int>;

    fn key_exec(&self) -> (k: Vec<u32>)
        ensures
            k@.map_values(|x: u32| x as int) == self.key(),
    ;
}

/// The integer view of a key vector.
pub open spec fn key_view(k: Seq<u32>) -> Seq<int> {
    k.map_values(|x: u32| x as int)
}

/// Exec comparison of two keys.
pub fn key_lt(a: &Vec<u32>, b: &Vec<u32>) -> (r: bool)
    ensures
        r == lex_lt(key_view(a@), key_view(b@)),
{
    let mut i: usize = 0;
    assert(key_view(a@).skip(0) =~= key_view(a@));
    assert(key_view(b@).skip(0) =~= key_view(b@));
    while i < a.len() && i < b.len() && a[i] == b[i]
        invariant
            i <= a.len(),
            i <= b.len(),
            lex_lt(key_view(a@), key_view(b@)) == lex_lt(
                key_view(a@).skip(i as int),
                key_view(b@).skip(i as int),
            ),
        decreases a.len() - i,
    {
        assert(key_view(a@).skip(i as int).drop_first() =~= key_view(a@).skip(i + 1));
        assert(key_view(b@).skip(i as int).drop_first() =~= key_view(b@).skip(i + 1));
        i = i + 1;
    }
    if i == a.len() {
        i < b.len()
    } else if i == b.len() {
        false
    } else {
        a[i] < b[i]
    }
}

/// `r` is sorted by key, non-decreasing.
pub open spec fn sorted_by_key<T: SortKey>(r: Seq<T>) -> bool {
    forall|i: int, j: int| 0 <= i < j < r.len() ==> lex_le(r[i].key(), r[j].key())
}

/// `perm` maps each position of `r` to a distinct position of `v` holding the same value.
pub open spec fn is_permutation_by<T>(v: Seq<T>, r: Seq<T>, perm: Seq<int>) -> bool {
    &&& r.len() == v.len()
    &&& perm.len() == r.len()
    &&& forall|k: int| 0 <= k < perm.len() ==> 0 <= #[trigger] perm[k] < v.len()
    &&& forall|k: int| 0 <= k < perm.len() ==> r[k] == v[#[trigger] perm[k]]
    &&& forall|k: int, l: int| 0 <= k < l < perm.len() ==> perm[k] != perm[l]
}

/// A one-to-one map of the positions of a sequence onto positions of a
/// sequence of the same length reaches every position.
pub proof fn lemma_permutation_onto<T>(v: Seq<T>, r: Seq<T>, perm: Seq<int>, j: int) -> (k: int)
    requires
        is_permutation_by(v, r, perm),
        0 <= j < v.len(),
    ensures
        0 <= k < perm.len(),
        perm[k] == j,
{
    let n = v.len() as int;
    assert(perm.no_duplicates()) by {
        assert forall|a: int, b: int| 0 <= a < perm.len() && 0 <= b < perm.len() && a != b implies perm[a]
            != perm[b] by {
            if a < b {
            } else {
            }
        }
    }
    perm.unique_seq_to_set();
    vstd::set_lib::lemma_int_range(0, n);
    let range = vstd::set_lib::set_int_range(0, n);
    assert(perm.to_set().subset_of(range)) by {
        assert forall|x: int| perm.to_set().contains(x) implies range.contains(x) by {
            assert(perm.contains(x));
            let k = choose|k: int| 0 <= k < perm.len() && perm[k] == x;
            assert(0 <= perm[k] < n);
        }
    }
    vstd::set_lib::lemma_len_subset(perm.to_set(), range);
    vstd::set_lib::lemma_subset_equality(perm.to_set(), range);
    assert(range.contains(j));
    assert(perm.to_set().contains(j));
    assert(perm.contains(j));
    choose|k: int| 0 <= k < perm.len() && perm[k] == j
}

/// `r` is the stable sort of `v` by key: a permutation of `v`, sorted by key,
/// in which values with equal keys keep their relative order.
pub open spec fn is_stable_sort<T: SortKey>(v: Seq<T>, r: Seq<T>) -> bool {
    exists|perm: Seq<int>|
        {
            &&& is_permutation_by(v, r, perm)
            &&& sorted_by_key(r)
            &&& forall|k: int, l: int|
                0 <= k < l < r.len() && r[k].key() == r[l].key() ==> perm[k] < perm[l]
        }
}

/// `perm` takes `v` to `r` as a stable sort by key does.
pub open spec fn stable_by<T: SortKey>(v: Seq<T>, r: Seq<T>, perm: Seq<int>) -> bool {
    &&& is_permutation_by(v, r, perm)
    &&& sorted_by_key(r)
    &&& forall|k: int, l: int|
        0 <= k < l < r.len() && r[k].key() == r[l].key() ==> perm[k] < perm[l]
}

proof fn lemma_stable_same_at<T: SortKey>(
    v: Seq<T>,
    a: Seq<T>,
    b: Seq<T>,
    pa: Seq<int>,
    pb: Seq<int>,
    k: int,
)
    requires
        stable_by(v, a, pa),
        stable_by(v, b, pb),
        0 <= k < v.len(),
        forall|i: int| 0 <= i < k ==> pa[i] == pb[i],
    ensures
        pa[k] == pb[k],
{
    let x = pa[k];
    let y = pb[k];
    if x != y {
        let l = lemma_permutation_onto(v, b, pb, x);
        let m = lemma_permutation_onto(v, a, pa, y);
        if l < k {
            assert(pa[l] == pb[l]);
        }
        if m < k {
            assert(pa[m] == pb[m]);
        }
        assert(k < l && k < m);
        // In `a`, `x` comes before `y`; in `b`, `y` comes before `x`.
        assert(a[k] == v[x] && a[m] == v[y]);
        assert(b[k] == v[y] && b[l] == v[x]);
        assert(lex_le(a[k].key(), a[m].key()));
        assert(lex_le(b[k].key(), b[l].key()));
        if v[x].key() == v[y].key() {
            assert(pa[k] < pa[m]);
            assert(pb[k] < pb[l]);
        } else {
            lemma_lex_total(v[x].key(), v[y].key());
        }
    }
}

proof fn lemma_stable_same_prefix<T: SortKey>(
    v: Seq<T>,
    a: Seq<T>,
    b: Seq<T>,
    pa: Seq<int>,
    pb: Seq<int>,
    k: int,
)
    requires
        stable_by(v, a, pa),
        stable_by(v, b, pb),
        0 <= k <= v.len(),
    ensures
        forall|i: int| 0 <= i < k ==> pa[i] == pb[i],
    decreases k,
{
    if k > 0 {
        lemma_stable_same_prefix(v, a, b, pa, pb, k - 1);
        lemma_stable_same_at(v, a, b, pa, pb, k - 1);
    }
}

/// The stable sort of a sequence is unique: any two stable sorts of the same
/// values are equal.
pub proof fn lemma_stable_sort_unique<T: SortKey>(v: Seq<T>, a: Seq<T>, b: Seq<T>)
    requires
        is_stable_sort(v, a),
        is_stable_sort(v, b),
    ensures
        a == b,
{
    let pa = choose|perm: Seq<int>|
        {
            &&& is_permutation_by(v, a, perm)
            &&& sorted_by_key(a)
            &&& forall|k: int, l: int|
                0 <= k < l < a.len() && a[k].key() == a[l].key() ==> perm[k] < perm[l]
        };
    let pb = choose|perm: Seq<int>|
        {
            &&& is_permutation_by(v, b, perm)
            &&& sorted_by_key(b)
            &&& forall|k: int, l: int|
                0 <= k < l < b.len() && b[k].key() == b[l].key() ==> perm[k] < perm[l]
        };
    assert(stable_by(v, a, pa));
    assert(stable_by(v, b, pb));
    lemma_stable_same_prefix(v, a, b, pa, pb, v.len() as int);
    assert forall|k: int| 0 <= k < a.len() implies a[k] == b[k] by {
        assert(pa[k] == pb[k]);
    }
    assert(a =~= b);
}

/// Sorts `v` stably by key (as `sort_by` does with a key comparison).
pub fn stable_sort_by_key<T: SortKey>(v: Vec<T>) -> (r: Vec<T>)
    ensures
        is_stable_sort(v@, r@),
{
    let ghost orig = v@;
    let n = v.len();
    let mut src = v;
    assert(src@ =~= orig.skip(0));
    let mut r: Vec<T> = Vec::new();
    let mut rkeys: Vec<Vec<u32>> = Vec::new();
    let ghost mut perm: Seq<int> = Seq::empty();
    let mut i: usize = 0;
    while i < n
        invariant
            i <= n,
            n == orig.len(),
            src@.len() == n - i,
            src@ == orig.skip(i as int),
            r@.len() == i,
            rkeys@.len() == i,
            forall|k: int| 0 <= k < i ==> key_view(#[trigger] rkeys@[k]@) == r@[k].key(),
            perm.len() == i,
            forall|k: int| 0 <= k < i ==> 0 <= #[trigger] perm[k] < i,
            forall|k: int| 0 <= k < i ==> r@[k] == orig[#[trigger] perm[k]],
            forall|k: int, l: int| 0 <= k < l < i ==> perm[k] != perm[l],
            sorted_by_key(r@),
            forall|k: int, l: int|
                0 <= k < l < i && r@[k].key() == r@[l].key() ==> perm[k] < perm[l],
        decreases n - i,
    {
        let x = src.remove(0);
        assert(x == orig[i as int]);
        let xk = x.key_exec();
        // first position holding a key strictly greater than x's
        let mut p: usize = 0;
        while p < r.len() && !key_lt(&xk, &rkeys[p])
            invariant
                p <= r@.len(),
                r@.len() == i,
                rkeys@.len() == i,
                forall|k: int| 0 <= k < i ==> key_view(#[trigger] rkeys@[k]@) == r@[k].key(),
                key_view(xk@) == x.key(),
                forall|k: int| 0 <= k < p ==> lex_le(#[trigger] r@[k].key(), x.key()),
            decreases r@.len() - p,
        {
            p = p + 1;
        }
        proof {
            // everything from p on is strictly greater than x
            assert forall|k: int| p <= k < i implies lex_lt(x.key(), #[trigger] r@[k].key()) by {
                if k > p {
                    assert(lex_le(r@[p as int].key(), r@[k].key()));
                    lemma_lex_total(r@[p as int].key(), r@[k].key());
                    if r@[p as int].key() != r@[k].key() {
                        lemma_lex_trans(x.key(), r@[p as int].key(), r@[k].key());
                    }
                }
            }
        }
        let ghost old_r = r@;
        let ghost old_keys = rkeys@;
        let ghost old_perm = perm;
        r.insert(p, x);
        rkeys.insert(p, xk);
        proof {
            perm = old_perm.insert(p as int, i as int);
            assert forall|a: int, b: int| 0 <= a < b < i + 1 implies lex_le(
                r@[a].key(),
                r@[b].key(),
            ) by {
                if b < p {
                } else if a < p && b == p {
                } else if a < p && b > p {
                    assert(lex_le(old_r[a].key(), x.key()));
                    assert(lex_lt(x.key(), old_r[b - 1].key()));
                    let ka = old_r[a].key();
                    let kb = old_r[b - 1].key();
                    if lex_lt(kb, ka) {
                        lemma_lex_total(ka, x.key());
                        if ka == x.key() {
                            lemma_lex_trans(kb, x.key(), kb);
                        } else {
                            lemma_lex_trans(kb, ka, x.key());
                            lemma_lex_trans(kb, x.key(), kb);
                        }
                        lemma_lex_irrefl(kb);
                    }
                } else if a == p {
                    let kb = old_r[b - 1].key();
                    assert(lex_lt(x.key(), kb));
                    if lex_lt(kb, x.key()) {
                        lemma_lex_trans(kb, x.key(), kb);
                        lemma_lex_irrefl(kb);
                    }
                } else {
                }
            }
            assert forall|a: int, b: int|
                0 <= a < b < i + 1 && r@[a].key() == r@[b].key() implies perm[a] < perm[b] by {
                if a == p {
                    assert(lex_lt(x.key(), old_r[b - 1].key()));
                    lemma_lex_irrefl(x.key());
                } else if b == p {
                } else if a > p {
                } else if b > p {
                } else {
                }
            }
            assert forall|k: int| 0 <= k < i + 1 implies key_view(#[trigger] rkeys@[k]@)
                == r@[k].key() by {
                if k < p {
                } else if k == p {
                } else {
                    assert(rkeys@[k] == old_keys[k - 1]);
                }
            }
        }
        i = i + 1;
        assert(src@ =~= orig.skip(i as int));
    }
    proof {
        assert(is_permutation_by(orig, r@, perm));
    }
    r
}

} // verus!

verus! {

/// The character codes of a string.
pub open spec fn char_codes(s: Seq<char>) -> Seq<int> {
    s.map_values(|c: char| (c as u32) as int)
}

/// A sort key ordering strings by their characters, as `str`'s `Ord` does.
pub fn str_sort_key(s: &str) -> (k: Vec<u32>)
    ensures
        key_view(k@) == char_codes(s@),
{
    let cs = crate::text::chars_of(s);
    let mut k: Vec<u32> = Vec::new();
    let mut i: usize = 0;
    while i < cs.len()
        invariant
            i <= cs.len(),
            cs@ == s@,
            key_view(k@) == char_codes(s@).take(i as int),
        decreases cs.len() - i,
    {
        let ghost prev = k@;
        let u = cs[i] as u32;
        k.push(u);
        assert(key_view(k@) =~= key_view(prev).push(u as int));
        assert(char_codes(s@).take(i + 1) =~= char_codes(s@).take(i as int).push(
            (s@[i as int] as u32) as int,
        ));
        i = i + 1;
    }
    assert(char_codes(s@).take(i as int) =~= char_codes(s@));
    k
}

/// A key that orders strings by their characters in reverse: every code
/// is mirrored below 0x110000, and a terminator above them all makes a
/// string sort before its proper prefixes.
pub open spec fn desc_codes(s: Seq<char>) -> Seq<int> {
    s.map_values(|c: char| 0x110000 - (c as u32) as int).push(0x110001)
}

/// Keys built by `desc_codes` order strings exactly opposite to `str`'s `Ord`.
pub proof fn lemma_desc_codes_reverse(a: Seq<char>, b: Seq<char>)
    ensures
        lex_lt(desc_codes(a), desc_codes(b)) == lex_lt(char_codes(b), char_codes(a)),
    decreases a.len(),
{
    let da = desc_codes(a);
    let db = desc_codes(b);
    if a.len() > 0 && b.len() > 0 {
        if a[0] == b[0] {
            assert(da.drop_first() =~= desc_codes(a.drop_first()));
            assert(db.drop_first() =~= desc_codes(b.drop_first()));
            assert(char_codes(a).drop_first() =~= char_codes(a.drop_first()));
            assert(char_codes(b).drop_first() =~= char_codes(b.drop_first()));
            lemma_desc_codes_reverse(a.drop_first(), b.drop_first());
        } else {
            vstd::utf8::char_u32_cast(a[0], a[0] as u32);
            vstd::utf8::char_u32_cast(b[0], b[0] as u32);
        }
    } else if a.len() > 0 {
        assert(db[0] == 0x110001);
    } else if b.len() > 0 {
        assert(da[0] == 0x110001);
    } else {
        assert(da =~= db);
        lemma_lex_irrefl(da);
    }
}

/// A sort key ordering strings by their characters in reverse.
pub fn str_desc_key(s: &str) -> (k: Vec<u32>)
    ensures
        key_view(k@) == desc_codes(s@),
{
    let cs = crate::text::chars_of(s);
    let mut k: Vec<u32> = Vec::new();
    let mut i: usize = 0;
    let ghost mirrored = s@.map_values(|c: char| 0x110000 - (c as u32) as int);
    while i < cs.len()
        invariant
            i <= cs.len(),
            cs@ == s@,
            mirrored == s@.map_values(|c: char| 0x110000 - (c as u32) as int),
            key_view(k@) == mirrored.take(i as int),
        decreases cs.len() - i,
    {
        let ghost prev = k@;
        proof {
            vstd::utf8::char_is_scalar(cs@[i as int]);
        }
        let u = 0x110000u32 - (cs[i] as u32);
        k.push(u);
        assert(key_view(k@) =~= key_view(prev).push(u as int));
        assert(mirrored.take(i + 1) =~= mirrored.take(i as int).push(mirrored[i as int]));
        i = i + 1;
    }
    let ghost prev = k@;
    k.push(0x110001u32);
    assert(mirrored.take(i as int) =~= mirrored);
    assert(key_view(k@) =~= key_view(prev).push(0x110001));
    k
}

/// Values identified by a string key.
pub trait Keyed {
    spec fn key_of(&self) -> Seq<char>;

    fn key_str(&self) -> (r: &str)
        ensures
            r@ == self.key_of(),
    ;
}

/// `r` is the position of the first value in `v` with key `id`, or `None`
/// when no value has it.
pub open spec fn first_index<T: Keyed>(v: Seq<T>, id: Seq<char>, r: Option<usize>) -> bool {
    match r {
        Some(i) => i < v.len() && v[i as int].key_of() == id && forall|j: int|
            0 <= j < i ==> v[j].key_of() != id,
        None => forall|j: int| 0 <= j < v.len() ==> v[j].key_of() != id,
    }
}

/// The position of the first value with key `id`.
pub fn position_of<T: Keyed>(v: &Vec<T>, id: &str) -> (r: Option<usize>)
    ensures
        first_index(v@, id@, r),
{
    let mut i: usize = 0;
    while i < v.len()
        invariant
            i <= v.len(),
            forall|j: int| 0 <= j < i ==> v@[j].key_of() != id@,
        decreases v.len() - i,
    {
        if crate::text::str_eq(v[i].key_str(), id) {
            return Some(i);
        }
        i = i + 1;
    }
    None
}

/// Removes and returns the first value with key `id`.
pub fn take_first<T: Keyed>(v: Vec<T>, id: &str) -> (r: Option<T>)
    ensures
        match r {
            Some(x) => exists|i: int|
                first_index(v@, id@, Some(i as usize)) && 0 <= i < v@.len() && v@[i] == x,
            None => first_index(v@, id@, None),
        },
{
    match position_of(&v, id) {
        None => None,
        Some(i) => {
            let ghost all = v@;
            let mut v = v;
            let x = v.remove(i);
            assert(first_index(all, id@, Some(i as usize)));
            Some(x)
        },
    }
}

} // verus!
