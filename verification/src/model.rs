//! Value-level copying with a proved result, and the view helpers the
//! ontology models share.

use vstd::prelude::*;

verus! {

broadcast use vstd::seq_lib::group_to_multiset_ensures;

/// A type whose values can be copied with a proof that the copy has the
/// same mathematical model as the original.
pub trait DeepCopy: View + Sized {
    fn deep_copy(&self) -> (r: Self)
        ensures
            r@ == self@,
    ;
}

impl DeepCopy for String {
    fn deep_copy(&self) -> (r: String) {
        self.clone()
    }
}

/// Model of an optional text: `None` or the characters of the text.
pub open spec fn opt_text(o: Option<String>) -> Option<Seq<char>> {
    match o {
        Some(s) => Some(s@),
        None => None,
    }
}

/// Copy an optional text.
pub fn copy_opt_text(o: &Option<String>) -> (r: Option<String>)
    ensures
        opt_text(r) == opt_text(*o),
{
    match o {
        Some(s) => Some(s.clone()),
        None => None,
    }
}

/// Element-wise models of a vector.
pub open spec fn models<T: View>(v: Seq<T>) -> Seq<T::V> {
    v.map_values(|x: T| x@)
}

/// Copy a vector element by element.
pub fn copy_vec<T: DeepCopy>(v: &Vec<T>) -> (r: Vec<T>)
    ensures
        models(r@) == models(v@),
{
    let mut r: Vec<T> = Vec::new();
    let n = v.len();
    let mut i: usize = 0;
    while i < n
        invariant
            n == v.len(),
            i <= n,
            r@.len() == i,
            forall|j: int| 0 <= j < i ==> r@[j]@ == v@[j]@,
        decreases n - i,
    {
        let x = v[i].deep_copy();
        r.push(x);
        i = i + 1;
    }
    assert(models(r@) =~= models(v@));
    r
}

/// Models of a vector of texts.
pub open spec fn texts(v: Seq<String>) -> Seq<Seq<char>> {
    v.map_values(|s: String| s@)
}

/// Copy a vector of texts.
pub fn copy_texts(v: &Vec<String>) -> (r: Vec<String>)
    ensures
        texts(r@) == texts(v@),
{
    let r = copy_vec(v);
    assert(texts(r@) =~= models(r@));
    assert(texts(v@) =~= models(v@));
    r
}

/// Whether `needle` is one of the texts.
pub fn contains_text(v: &Vec<String>, needle: &str) -> (r: bool)
    ensures
        r == texts(v@).contains(needle@),
{
    let n = v.len();
    let mut i: usize = 0;
    while i < n
        invariant
            n == v.len(),
            i <= n,
            forall|j: int| 0 <= j < i ==> v@[j]@ != needle@,
        decreases n - i,
    {
        if crate::text::str_equal(v[i].as_str(), needle) {
            assert(texts(v@)[i as int] == needle@);
            return true;
        }
        i = i + 1;
    }
    proof {
        if texts(v@).contains(needle@) {
            let k = choose|k: int| 0 <= k < texts(v@).len() && texts(v@)[k] == needle@;
            assert(v@[k]@ == needle@);
        }
    }
    false
}

/// Index of the first element satisfying `p`.
pub open spec fn first_match<T>(s: Seq<T>, p: spec_fn(T) -> bool) -> Option<int>
    decreases s.len(),
{
    if s.len() == 0 {
        None
    } else if p(s[0]) {
        Some(0)
    } else {
        match first_match(s.drop_first(), p) {
            Some(i) => Some(i + 1),
            None => None,
        }
    }
}

/// A scan that found no match before `i` and a match at `i` (or reached
/// the end) determines `first_match`.
pub proof fn lemma_first_match_scan<T>(s: Seq<T>, p: spec_fn(T) -> bool, i: int)
    requires
        0 <= i <= s.len(),
        forall|j: int| 0 <= j < i ==> !p(#[trigger] s[j]),
    ensures
        i < s.len() && p(s[i]) ==> first_match(s, p) == Some(i),
        i == s.len() ==> first_match(s, p) is None,
    decreases i,
{
    if i > 0 {
        let t = s.drop_first();
        assert forall|j: int| 0 <= j < i - 1 implies !p(#[trigger] t[j]) by {
            assert(t[j] == s[j + 1]);
        }
        lemma_first_match_scan(t, p, i - 1);
        assert(!p(s[0]));
        if i < s.len() {
            assert(t[i - 1] == s[i]);
        }
    }
}

/// What `first_match` returns is the first match.
pub proof fn lemma_first_match_props<T>(s: Seq<T>, p: spec_fn(T) -> bool)
    ensures
        match first_match(s, p) {
            Some(k) => 0 <= k < s.len() && p(s[k]) && forall|j: int|
                0 <= j < k ==> !p(#[trigger] s[j]),
            None => forall|j: int| 0 <= j < s.len() ==> !p(#[trigger] s[j]),
        },
    decreases s.len(),
{
    if s.len() > 0 {
        let t = s.drop_first();
        lemma_first_match_props(t, p);
        if !p(s[0]) {
            match first_match(t, p) {
                Some(k) => {
                    assert(t[k] == s[k + 1]);
                    assert forall|j: int| 0 <= j < k + 1 implies !p(#[trigger] s[j]) by {
                        if j > 0 {
                            assert(s[j] == t[j - 1]);
                        }
                    }
                },
                None => {
                    assert forall|j: int| 0 <= j < s.len() implies !p(#[trigger] s[j]) by {
                        if j > 0 {
                            assert(s[j] == t[j - 1]);
                        }
                    }
                },
            }
        }
    }
}

/// A type whose values carry a textual identity.
pub trait Keyed: View + Sized {
    spec fn key_of(m: Self::V) -> Seq<char>;

    fn key(&self) -> (r: &String)
        ensures
            r@ == Self::key_of(self@),
    ;
}

/// Predicate: the model's key equals `id`.
pub open spec fn key_is<T: Keyed>(id: Seq<char>) -> spec_fn(T::V) -> bool {
    |m: T::V| T::key_of(m) == id
}

/// Whether some element has key `id`.
pub open spec fn has_key<T: Keyed>(s: Seq<T::V>, id: Seq<char>) -> bool {
    exists|j: int| 0 <= j < s.len() && T::key_of(#[trigger] s[j]) == id
}

/// Position of the first element whose key is `id`.
pub fn position_of<T: Keyed>(v: &Vec<T>, id: &str) -> (r: Option<usize>)
    ensures
        match r {
            Some(i) => first_match(models(v@), key_is::<T>(id@)) == Some(i as int),
            None => first_match(models(v@), key_is::<T>(id@)) is None,
        },
        r is Some <==> has_key::<T>(models(v@), id@),
        r matches Some(i) ==> i < v@.len() && T::key_of(v@[i as int]@) == id@,
{
    let n = v.len();
    let mut i: usize = 0;
    let ghost s = models(v@);
    let ghost p = key_is::<T>(id@);
    while i < n
        invariant
            n == v.len(),
            i <= n,
            s == models(v@),
            p == key_is::<T>(id@),
            forall|j: int| 0 <= j < i ==> !p(#[trigger] s[j]),
        decreases n - i,
    {
        if crate::text::str_equal(v[i].key().as_str(), id) {
            proof {
                assert(p(s[i as int]));
                lemma_first_match_scan(s, p, i as int);
            }
            return Some(i);
        }
        assert(!p(s[i as int]));
        i = i + 1;
    }
    proof {
        lemma_first_match_scan(s, p, n as int);
        if has_key::<T>(s, id@) {
            let j = choose|j: int| 0 <= j < s.len() && T::key_of(#[trigger] s[j]) == id@;
            assert(p(s[j]));
        }
    }
    None
}

/// Split a vector into the elements that fail `p` (kept, in order) and
/// those that satisfy it (removed, in order).
pub fn split_matching<T: DeepCopy, F: Fn(&T) -> bool>(
    v: &Vec<T>,
    f: F,
    Ghost(p): Ghost<spec_fn(T::V) -> bool>,
) -> (r: (Vec<T>, Vec<T>))
    requires
        forall|x: &T| #[trigger] f.requires((x,)),
        forall|x: &T, b: bool| f.ensures((x,), b) ==> b == p(x@),
    ensures
        models(r.0@) == models(v@).filter(|m: T::V| !p(m)),
        models(r.1@) == models(v@).filter(p),
{
    let ghost np = |m: T::V| !p(m);
    let ghost s = models(v@);
    let mut kept: Vec<T> = Vec::new();
    let mut removed: Vec<T> = Vec::new();
    let n = v.len();
    let mut i: usize = 0;
    assert(s.take(0) =~= Seq::<T::V>::empty());
    while i < n
        invariant
            n == v.len(),
            i <= n,
            s == models(v@),
            np == (|m: T::V| !p(m)),
            forall|x: &T| #[trigger] f.requires((x,)),
            forall|x: &T, b: bool| f.ensures((x,), b) ==> b == p(x@),
            models(kept@) == s.take(i as int).filter(np),
            models(removed@) == s.take(i as int).filter(p),
        decreases n - i,
    {
        let hit = f(&v[i]);
        let x = v[i].deep_copy();
        proof {
            assert(s.take(i + 1) =~= s.take(i as int).push(s[i as int]));
            s.take(i as int).lemma_filter_push(s[i as int], p);
            s.take(i as int).lemma_filter_push(s[i as int], np);
        }
        if hit {
            proof {
                assert(models(removed@.push(x)) =~= models(removed@).push(x@));
            }
            removed.push(x);
        } else {
            proof {
                assert(models(kept@.push(x)) =~= models(kept@).push(x@));
            }
            kept.push(x);
        }
        i = i + 1;
    }
    assert(s.take(n as int) =~= s);
    (kept, removed)
}

/// Replace the element at `i`, returning the previous one.
pub fn replace_at<T>(v: &mut Vec<T>, i: usize, x: T) -> (r: T)
    requires
        i < old(v)@.len(),
    ensures
        final(v)@ == old(v)@.update(i as int, x),
        r == old(v)@[i as int],
{
    let r = v.remove(i);
    v.insert(i, x);
    assert(v@ =~= old(v)@.update(i as int, x));
    r
}

/// Models commute with `push`.
pub proof fn lemma_models_push<T: View>(s: Seq<T>, x: T)
    ensures
        models(s.push(x)) == models(s).push(x@),
{
    assert(models(s.push(x)) =~= models(s).push(x@));
}

/// Models commute with `update`.
pub proof fn lemma_models_update<T: View>(s: Seq<T>, i: int, x: T)
    requires
        0 <= i < s.len(),
    ensures
        models(s.update(i, x)) == models(s).update(i, x@),
{
    assert(models(s.update(i, x)) =~= models(s).update(i, x@));
}

/// Appending an element whose key is absent puts the first match of that
/// key at the end.
pub proof fn lemma_first_match_push_absent<T: Keyed>(s: Seq<T::V>, x: T::V)
    requires
        !has_key::<T>(s, T::key_of(x)),
    ensures
        first_match(s.push(x), key_is::<T>(T::key_of(x))) == Some(s.len() as int),
{
    let t = s.push(x);
    let p = key_is::<T>(T::key_of(x));
    assert forall|j: int| 0 <= j < s.len() implies !p(#[trigger] t[j]) by {
        assert(t[j] == s[j]);
        if p(t[j]) {
            assert(T::key_of(s[j]) == T::key_of(x));
        }
    }
    assert(p(t[s.len() as int]));
    lemma_first_match_scan(t, p, s.len() as int);
}

/// Keys occur at most once.
pub open spec fn keys_unique<T: Keyed>(s: Seq<T::V>) -> bool {
    forall|i: int, j: int|
        0 <= i < s.len() && 0 <= j < s.len() && i != j ==> T::key_of(#[trigger] s[i])
            != T::key_of(#[trigger] s[j])
}

/// Whether every element has a unique key.
pub fn keys_are_unique<T: Keyed>(v: &Vec<T>) -> (r: bool)
    ensures
        r == keys_unique::<T>(models(v@)),
{
    let ghost s = models(v@);
    let n = v.len();
    let mut i: usize = 0;
    while i < n
        invariant
            n == v.len(),
            s == models(v@),
            i <= n,
            forall|a: int, b: int|
                0 <= a < i && 0 <= b < n && a != b ==> T::key_of(#[trigger] s[a]) != T::key_of(
                    #[trigger] s[b],
                ),
        decreases n - i,
    {
        let mut j: usize = 0;
        while j < n
            invariant
                n == v.len(),
                s == models(v@),
                i < n,
                j <= n,
                forall|a: int, b: int|
                    0 <= a < i && 0 <= b < n && a != b ==> T::key_of(#[trigger] s[a]) != T::key_of(
                        #[trigger] s[b],
                    ),
                forall|b: int|
                    0 <= b < j && b != i ==> T::key_of(#[trigger] s[i as int]) != T::key_of(s[b]),
            decreases n - j,
        {
            if j != i && crate::text::str_equal(v[i].key().as_str(), v[j].key().as_str()) {
                assert(T::key_of(s[i as int]) == T::key_of(s[j as int]));
                return false;
            }
            j = j + 1;
        }
        i = i + 1;
    }
    true
}

/// Filtering with a predicate that every element meets changes nothing.
pub proof fn lemma_filter_all<T>(s: Seq<T>, p: spec_fn(T) -> bool)
    requires
        forall|j: int| 0 <= j < s.len() ==> p(#[trigger] s[j]),
    ensures
        s.filter(p) == s,
    decreases s.len(),
{
    reveal(Seq::filter);
    if s.len() > 0 {
        let d = s.drop_last();
        assert forall|j: int| 0 <= j < d.len() implies p(#[trigger] d[j]) by {
            assert(d[j] == s[j]);
        }
        lemma_filter_all(d, p);
        assert(d.push(s.last()) =~= s);
    }
}

/// Inserting an element adds it to the multiset.
pub proof fn lemma_insert_multiset<A>(s: Seq<A>, j: int, x: A)
    requires
        0 <= j <= s.len(),
    ensures
        s.insert(j, x).to_multiset() == s.to_multiset().insert(x),
{
    let a = s.subrange(0, j);
    let b = s.subrange(j, s.len() as int);
    assert(s.insert(j, x) =~= a.push(x) + b);
    assert(s =~= a + b);
    vstd::seq_lib::lemma_multiset_commutative(a.push(x), b);
    vstd::seq_lib::lemma_multiset_commutative(a, b);
    assert(s.insert(j, x).to_multiset() =~= s.to_multiset().insert(x));
}

/// An empty sequence has empty models and texts.
pub proof fn lemma_models_empty<T: View>(s: Seq<T>, t: Seq<String>)
    requires
        s.len() == 0,
        t.len() == 0,
    ensures
        models(s) == Seq::<T::V>::empty(),
        texts(t) == Seq::<Seq<char>>::empty(),
{
    assert(models(s) =~= Seq::<T::V>::empty());
    assert(texts(t) =~= Seq::<Seq<char>>::empty());
}

/// Models commute with `remove`.
pub proof fn lemma_models_remove<T: View>(s: Seq<T>, i: int)
    requires
        0 <= i < s.len(),
    ensures
        models(s.remove(i)) == models(s).remove(i),
{
    assert(models(s.remove(i)) =~= models(s).remove(i));
}

} // verus!
