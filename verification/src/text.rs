//! Small verified helpers on text: character-wise equality and
//! decimal rendering of counters.

use vstd::prelude::*;
use vstd::string::StrSliceExecFns;
use vstd::string::StringExecFns;

verus! {

broadcast use vstd::seq_lib::group_to_multiset_ensures;

/// Character-wise equality of two string slices.
pub fn str_equal(a: &str, b: &str) -> (r: bool)
    ensures
        r == (a@ == b@),
{
    let n = a.unicode_len();
    let m = b.unicode_len();
    if n != m {
        return false;
    }
    let mut i: usize = 0;
    while i < n
        invariant
            n == a@.len(),
            m == b@.len(),
            n == m,
            i <= n,
            forall|j: int| 0 <= j < i ==> a@[j] == b@[j],
        decreases n - i,
    {
        if a.get_char(i) != b.get_char(i) {
            return false;
        }
        i = i + 1;
    }
    assert(a@ =~= b@);
    true
}

/// The decimal digit character of `d`.
pub open spec fn digit_char(d: nat) -> char {
    if d == 0 {
        '0'
    } else if d == 1 {
        '1'
    } else if d == 2 {
        '2'
    } else if d == 3 {
        '3'
    } else if d == 4 {
        '4'
    } else if d == 5 {
        '5'
    } else if d == 6 {
        '6'
    } else if d == 7 {
        '7'
    } else if d == 8 {
        '8'
    } else {
        '9'
    }
}

/// Decimal rendering of a natural number, most significant digit first,
/// without leading zeros ("0" for zero).
pub open spec fn decimal(n: nat) -> Seq<char>
    decreases n,
{
    if n < 10 {
        seq![digit_char(n)]
    } else {
        decimal(n / 10).push(digit_char(n % 10))
    }
}

fn digit_str(d: u64) -> (s: &'static str)
    requires
        d < 10,
    ensures
        s@ == seq![digit_char(d as nat)],
{
    proof {
        reveal_strlit("0");
        reveal_strlit("1");
        reveal_strlit("2");
        reveal_strlit("3");
        reveal_strlit("4");
        reveal_strlit("5");
        reveal_strlit("6");
        reveal_strlit("7");
        reveal_strlit("8");
        reveal_strlit("9");
    }
    let s = if d == 0 {
        "0"
    } else if d == 1 {
        "1"
    } else if d == 2 {
        "2"
    } else if d == 3 {
        "3"
    } else if d == 4 {
        "4"
    } else if d == 5 {
        "5"
    } else if d == 6 {
        "6"
    } else if d == 7 {
        "7"
    } else if d == 8 {
        "8"
    } else {
        "9"
    };
    assert(s@ =~= seq![digit_char(d as nat)]);
    s
}

/// Render a counter in decimal, as `to_string` renders an unsigned integer.
pub fn decimal_string(n: u64) -> (s: String)
    ensures
        s@ == decimal(n as nat),
    decreases n,
{
    if n < 10 {
        String::from_str(digit_str(n))
    } else {
        let mut s = decimal_string(n / 10);
        s.append(digit_str(n % 10));
        s
    }
}

/// Relative position of two values in an order.
#[derive(Debug, Clone, Copy, PartialEq, Eq, Structural)]
pub enum Precedence {
    Before,
    Same,
    After,
}

/// Strict lexicographic order on texts, character by character by code
/// point (the order of `str` comparison).
pub open spec fn str_lt(a: Seq<char>, b: Seq<char>) -> bool
    decreases a.len(),
{
    if b.len() == 0 {
        false
    } else if a.len() == 0 {
        true
    } else if a[0] != b[0] {
        (a[0] as int) < (b[0] as int)
    } else {
        str_lt(a.drop_first(), b.drop_first())
    }
}

/// No text precedes itself.
pub proof fn lemma_str_lt_irreflexive(a: Seq<char>)
    ensures
        !str_lt(a, a),
    decreases a.len(),
{
    if a.len() > 0 {
        lemma_str_lt_irreflexive(a.drop_first());
    }
}

/// The order is transitive.
pub proof fn lemma_str_lt_transitive(a: Seq<char>, b: Seq<char>, c: Seq<char>)
    requires
        str_lt(a, b),
        str_lt(b, c),
    ensures
        str_lt(a, c),
    decreases a.len(),
{
    if a.len() > 0 && b.len() > 0 && c.len() > 0 && a[0] == b[0] && b[0] == c[0] {
        lemma_str_lt_transitive(a.drop_first(), b.drop_first(), c.drop_first());
    }
}

/// Two different texts are ordered one way or the other.
pub proof fn lemma_str_lt_total(a: Seq<char>, b: Seq<char>)
    ensures
        a == b || str_lt(a, b) || str_lt(b, a),
    decreases a.len(),
{
    if a.len() > 0 && b.len() > 0 {
        if a[0] == b[0] {
            lemma_str_lt_total(a.drop_first(), b.drop_first());
            if a.drop_first() == b.drop_first() {
                assert(a =~= seq![a[0]] + a.drop_first());
                assert(b =~= seq![b[0]] + b.drop_first());
            }
        } else {
            assert((a[0] as int) != (b[0] as int));
        }
    } else if a.len() == 0 && b.len() == 0 {
        assert(a =~= b);
    }
}

/// Compare two texts in [`str_lt`] order.
pub fn str_precedence(a: &str, b: &str) -> (r: Precedence)
    ensures
        r == Precedence::Before <==> str_lt(a@, b@),
        r == Precedence::Same <==> a@ == b@,
        r == Precedence::After <==> str_lt(b@, a@),
{
    let n = a.unicode_len();
    let m = b.unicode_len();
    proof {
        lemma_str_lt_irreflexive(a@);
        lemma_str_lt_total(a@, b@);
        if str_lt(a@, b@) && str_lt(b@, a@) {
            lemma_str_lt_transitive(a@, b@, a@);
        }
        assert(a@.skip(0) =~= a@);
        assert(b@.skip(0) =~= b@);
    }
    let mut i: usize = 0;
    while i < n && i < m
        invariant
            n == a@.len(),
            m == b@.len(),
            i <= n,
            i <= m,
            str_lt(a@, b@) == str_lt(a@.skip(i as int), b@.skip(i as int)),
            str_lt(b@, a@) == str_lt(b@.skip(i as int), a@.skip(i as int)),
            forall|k: int| 0 <= k < i ==> a@[k] == b@[k],
        decreases n - i,
    {
        let x = a.get_char(i);
        let y = b.get_char(i);
        proof {
            assert(a@.skip(i as int)[0] == x);
            assert(b@.skip(i as int)[0] == y);
        }
        if (x as u32) < (y as u32) {
            return Precedence::Before;
        }
        if (y as u32) < (x as u32) {
            return Precedence::After;
        }
        proof {
            assert(a@.skip(i as int).drop_first() =~= a@.skip(i + 1));
            assert(b@.skip(i as int).drop_first() =~= b@.skip(i + 1));
        }
        i = i + 1;
    }
    if n == m {
        assert(a@ =~= b@);
        Precedence::Same
    } else if n < m {
        proof {
            assert(a@.skip(i as int).len() == 0);
        }
        Precedence::Before
    } else {
        proof {
            assert(b@.skip(i as int).len() == 0);
        }
        Precedence::After
    }
}

/// Non-strict text order.
pub open spec fn str_le() -> spec_fn(Seq<char>, Seq<char>) -> bool {
    |a: Seq<char>, b: Seq<char>| str_lt(a, b) || a == b
}

/// Text order is a total order.
pub proof fn lemma_str_le_total()
    ensures
        vstd::relations::total_ordering(str_le()),
{
    let le = str_le();
    assert forall|x: Seq<char>, y: Seq<char>| #[trigger] le(x, y) && #[trigger] le(y, x) implies x == y by {
        if x != y {
            lemma_str_lt_transitive(x, y, x);
            lemma_str_lt_irreflexive(x);
        }
    }
    assert forall|x: Seq<char>, y: Seq<char>, z: Seq<char>| #[trigger] le(x, y) && #[trigger] le(y, z) implies le(x, z) by {
        if str_lt(x, y) && str_lt(y, z) {
            lemma_str_lt_transitive(x, y, z);
        }
    }
    assert forall|x: Seq<char>, y: Seq<char>| #[trigger] le(x, y) || #[trigger] le(y, x) by {
        lemma_str_lt_total(x, y);
    }
}

/// Texts in text order.
pub open spec fn sorted_texts(s: Seq<Seq<char>>) -> Seq<Seq<char>> {
    s.sort_by(str_le())
}

/// Sort texts into text order (as `sort` on strings orders them).
pub fn sort_texts(v: Vec<String>) -> (r: Vec<String>)
    ensures
        crate::model::texts(r@) == sorted_texts(crate::model::texts(v@)),
{
    let ghost all = crate::model::texts(v@);
    let mut out: Vec<String> = Vec::new();
    let mut i: usize = 0;
    proof {
        lemma_str_le_total();
        assert(crate::model::texts(out@) =~= Seq::<Seq<char>>::empty());
        assert(all.subrange(0, 0) =~= Seq::<Seq<char>>::empty());
    }
    while i < v.len()
        invariant
            i <= v.len(),
            all == crate::model::texts(v@),
            vstd::relations::total_ordering(str_le()),
            vstd::relations::sorted_by(crate::model::texts(out@), str_le()),
            crate::model::texts(out@).to_multiset() == all.subrange(0, i as int).to_multiset(),
        decreases v.len() - i,
    {
        let x = &v[i];
        let ghost s = crate::model::texts(out@);
        let mut j: usize = 0;
        while j < out.len() && str_precedence(x.as_str(), out[j].as_str()) != Precedence::Before
            invariant
                j <= out.len(),
                s == crate::model::texts(out@),
                forall|a: int| 0 <= a < j ==> !str_lt(x@, #[trigger] s[a]),
            decreases out.len() - j,
        {
            j = j + 1;
        }
        let ghost stop = j < out.len();
        out.insert(j, x.clone());
        proof {
            let s2 = crate::model::texts(out@);
            assert(s2 =~= s.insert(j as int, x@));
            crate::model::lemma_insert_multiset(s, j as int, x@);
            let next = all.subrange(0, i + 1);
            assert(next =~= all.subrange(0, i as int).push(all[i as int]));
            assert(all[i as int] == x@);
            let le = str_le();
            assert forall|a: int, c: int| 0 <= a < c < s2.len() implies #[trigger] le(s2[a], s2[c]) by {
                lemma_str_lt_total(x@, s2[a]);
                if c < j {
                    assert(s2[a] == s[a] && s2[c] == s[c]);
                } else if c == j {
                    assert(s2[a] == s[a]);
                } else if a == j {
                    assert(s2[c] == s[c - 1]);
                    assert(str_lt(x@, s[j as int]));
                    assert(le(s[j as int], s[c - 1]));
                    if str_lt(s[j as int], s[c - 1]) {
                        lemma_str_lt_transitive(x@, s[j as int], s[c - 1]);
                    }
                } else if a < j {
                    assert(s2[a] == s[a] && s2[c] == s[c - 1]);
                    assert(le(s[a], s[j as int]) || j == s.len());
                } else {
                    assert(s2[a] == s[a - 1] && s2[c] == s[c - 1]);
                }
            }
        }
        i = i + 1;
    }
    proof {
        assert(all.subrange(0, v.len() as int) =~= all);
        all.lemma_sort_by_ensures(str_le());
        vstd::seq_lib::lemma_sorted_unique(crate::model::texts(out@), all.sort_by(str_le()), str_le());
    }
    out
}


/// A sequence with each run of equal neighbours kept once.
pub open spec fn dedup_adjacent(s: Seq<Seq<char>>) -> Seq<Seq<char>>
    decreases s.len(),
{
    if s.len() == 0 {
        s
    } else {
        let rest = dedup_adjacent(s.drop_last());
        if s.len() >= 2 && s[s.len() - 2] == s.last() {
            rest
        } else {
            rest.push(s.last())
        }
    }
}

/// Texts joined with `sep` between neighbours.
pub open spec fn joined(s: Seq<Seq<char>>, sep: Seq<char>) -> Seq<char>
    decreases s.len(),
{
    if s.len() == 0 {
        Seq::empty()
    } else if s.len() == 1 {
        s[0]
    } else {
        joined(s.drop_last(), sep) + sep + s.last()
    }
}

/// Drop each text equal to the one before it.
pub fn dedup_texts(v: Vec<String>) -> (r: Vec<String>)
    ensures
        crate::model::texts(r@) == dedup_adjacent(crate::model::texts(v@)),
{
    let ghost all = crate::model::texts(v@);
    let mut out: Vec<String> = Vec::new();
    let mut i: usize = 0;
    proof {
        assert(all.take(0) =~= Seq::<Seq<char>>::empty());
        assert(crate::model::texts(out@) =~= Seq::<Seq<char>>::empty());
    }
    while i < v.len()
        invariant
            i <= v.len(),
            all == crate::model::texts(v@),
            crate::model::texts(out@) == dedup_adjacent(all.take(i as int)),
            i > 0 ==> out@.len() > 0 && out@.last()@ == all[i - 1],
        decreases v.len() - i,
    {
        let ghost before = crate::model::texts(out@);
        assert(all.take(i + 1).drop_last() =~= all.take(i as int));
        assert(all.take(i + 1).last() == v@[i as int]@);
        let dup = out.len() > 0 && str_equal(out[out.len() - 1].as_str(), v[i].as_str());
        if !dup {
            out.push(v[i].clone());
            assert(crate::model::texts(out@) =~= before.push(v@[i as int]@));
        } else {
            assert(all.take(i + 1)[i - 1] == all[i - 1]);
        }
        i = i + 1;
    }
    assert(all.take(v.len() as int) =~= all);
    out
}

/// Join texts with `sep` between neighbours.
pub fn join_texts(v: &Vec<String>, sep: &str) -> (r: String)
    ensures
        r@ == joined(crate::model::texts(v@), sep@),
{
    let ghost all = crate::model::texts(v@);
    let mut out = String::new();
    let mut i: usize = 0;
    proof {
        assert(all.take(0) =~= Seq::<Seq<char>>::empty());
    }
    while i < v.len()
        invariant
            i <= v.len(),
            all == crate::model::texts(v@),
            out@ == joined(all.take(i as int), sep@),
        decreases v.len() - i,
    {
        assert(all.take(i + 1).drop_last() =~= all.take(i as int));
        assert(all.take(i + 1).last() == v@[i as int]@);
        if i > 0 {
            out.append(sep);
        } else {
            assert(out@ =~= Seq::<char>::empty());
        }
        out.append(v[i].as_str());
        i = i + 1;
    }
    assert(all.take(v.len() as int) =~= all);
    out
}

/// Texts in strictly increasing text order.
pub open spec fn strictly_sorted(s: Seq<Seq<char>>) -> bool {
    forall|i: int, j: int| 0 <= i < j < s.len() ==> str_lt(#[trigger] s[i], #[trigger] s[j])
}

/// Keeping each run of a sorted sequence once gives a strictly sorted
/// sequence of the same texts.
pub proof fn lemma_dedup_sorted(s: Seq<Seq<char>>)
    requires
        vstd::relations::sorted_by(s, str_le()),
    ensures
        strictly_sorted(dedup_adjacent(s)),
        dedup_adjacent(s).to_set() == s.to_set(),
        s.len() > 0 ==> dedup_adjacent(s).len() > 0 && dedup_adjacent(s).last() == s.last(),
    decreases s.len(),
{
    if s.len() > 0 {
        let p = s.drop_last();
        assert(vstd::relations::sorted_by(p, str_le())) by {
            assert forall|i: int, j: int| 0 <= i < j < p.len() implies #[trigger] (str_le())(p[i], p[j]) by {
                assert(p[i] == s[i] && p[j] == s[j]);
            }
        }
        lemma_dedup_sorted(p);
        let rest = dedup_adjacent(p);
        let d = dedup_adjacent(s);
        assert forall|x: Seq<char>| s.contains(x) <==> p.contains(x) || x == s.last() by {
            if s.contains(x) && x != s.last() {
                let k = choose|k: int| 0 <= k < s.len() && s[k] == x;
                assert(p[k] == x);
            }
            if p.contains(x) {
                let k = choose|k: int| 0 <= k < p.len() && p[k] == x;
                assert(s[k] == x);
            }
        }
        if s.len() >= 2 && s[s.len() - 2] == s.last() {
            assert(d == rest);
            assert(p.contains(s.last())) by {
                assert(p[s.len() - 2] == s.last());
            }
            assert(d.to_set() =~= s.to_set());
        } else {
            assert(d == rest.push(s.last()));
            assert forall|x: Seq<char>| d.contains(x) <==> rest.contains(x) || x == s.last() by {
                if d.contains(x) && x != s.last() {
                    let k = choose|k: int| 0 <= k < d.len() && d[k] == x;
                    assert(rest[k] == x);
                }
                if rest.contains(x) {
                    let k = choose|k: int| 0 <= k < rest.len() && rest[k] == x;
                    assert(d[k] == x);
                }
                if x == s.last() {
                    assert(d[d.len() - 1] == x);
                }
            }
            assert(d.to_set() =~= s.to_set()) by {
                assert forall|x: Seq<char>| d.to_set().contains(x) == s.to_set().contains(x) by {
                    assert(rest.to_set().contains(x) == p.to_set().contains(x));
                }
            }
            if s.len() >= 2 {
                let y = s[s.len() - 2];
                assert((str_le())(y, s.last()));
                assert(str_lt(y, s.last()));
                assert(rest.last() == y);
                assert forall|i: int, j: int| 0 <= i < j < d.len() implies str_lt(#[trigger] d[i], #[trigger] d[j]) by {
                    if j == d.len() - 1 {
                        if i < rest.len() - 1 {
                            assert(str_lt(rest[i], rest[rest.len() - 1]));
                            lemma_str_lt_transitive(rest[i], y, s.last());
                        }
                    } else {
                        assert(d[i] == rest[i] && d[j] == rest[j]);
                    }
                }
            } else {
                assert(rest.len() == 0) by {
                    if rest.len() > 0 {
                        assert(rest.to_set().contains(rest[0]));
                    }
                }
            }
        }
    } else {
        assert(dedup_adjacent(s).to_set() =~= s.to_set());
    }
}

/// Two strictly sorted sequences of the same texts are equal.
pub proof fn lemma_strictly_sorted_unique(a: Seq<Seq<char>>, b: Seq<Seq<char>>)
    requires
        strictly_sorted(a),
        strictly_sorted(b),
        a.to_set() == b.to_set(),
    ensures
        a == b,
    decreases a.len(),
{
    if a.len() == 0 || b.len() == 0 {
        if a.len() > 0 {
            assert(a.to_set().contains(a[0]));
        }
        if b.len() > 0 {
            assert(b.to_set().contains(b[0]));
        }
        assert(a =~= b);
    } else {
        assert(a.to_set().contains(a[0]));
        assert(b.to_set().contains(b[0]));
        assert(b.contains(a[0]));
        assert(a.contains(b[0]));
        if a[0] != b[0] {
            let j = choose|j: int| 0 <= j < b.len() && b[j] == a[0];
            let i = choose|i: int| 0 <= i < a.len() && a[i] == b[0];
            assert(str_lt(b[0], b[j]));
            assert(str_lt(a[0], a[i]));
            lemma_str_lt_transitive(a[0], b[0], a[0]);
            lemma_str_lt_irreflexive(a[0]);
        }
        let a2 = a.drop_first();
        let b2 = b.drop_first();
        assert forall|x: Seq<char>| a2.contains(x) <==> a.contains(x) && x != a[0] by {
            if a2.contains(x) {
                let k = choose|k: int| 0 <= k < a2.len() && a2[k] == x;
                assert(a[k + 1] == x);
                assert(str_lt(a[0], a[k + 1]));
                lemma_str_lt_irreflexive(x);
            }
            if a.contains(x) && x != a[0] {
                let k = choose|k: int| 0 <= k < a.len() && a[k] == x;
                assert(a2[k - 1] == x);
            }
        }
        assert forall|x: Seq<char>| b2.contains(x) <==> b.contains(x) && x != b[0] by {
            if b2.contains(x) {
                let k = choose|k: int| 0 <= k < b2.len() && b2[k] == x;
                assert(b[k + 1] == x);
                assert(str_lt(b[0], b[k + 1]));
                lemma_str_lt_irreflexive(x);
            }
            if b.contains(x) && x != b[0] {
                let k = choose|k: int| 0 <= k < b.len() && b[k] == x;
                assert(b2[k - 1] == x);
            }
        }
        assert forall|x: Seq<char>| a.contains(x) == b.contains(x) by {
            assert(a.to_set().contains(x) == a.contains(x));
            assert(b.to_set().contains(x) == b.contains(x));
        }
        assert(a2.to_set() =~= b2.to_set());
        assert(strictly_sorted(a2)) by {
            assert forall|i: int, j: int| 0 <= i < j < a2.len() implies str_lt(#[trigger] a2[i], #[trigger] a2[j]) by {
                assert(a2[i] == a[i + 1] && a2[j] == a[j + 1]);
            }
        }
        assert(strictly_sorted(b2)) by {
            assert forall|i: int, j: int| 0 <= i < j < b2.len() implies str_lt(#[trigger] b2[i], #[trigger] b2[j]) by {
                assert(b2[i] == b[i + 1] && b2[j] == b[j + 1]);
            }
        }
        lemma_strictly_sorted_unique(a2, b2);
        assert(a =~= seq![a[0]] + a2);
        assert(b =~= seq![b[0]] + b2);
    }
}

/// The sorted texts of a sequence, each once, depend only on which
/// texts it holds.
pub proof fn lemma_sorted_unique_texts_set_only(d1: Seq<Seq<char>>, d2: Seq<Seq<char>>)
    requires
        d1.to_set() == d2.to_set(),
    ensures
        dedup_adjacent(sorted_texts(d1)) == dedup_adjacent(sorted_texts(d2)),
{
    lemma_str_le_total();
    d1.lemma_sort_by_ensures(str_le());
    d2.lemma_sort_by_ensures(str_le());
    let s1 = sorted_texts(d1);
    let s2 = sorted_texts(d2);
    lemma_dedup_sorted(s1);
    lemma_dedup_sorted(s2);
    assert forall|x: Seq<char>| s1.contains(x) == d1.contains(x) && s2.contains(x) == d2.contains(x) by {
        assert(d1.to_multiset().count(x) == s1.to_multiset().count(x));
        assert(d2.to_multiset().count(x) == s2.to_multiset().count(x));
    }
    assert forall|x: Seq<char>| d1.contains(x) == d2.contains(x) by {
        assert(d1.to_set().contains(x) == d1.contains(x));
        assert(d2.to_set().contains(x) == d2.contains(x));
    }
    assert(s1.to_set() =~= s2.to_set());
    lemma_strictly_sorted_unique(dedup_adjacent(s1), dedup_adjacent(s2));
}

} // verus!
