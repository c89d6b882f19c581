//! Lexicographic ordering of texts, the order in which `String` values compare.
use vstd::prelude::*;

use crate::text::views;

verus! {

/// Three-way lexicographic comparison of two texts by character code: -1, 0 or 1.
pub open spec fn text_order(a: Seq<char>, b: Seq<char>) -> int
    decreases a.len(),
{
    if a.len() == 0 && b.len() == 0 {
        0
    } else if a.len() == 0 {
        -1
    } else if b.len() == 0 {
        1
    } else if a[0] < b[0] {
        -1
    } else if a[0] > b[0] {
        1
    } else {
        text_order(a.drop_first(), b.drop_first())
    }
}

/// `a` sorts strictly before `b`.
pub open spec fn text_lt(a: Seq<char>, b: Seq<char>) -> bool {
    text_order(a, b) < 0
}

/// Comparison is antisymmetric and exactly zero on equal texts.
pub proof fn lemma_text_order_antisym(a: Seq<char>, b: Seq<char>)
    ensures
        text_order(a, b) == -text_order(b, a),
        (text_order(a, b) == 0) == (a == b),
        -1 <= text_order(a, b) <= 1,
    decreases a.len(),
{
    if a.len() > 0 && b.len() > 0 && a[0] == b[0] {
        lemma_text_order_antisym(a.drop_first(), b.drop_first());
        if a.drop_first() == b.drop_first() {
            assert(a[0] == b[0]);
            assert(a =~= seq![a[0]] + a.drop_first());
            assert(b =~= seq![b[0]] + b.drop_first());
        }
    }
    if a.len() == 0 && b.len() == 0 {
        assert(a =~= b);
    }
}

/// Strict comparison is transitive.
pub proof fn lemma_text_lt_trans(a: Seq<char>, b: Seq<char>, c: Seq<char>)
    requires
        text_lt(a, b),
        text_lt(b, c),
    ensures
        text_lt(a, c),
    decreases a.len(),
{
    if a.len() > 0 && b.len() > 0 && c.len() > 0 && a[0] == b[0] && b[0] == c[0] {
        lemma_text_lt_trans(a.drop_first(), b.drop_first(), c.drop_first());
    }
}

/// Compares two character slices lexicographically.
pub fn compare_text(a: &[char], b: &[char]) -> (r: i8)
    ensures
        r as int == text_order(a@, b@),
{
    let mut i: usize = 0;
    assert(a@.skip(0) =~= a@);
    assert(b@.skip(0) =~= b@);
    while i < a.len() && i < b.len() && a[i] == b[i]
        invariant
            i <= a.len(),
            i <= b.len(),
            text_order(a@, b@) == text_order(a@.skip(i as int), b@.skip(i as int)),
        decreases a.len() - i,
    {
        assert(a@.skip(i as int).drop_first() =~= a@.skip(i + 1));
        assert(b@.skip(i as int).drop_first() =~= b@.skip(i + 1));
        i = i + 1;
    }
    let ghost sa = a@.skip(i as int);
    let ghost sb = b@.skip(i as int);
    if i == a.len() && i == b.len() {
        0
    } else if i == a.len() {
        -1
    } else if i == b.len() {
        1
    } else if a[i] < b[i] {
        assert(sa[0] == a@[i as int]);
        assert(sb[0] == b@[i as int]);
        -1
    } else {
        assert(sa[0] == a@[i as int]);
        assert(sb[0] == b@[i as int]);
        1
    }
}

/// Every earlier element sorts strictly before every later one.
pub open spec fn strictly_sorted(s: Seq<Seq<char>>) -> bool {
    forall|i: int, j: int| 0 <= i < j < s.len() ==> text_lt(#[trigger] s[i], #[trigger] s[j])
}


/// Two strictly sorted lists with the same elements are the same list.
pub proof fn lemma_sorted_unique(a: Seq<Seq<char>>, b: Seq<Seq<char>>)
    requires
        strictly_sorted(a),
        strictly_sorted(b),
        a.to_set() == b.to_set(),
    ensures
        a == b,
    decreases a.len(),
{
    if a.len() == 0 {
        if b.len() > 0 {
            assert(b.to_set().contains(b[0]));
        }
        assert(a =~= b);
        return;
    }
    if b.len() == 0 {
        assert(a.to_set().contains(a[0]));
        return;
    }
    assert(b.to_set().contains(a[0]));
    assert(a.to_set().contains(b[0]));
    let j = choose|j: int| 0 <= j < b.len() && b[j] == a[0];
    let i = choose|i: int| 0 <= i < a.len() && a[i] == b[0];
    if a[0] != b[0] {
        assert(j > 0 && i > 0);
        assert(text_lt(b[0], b[j]));
        assert(text_lt(a[0], a[i]));
        lemma_text_lt_trans(a[0], b[0], a[0]);
        lemma_text_order_antisym(a[0], a[0]);
    }
    let a1 = a.drop_first();
    let b1 = b.drop_first();
    assert(strictly_sorted(a1)) by {
        assert forall|p: int, q: int| 0 <= p < q < a1.len() implies text_lt(
            #[trigger] a1[p],
            #[trigger] a1[q],
        ) by {
            assert(a1[p] == a[p + 1] && a1[q] == a[q + 1]);
        }
    }
    assert(strictly_sorted(b1)) by {
        assert forall|p: int, q: int| 0 <= p < q < b1.len() implies text_lt(
            #[trigger] b1[p],
            #[trigger] b1[q],
        ) by {
            assert(b1[p] == b[p + 1] && b1[q] == b[q + 1]);
        }
    }
    assert forall|x: Seq<char>| a1.to_set().contains(x) == b1.to_set().contains(x) by {
        if a1.to_set().contains(x) {
            let p = choose|p: int| 0 <= p < a1.len() && a1[p] == x;
            assert(a[p + 1] == x);
            assert(text_lt(a[0], a[p + 1]));
            lemma_text_order_antisym(a[0], x);
            assert(a.to_set().contains(x));
            let q = choose|q: int| 0 <= q < b.len() && b[q] == x;
            assert(q != 0);
            assert(b1[q - 1] == x);
        }
        if b1.to_set().contains(x) {
            let p = choose|p: int| 0 <= p < b1.len() && b1[p] == x;
            assert(b[p + 1] == x);
            assert(text_lt(b[0], b[p + 1]));
            lemma_text_order_antisym(b[0], x);
            assert(b.to_set().contains(x));
            let q = choose|q: int| 0 <= q < a.len() && a[q] == x;
            assert(q != 0);
            assert(a1[q - 1] == x);
        }
    }
    assert(a1.to_set() =~= b1.to_set());
    lemma_sorted_unique(a1, b1);
    assert(a =~= seq![a[0]] + a1);
    assert(b =~= seq![b[0]] + b1);
}

/// A strictly sorted list holds no element twice.
pub proof fn lemma_sorted_no_duplicates(s: Seq<Seq<char>>)
    requires
        strictly_sorted(s),
    ensures
        s.no_duplicates(),
{
    assert forall|i: int, j: int| 0 <= i < s.len() && 0 <= j < s.len() && i != j implies s[i]
        != s[j] by {
        if i < j {
            assert(text_lt(s[i], s[j]));
            lemma_text_order_antisym(s[i], s[j]);
        } else {
            assert(text_lt(s[j], s[i]));
            lemma_text_order_antisym(s[j], s[i]);
        }
    }
}

/// The elements of a finite set of texts in ascending order.
pub open spec fn sorted_list(s: Set<Seq<char>>) -> Seq<Seq<char>> {
    choose|l: Seq<Seq<char>>| strictly_sorted(l) && l.to_set() == s
}

/// Inserting a text that a strictly sorted list lacks, at its place, keeps the list sorted.
pub proof fn lemma_insert_in_order(l: Seq<Seq<char>>, a: Seq<char>) -> (r: Seq<Seq<char>>)
    requires
        strictly_sorted(l),
        !l.contains(a),
    ensures
        strictly_sorted(r),
        r.to_set() == l.to_set().insert(a),
    decreases l.len(),
{
    if l.len() == 0 {
        let r = seq![a];
        assert(r.to_set() =~= l.to_set().insert(a)) by {
            assert forall|x: Seq<char>| r.to_set().contains(x) == (x == a) by {
                if r.to_set().contains(x) {
                    let k = choose|k: int| 0 <= k < r.len() && r[k] == x;
                }
                if x == a {
                    assert(r[0] == a);
                }
            }
        }
        r
    } else if text_lt(a, l[0]) {
        let r = seq![a] + l;
        assert forall|i: int, j: int| 0 <= i < j < r.len() implies text_lt(
            #[trigger] r[i],
            #[trigger] r[j],
        ) by {
            if i == 0 {
                if j > 1 {
                    assert(text_lt(l[0], l[j - 1]));
                    lemma_text_lt_trans(a, l[0], l[j - 1]);
                }
            } else {
                assert(r[i] == l[i - 1] && r[j] == l[j - 1]);
            }
        }
        assert forall|x: Seq<char>| r.to_set().contains(x) == l.to_set().insert(a).contains(x) by {
            if r.to_set().contains(x) {
                let k = choose|k: int| 0 <= k < r.len() && r[k] == x;
                if k > 0 {
                    assert(l[k - 1] == x);
                }
            }
            if l.to_set().contains(x) {
                let k = choose|k: int| 0 <= k < l.len() && l[k] == x;
                assert(r[k + 1] == x);
            }
            if x == a {
                assert(r[0] == a);
            }
        }
        assert(r.to_set() =~= l.to_set().insert(a));
        r
    } else {
        assert(l.contains(l[0]));
        lemma_text_order_antisym(a, l[0]);
        assert(text_lt(l[0], a));
        let tail = l.drop_first();
        assert(strictly_sorted(tail)) by {
            assert forall|i: int, j: int| 0 <= i < j < tail.len() implies text_lt(
                #[trigger] tail[i],
                #[trigger] tail[j],
            ) by {
                assert(tail[i] == l[i + 1] && tail[j] == l[j + 1]);
            }
        }
        assert(!tail.contains(a)) by {
            if tail.contains(a) {
                let k = choose|k: int| 0 <= k < tail.len() && tail[k] == a;
                assert(l[k + 1] == a);
            }
        }
        let rest = lemma_insert_in_order(tail, a);
        let r = seq![l[0]] + rest;
        assert forall|i: int, j: int| 0 <= i < j < r.len() implies text_lt(
            #[trigger] r[i],
            #[trigger] r[j],
        ) by {
            if i == 0 {
                assert(r[j] == rest[j - 1]);
                assert(rest.to_set().contains(rest[j - 1]));
                assert(tail.to_set().insert(a).contains(rest[j - 1]));
                if rest[j - 1] != a {
                    let k = choose|k: int| 0 <= k < tail.len() && tail[k] == rest[j - 1];
                    assert(l[k + 1] == rest[j - 1]);
                }
            } else {
                assert(r[i] == rest[i - 1] && r[j] == rest[j - 1]);
            }
        }
        assert forall|x: Seq<char>| r.to_set().contains(x) == l.to_set().insert(a).contains(x) by {
            if r.to_set().contains(x) {
                let k = choose|k: int| 0 <= k < r.len() && r[k] == x;
                if k > 0 {
                    assert(rest[k - 1] == x);
                    assert(rest.to_set().contains(x));
                    if x != a {
                        let q = choose|q: int| 0 <= q < tail.len() && tail[q] == x;
                        assert(l[q + 1] == x);
                    }
                } else {
                    assert(l[0] == x);
                }
            }
            if l.to_set().contains(x) {
                let k = choose|k: int| 0 <= k < l.len() && l[k] == x;
                if k == 0 {
                    assert(r[0] == x);
                } else {
                    assert(tail[k - 1] == x);
                    assert(tail.to_set().insert(a).contains(x));
                    assert(rest.to_set().contains(x));
                    let q = choose|q: int| 0 <= q < rest.len() && rest[q] == x;
                    assert(r[q + 1] == x);
                }
            }
            if x == a {
                assert(tail.to_set().insert(a).contains(a));
                assert(rest.to_set().contains(a));
                let q = choose|q: int| 0 <= q < rest.len() && rest[q] == a;
                assert(r[q + 1] == a);
            }
        }
        assert(r.to_set() =~= l.to_set().insert(a));
        r
    }
}

/// Every finite set of texts has an ascending list of its elements.
pub proof fn lemma_sorted_exists(s: Set<Seq<char>>) -> (l: Seq<Seq<char>>)
    requires
        s.finite(),
    ensures
        strictly_sorted(l),
        l.to_set() == s,
    decreases s.len(),
{
    if s.len() == 0 {
        vstd::set_lib::lemma_set_empty_equivalency_len(s);
        let l = Seq::<Seq<char>>::empty();
        assert(l.to_set() =~= s);
        l
    } else {
        let a = s.choose();
        vstd::set::axiom_set_choose_len(s);
        let l0 = lemma_sorted_exists(s.remove(a));
        assert(!l0.contains(a)) by {
            if l0.contains(a) {
                assert(l0.to_set().contains(a));
            }
        }
        let l = lemma_insert_in_order(l0, a);
        assert(s.remove(a).insert(a) =~= s);
        l
    }
}

/// The ascending list of a finite set is strictly sorted and holds exactly its elements.
pub proof fn lemma_sorted_list_facts(s: Set<Seq<char>>)
    requires
        s.finite(),
    ensures
        strictly_sorted(sorted_list(s)),
        sorted_list(s).to_set() == s,
{
    let l = lemma_sorted_exists(s);
    assert(strictly_sorted(l) && l.to_set() == s);
}

/// A strictly sorted list is the ascending list of its elements.
pub proof fn lemma_sorted_list(l: Seq<Seq<char>>)
    requires
        strictly_sorted(l),
    ensures
        sorted_list(l.to_set()) == l,
{
    let s = l.to_set();
    assert(strictly_sorted(l) && l.to_set() == s);
    let c = sorted_list(s);
    lemma_sorted_unique(c, l);
}

/// Inserts a text into a strictly sorted list unless it is already there.
pub fn insert_sorted(list: &mut Vec<Vec<char>>, x: Vec<char>)
    requires
        strictly_sorted(views(old(list)@)),
    ensures
        strictly_sorted(views(final(list)@)),
        views(final(list)@).to_set() == views(old(list)@).to_set().insert(x@),
{
    let ghost m0 = views(list@);
    let ghost xm = x@;
    let mut p: usize = 0;
    loop
        invariant
            p <= list.len(),
            m0 == views(list@),
            xm == x@,
            strictly_sorted(m0),
            forall|j: int| 0 <= j < p ==> text_order(xm, #[trigger] m0[j]) > 0,
        ensures
            p <= list.len(),
            m0 == views(list@),
            xm == x@,
            forall|j: int| 0 <= j < p ==> text_order(xm, #[trigger] m0[j]) > 0,
            p == list.len() || text_order(xm, m0[p as int]) < 0,
        decreases list.len() - p,
    {
        if p == list.len() {
            break;
        }
        let c = compare_text(&x, &list[p]);
        if c == 0 {
            proof {
                lemma_text_order_antisym(xm, m0[p as int]);
                assert(m0.to_set().insert(xm) =~= m0.to_set());
            }
            return;
        }
        if c < 0 {
            break;
        }
        p = p + 1;
    }
    list.insert(p, x);
    let ghost m1 = views(list@);
    assert(m1 =~= m0.insert(p as int, xm));
    assert forall|i: int, j: int| 0 <= i < j < m1.len() implies text_lt(
        #[trigger] m1[i],
        #[trigger] m1[j],
    ) by {
        if j < p {
        } else if j == p {
            lemma_text_order_antisym(xm, m0[i]);
        } else if i < p {
            assert(m1[j] == m0[j - 1]);
        } else if i == p {
            if j - 1 > p {
                lemma_text_lt_trans(xm, m0[p as int], m0[j - 1]);
            }
        } else {
            assert(m1[i] == m0[i - 1]);
            assert(m1[j] == m0[j - 1]);
        }
    }
    proof {
        crate::extract::lemma_insert_to_set(m0, p as int, xm);
    }
}

} // verus!
