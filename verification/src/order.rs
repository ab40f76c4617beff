//! The order in which `sort` puts strings, and sorted lists without
//! repeats: the form in which the command-line front end shows address and
//! filter lists.

use vstd::prelude::*;
use crate::text::chars_of;

verus! {

/// Code-point lexicographic order of texts. UTF-8 keeps code-point order,
/// so this is the byte order by which `String` compares.
pub open spec fn text_lt(a: Seq<char>, b: Seq<char>) -> bool
    decreases a.len(),
{
    if b.len() == 0 {
        false
    } else if a.len() == 0 {
        true
    } else if a[0] != b[0] {
        (a[0] as int) < (b[0] as int)
    } else {
        text_lt(a.drop_first(), b.drop_first())
    }
}

/// The views of a list of owned strings.
pub open spec fn views(v: Seq<String>) -> Seq<Seq<char>> {
    v.map_values(|s: String| s@)
}

/// Each text comes before every later one: sorted, and nothing twice.
pub open spec fn strictly_sorted(s: Seq<Seq<char>>) -> bool {
    forall|i: int, j: int| 0 <= i < j < s.len() ==> text_lt(#[trigger] s[i], #[trigger] s[j])
}

pub proof fn lemma_text_lt_irreflexive(a: Seq<char>)
    ensures
        !text_lt(a, a),
    decreases a.len(),
{
    if a.len() > 0 {
        lemma_text_lt_irreflexive(a.drop_first());
    }
}

pub proof fn lemma_text_lt_transitive(a: Seq<char>, b: Seq<char>, c: Seq<char>)
    requires
        text_lt(a, b),
        text_lt(b, c),
    ensures
        text_lt(a, c),
    decreases a.len(),
{
    if a.len() > 0 && a[0] == b[0] && b[0] == c[0] {
        lemma_text_lt_transitive(a.drop_first(), b.drop_first(), c.drop_first());
    }
}

pub proof fn lemma_text_lt_total(a: Seq<char>, b: Seq<char>)
    requires
        a != b,
    ensures
        text_lt(a, b) || text_lt(b, a),
    decreases a.len(),
{
    if a.len() > 0 && b.len() > 0 && a[0] == b[0] {
        if a.drop_first() == b.drop_first() {
            assert(a =~= seq![a[0]] + a.drop_first());
            assert(b =~= seq![b[0]] + b.drop_first());
        }
        lemma_text_lt_total(a.drop_first(), b.drop_first());
    } else if a.len() == 0 && b.len() == 0 {
        assert(a =~= b);
    } else if a.len() > 0 && b.len() > 0 {
        assert((a[0] as int) != (b[0] as int));
    }
}

pub proof fn lemma_text_lt_asymmetric(a: Seq<char>, b: Seq<char>)
    requires
        text_lt(a, b),
    ensures
        !text_lt(b, a),
{
    if text_lt(b, a) {
        lemma_text_lt_transitive(a, b, a);
        lemma_text_lt_irreflexive(a);
    }
}

/// Skipping a common prefix leaves the order of two texts unchanged.
proof fn lemma_text_lt_skip(a: Seq<char>, b: Seq<char>, k: int)
    requires
        0 <= k <= a.len(),
        k <= b.len(),
        forall|i: int| 0 <= i < k ==> a[i] == b[i],
    ensures
        text_lt(a, b) == text_lt(a.skip(k), b.skip(k)),
    decreases k,
{
    if k > 0 {
        lemma_text_lt_skip(a.drop_first(), b.drop_first(), k - 1);
        assert(a.drop_first().skip(k - 1) =~= a.skip(k));
        assert(b.drop_first().skip(k - 1) =~= b.skip(k));
    } else {
        assert(a.skip(0) =~= a);
        assert(b.skip(0) =~= b);
    }
}

/// Compares two texts in the order of `text_lt`, as `a < b` does on strings.
pub fn text_less(a: &str, b: &str) -> (r: bool)
    ensures
        r == text_lt(a@, b@),
{
    let x = chars_of(a);
    let y = chars_of(b);
    let mut k: usize = 0;
    while k < x.len() && k < y.len() && x[k] == y[k]
        invariant
            x@ == a@,
            y@ == b@,
            k <= x.len(),
            k <= y.len(),
            forall|i: int| 0 <= i < k ==> x@[i] == y@[i],
        decreases x.len() - k,
    {
        k = k + 1;
    }
    proof {
        lemma_text_lt_skip(x@, y@, k as int);
    }
    if k == y.len() {
        false
    } else if k == x.len() {
        true
    } else {
        proof {
            assert(x@.skip(k as int)[0] == x@[k as int]);
            assert(y@.skip(k as int)[0] == y@[k as int]);
            assert(x@[k as int] != y@[k as int]);
        }
        x[k] < y[k]
    }
}

/// Two sorted lists without repeats that hold the same texts are the same
/// list: the sorted, repeat-free form of a collection is determined by
/// which texts it holds.
pub proof fn law_sorted_form_unique(s: Seq<Seq<char>>, t: Seq<Seq<char>>)
    requires
        strictly_sorted(s),
        strictly_sorted(t),
        forall|x: Seq<char>| s.contains(x) <==> t.contains(x),
    ensures
        s == t,
    decreases s.len(),
{
    if s.len() == 0 {
        if t.len() > 0 {
            assert(t.contains(t[0]));
        }
        assert(s =~= t);
    } else {
        assert(s.contains(s[0]));
        assert(t.len() > 0);
        assert(t.contains(t[0]));
        let k = choose|k: int| 0 <= k < t.len() && t[k] == s[0];
        let m = choose|m: int| 0 <= m < s.len() && s[m] == t[0];
        if k > 0 {
            assert(text_lt(t[0], t[k]));
            if m > 0 {
                assert(text_lt(s[0], s[m]));
                lemma_text_lt_asymmetric(s[0], t[0]);
            } else {
                lemma_text_lt_irreflexive(s[0]);
            }
        }
        assert(s[0] == t[0]);
        let s1 = s.drop_first();
        let t1 = t.drop_first();
        assert forall|x: Seq<char>| s1.contains(x) implies t1.contains(x) by {
            let i = choose|i: int| 0 <= i < s1.len() && s1[i] == x;
            assert(s.contains(x) && s[i + 1] == x);
            let j = choose|j: int| 0 <= j < t.len() && t[j] == x;
            assert(text_lt(s[0], s[i + 1]));
            if j == 0 {
                lemma_text_lt_irreflexive(s[0]);
            }
            assert(t1[j - 1] == x);
        }
        assert forall|x: Seq<char>| t1.contains(x) implies s1.contains(x) by {
            let j = choose|j: int| 0 <= j < t1.len() && t1[j] == x;
            assert(t.contains(x) && t[j + 1] == x);
            let i = choose|i: int| 0 <= i < s.len() && s[i] == x;
            assert(text_lt(t[0], t[j + 1]));
            if i == 0 {
                lemma_text_lt_irreflexive(t[0]);
            }
            assert(s1[i - 1] == x);
        }
        assert forall|i: int, j: int| 0 <= i < j < s1.len() implies text_lt(#[trigger] s1[i], #[trigger] s1[j]) by {
            assert(s1[i] == s[i + 1] && s1[j] == s[j + 1]);
        }
        assert forall|i: int, j: int| 0 <= i < j < t1.len() implies text_lt(#[trigger] t1[i], #[trigger] t1[j]) by {
            assert(t1[i] == t[i + 1] && t1[j] == t[j + 1]);
        }
        law_sorted_form_unique(s1, t1);
        assert(s =~= seq![s[0]] + s1);
        assert(t =~= seq![t[0]] + t1);
    }
}

/// Puts `x` into a sorted list without repeats, where it belongs; a text
/// already there is not added again.
fn insert_sorted(r: &mut Vec<String>, x: String)
    requires
        strictly_sorted(views(old(r)@)),
    ensures
        strictly_sorted(views(final(r)@)),
        forall|t: Seq<char>| views(final(r)@).contains(t) <==> (views(old(r)@).contains(t) || t == x@),
{
    let ghost old_views = views(r@);
    let mut j: usize = 0;
    while j < r.len() && text_less(r[j].as_str(), x.as_str())
        invariant
            j <= r.len(),
            views(r@) == old_views,
            strictly_sorted(old_views),
            forall|i: int| 0 <= i < j ==> text_lt(#[trigger] old_views[i], x@),
        decreases r.len() - j,
    {
        j = j + 1;
    }
    if j < r.len() && r[j] == x {
        assert(old_views.contains(x@)) by {
            assert(old_views[j as int] == x@);
        }
        return;
    }
    proof {
        if j < r.len() {
            assert(!text_lt(old_views[j as int], x@));
            assert(old_views[j as int] != x@);
            lemma_text_lt_total(old_views[j as int], x@);
        }
    }
    let ghost xv = x@;
    r.insert(j, x);
    let ghost nv = views(r@);
    assert(nv =~= old_views.insert(j as int, xv));
    assert forall|a: int, b: int| 0 <= a < b < nv.len() implies text_lt(#[trigger] nv[a], #[trigger] nv[b]) by {
        if b < j {
        } else if a < j && b == j {
        } else if a < j {
            assert(nv[b] == old_views[b - 1]);
        } else if a == j {
            assert(nv[b] == old_views[b - 1]);
            if b - 1 > j {
                assert(text_lt(old_views[j as int], old_views[b - 1]));
                lemma_text_lt_transitive(xv, old_views[j as int], old_views[b - 1]);
            }
        } else {
            assert(nv[a] == old_views[a - 1] && nv[b] == old_views[b - 1]);
        }
    }
    assert forall|t: Seq<char>| nv.contains(t) <==> (old_views.contains(t) || t == xv) by {
        if nv.contains(t) {
            let i = choose|i: int| 0 <= i < nv.len() && nv[i] == t;
            if i < j {
                assert(old_views[i] == t);
            } else if i > j {
                assert(old_views[i - 1] == t);
            }
        }
        if old_views.contains(t) {
            let i = choose|i: int| 0 <= i < old_views.len() && old_views[i] == t;
            if i < j {
                assert(nv[i] == t);
            } else {
                assert(nv[i + 1] == t);
            }
        }
        if t == xv {
            assert(nv[j as int] == t);
        }
    }
}

/// The texts of `items`, sorted, each once: what `sort` then `dedup` leave
/// of a list of strings.
pub fn sorted_distinct(items: &Vec<String>) -> (r: Vec<String>)
    ensures
        strictly_sorted(views(r@)),
        forall|t: Seq<char>| views(r@).contains(t) <==> views(items@).contains(t),
{
    let mut r: Vec<String> = Vec::new();
    let mut i: usize = 0;
    while i < items.len()
        invariant
            i <= items.len(),
            strictly_sorted(views(r@)),
            forall|t: Seq<char>| views(r@).contains(t) <==> views(items@).take(i as int).contains(t),
        decreases items.len() - i,
    {
        let x = items[i].clone();
        insert_sorted(&mut r, x);
        proof {
            let before = views(items@).take(i as int);
            let after = views(items@).take(i + 1);
            assert(after =~= before.push(items@[i as int]@));
            assert forall|t: Seq<char>| after.contains(t) <==> (before.contains(t) || t == items@[i as int]@) by {
                if after.contains(t) {
                    let k = choose|k: int| 0 <= k < after.len() && after[k] == t;
                    if k < i {
                        assert(before[k] == t);
                    }
                }
                if before.contains(t) {
                    let k = choose|k: int| 0 <= k < before.len() && before[k] == t;
                    assert(after[k] == t);
                }
                if t == items@[i as int]@ {
                    assert(after[i as int] == t);
                }
            }
        }
        i = i + 1;
    }
    assert(views(items@).take(items.len() as int) =~= views(items@));
    r
}

} // verus!
