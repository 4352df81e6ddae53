//! What the dependency checker reports: the names it found or missed, in
//! the order of their characters, each once.

use vstd::prelude::*;

use crate::paths::string_views;
use crate::text::chars_of;

verus! {

/// `a` comes before `b` when their characters are compared in turn: at the
/// first place where they differ the smaller character decides, and a proper
/// prefix comes first.
pub open spec fn text_lt(a: Seq<char>, b: Seq<char>) -> bool
    decreases a.len(),
{
    if a.len() == 0 {
        b.len() > 0
    } else if b.len() == 0 {
        false
    } else if a[0] != b[0] {
        a[0] < b[0]
    } else {
        text_lt(a.drop_first(), b.drop_first())
    }
}

/// No text comes before itself.
pub proof fn lemma_text_lt_irreflexive(a: Seq<char>)
    ensures
        !text_lt(a, a),
    decreases a.len(),
{
    if a.len() > 0 {
        lemma_text_lt_irreflexive(a.drop_first());
    }
}

/// The order of texts is transitive.
pub proof fn lemma_text_lt_transitive(a: Seq<char>, b: Seq<char>, c: Seq<char>)
    requires
        text_lt(a, b),
        text_lt(b, c),
    ensures
        text_lt(a, c),
    decreases a.len(),
{
    if a.len() > 0 && b.len() > 0 && c.len() > 0 && a[0] == b[0] && b[0] == c[0] {
        lemma_text_lt_transitive(a.drop_first(), b.drop_first(), c.drop_first());
    }
}

/// Of two different texts, one comes before the other.
pub proof fn lemma_text_lt_total(a: Seq<char>, b: Seq<char>)
    requires
        a != b,
    ensures
        text_lt(a, b) || text_lt(b, a),
    decreases a.len(),
{
    if a.len() > 0 && b.len() > 0 && a[0] == b[0] {
        if a.drop_first() == b.drop_first() {
            assert(a =~= seq![a[0]] + a.drop_first());
            assert(b =~= seq![b[0]] + b.drop_first());
        }
        lemma_text_lt_total(a.drop_first(), b.drop_first());
    } else if a.len() == 0 && b.len() == 0 {
        assert(a =~= b);
    }
}

/// Whether `a` comes before `b` in the order of their characters.
pub fn text_less(a: &str, b: &str) -> (r: bool)
    ensures
        r == text_lt(a@, b@),
{
    let x = chars_of(a);
    let y = chars_of(b);
    let mut k: usize = 0;
    proof {
        assert(a@.skip(0) =~= a@);
        assert(b@.skip(0) =~= b@);
    }
    while k < x.len() && k < y.len()
        invariant
            k <= x@.len(),
            k <= y@.len(),
            x@ == a@,
            y@ == b@,
            text_lt(a@, b@) == text_lt(a@.skip(k as int), b@.skip(k as int)),
        decreases x@.len() - k,
    {
        let c = x[k];
        let d = y[k];
        proof {
            assert(a@.skip(k as int)[0] == c);
            assert(b@.skip(k as int)[0] == d);
        }
        if c != d {
            return c < d;
        }
        proof {
            assert(a@.skip(k as int).drop_first() =~= a@.skip(k + 1));
            assert(b@.skip(k as int).drop_first() =~= b@.skip(k + 1));
        }
        k = k + 1;
    }
    k < y.len()
}

/// A sequence with one more element holds what it held, and that element.
pub proof fn lemma_push_contains(s: Seq<Seq<char>>, v: Seq<char>, x: Seq<char>)
    ensures
        s.push(v).contains(x) <==> (s.contains(x) || x == v),
{
    if s.push(v).contains(x) {
        let p = choose|p: int| 0 <= p < s.push(v).len() && s.push(v)[p] == x;
        if p < s.len() {
            assert(s[p] == x);
        }
    }
    if s.contains(x) {
        let p = choose|p: int| 0 <= p < s.len() && s[p] == x;
        assert(s.push(v)[p] == x);
    }
    if x == v {
        assert(s.push(v)[s.len() as int] == x);
    }
}

/// Every text of `s` comes before every later one: `s` is in order and
/// holds no text twice.
pub open spec fn strictly_sorted(s: Seq<Seq<char>>) -> bool {
    forall|i: int, j: int| 0 <= i < j < s.len() ==> text_lt(#[trigger] s[i], #[trigger] s[j])
}

/// The names of `names`, each once, in the order of their characters.
pub fn sorted_names(names: &Vec<String>) -> (r: Vec<String>)
    ensures
        strictly_sorted(string_views(r@)),
        forall|x: Seq<char>| string_views(r@).contains(x) <==> string_views(names@).contains(x),
{
    let mut result: Vec<String> = Vec::new();
    let mut i: usize = 0;
    proof {
        assert(string_views(result@) =~= Seq::<Seq<char>>::empty());
        assert(string_views(names@.take(0)) =~= Seq::<Seq<char>>::empty());
    }
    while i < names.len()
        invariant
            i <= names@.len(),
            strictly_sorted(string_views(result@)),
            forall|x: Seq<char>|
                string_views(result@).contains(x) <==> string_views(names@.take(i as int)).contains(x),
        decreases names@.len() - i,
    {
        let name = &names[i];
        let ghost before = string_views(result@);
        let mut j: usize = 0;
        while j < result.len() && text_less(result[j].as_str(), name.as_str())
            invariant
                j <= result@.len(),
                before == string_views(result@),
                forall|m: int| 0 <= m < j ==> text_lt(#[trigger] before[m], name@),
            decreases result@.len() - j,
        {
            j = j + 1;
        }
        proof {
            assert(string_views(names@.take(i + 1)) =~= string_views(names@.take(i as int)).push(name@));
        }
        if j < result.len() && result[j] == *name {
            proof {
                assert(before[j as int] == name@);
                assert forall|x: Seq<char>|
                    string_views(result@).contains(x) <==> string_views(names@.take(i + 1)).contains(x) by {
                    lemma_push_contains(string_views(names@.take(i as int)), name@, x);
                    if x == name@ {
                        assert(before.contains(x));
                    }
                }
            }
        } else {
            proof {
                if j < before.len() {
                    lemma_text_lt_total(before[j as int], name@);
                }
            }
            result.insert(j, name.clone());
            proof {
                let after = string_views(result@);
                assert(after =~= before.insert(j as int, name@));
                assert forall|a: int, b: int| 0 <= a < b < after.len() implies text_lt(
                    #[trigger] after[a],
                    #[trigger] after[b],
                ) by {
                    if b < j {
                        assert(after[a] == before[a] && after[b] == before[b]);
                    } else if b == j {
                        assert(after[a] == before[a]);
                    } else if a < j {
                        assert(after[a] == before[a] && after[b] == before[b - 1]);
                        assert(text_lt(before[a], name@));
                        assert(text_lt(name@, before[j as int]));
                        if b - 1 > j {
                            assert(text_lt(before[j as int], before[b - 1]));
                            lemma_text_lt_transitive(name@, before[j as int], before[b - 1]);
                        }
                        lemma_text_lt_transitive(before[a], name@, before[b - 1]);
                    } else if a == j {
                        assert(after[b] == before[b - 1]);
                        if b - 1 > j {
                            assert(text_lt(before[j as int], before[b - 1]));
                            lemma_text_lt_transitive(name@, before[j as int], before[b - 1]);
                        }
                    } else {
                        assert(after[a] == before[a - 1] && after[b] == before[b - 1]);
                    }
                }
                assert forall|x: Seq<char>|
                    after.contains(x) <==> string_views(names@.take(i + 1)).contains(x) by {
                    lemma_push_contains(string_views(names@.take(i as int)), name@, x);
                    if after.contains(x) {
                        let p = choose|p: int| 0 <= p < after.len() && after[p] == x;
                        if p < j {
                            assert(before[p] == x);
                        } else if p > j {
                            assert(before[p - 1] == x);
                        }
                    }
                    if before.contains(x) {
                        let p = choose|p: int| 0 <= p < before.len() && before[p] == x;
                        if p < j {
                            assert(after[p] == x);
                        } else {
                            assert(after[p + 1] == x);
                        }
                    }
                    if x == name@ {
                        assert(after[j as int] == x);
                    }
                }
            }
        }
        i = i + 1;
    }
    proof {
        assert(names@.take(names@.len() as int) =~= names@);
    }
    result
}

} // verus!
