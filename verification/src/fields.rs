//! Field-set synthesis: from the full occurrence list to the unique field
//! names of the generated record, in first-seen order. Deduplication is
//! deliberate: a template may repeat a placeholder, but the synthesized
//! record holds each field exactly once.

use vstd::prelude::*;
use crate::extract::{Occurrence, OccurrenceView, occs_view};

verus! {

/// The field names of a sequence of occurrences, in scan order.
pub open spec fn names_of(occs: Seq<OccurrenceView>) -> Seq<Seq<char>> {
    occs.map_values(|o: OccurrenceView| o.field_name)
}

/// The views of a sequence of strings.
pub open spec fn strings_view(s: Seq<String>) -> Seq<Seq<char>> {
    s.map_values(|x: String| x@)
}

/// The unique values of `names`, each kept at its first appearance, in
/// first-seen order.
pub open spec fn first_seen(names: Seq<Seq<char>>) -> Seq<Seq<char>>
    decreases names.len(),
{
    if names.len() == 0 {
        Seq::empty()
    } else {
        let prev = first_seen(names.drop_last());
        if prev.contains(names.last()) {
            prev
        } else {
            prev.push(names.last())
        }
    }
}

/// The position of the first appearance of `x` in `names`.
pub open spec fn first_index(names: Seq<Seq<char>>, x: Seq<char>) -> int
    decreases names.len(),
{
    if names.len() == 0 {
        0
    } else if names[0] == x {
        0
    } else {
        1 + first_index(names.skip(1), x)
    }
}

/// What `first_index` finds: the position holds `x` and no earlier one
/// does.
pub proof fn lemma_first_index_of(names: Seq<Seq<char>>, x: Seq<char>)
    requires
        names.contains(x),
    ensures
        0 <= first_index(names, x) < names.len(),
        names[first_index(names, x)] == x,
        forall|d: int| 0 <= d < first_index(names, x) ==> names[d] != x,
    decreases names.len(),
{
    if names.len() > 0 && names[0] != x {
        assert(names.skip(1).contains(x)) by {
            let w = choose|w: int| 0 <= w < names.len() && names[w] == x;
            assert(names.skip(1)[w - 1] == x);
        }
        lemma_first_index_of(names.skip(1), x);
        assert forall|d: int| 0 <= d < first_index(names, x) implies names[d] != x by {
            if d > 0 {
                assert(names.skip(1)[d - 1] == names[d]);
            }
        }
    }
}

/// Dropping the last name moves no earlier first appearance.
pub proof fn lemma_first_index_extend(names: Seq<Seq<char>>, x: Seq<char>)
    requires
        names.len() > 0,
        names.drop_last().contains(x),
    ensures
        first_index(names, x) == first_index(names.drop_last(), x),
{
    let d = names.drop_last();
    assert(names.contains(x)) by {
        let w = choose|w: int| 0 <= w < d.len() && d[w] == x;
        assert(names[w] == x);
    }
    lemma_first_index_of(names, x);
    lemma_first_index_of(d, x);
    let fd = first_index(d, x);
    assert(names[fd] == x);
    if first_index(names, x) < fd {
        assert(d[first_index(names, x)] == x);
    }
}

/// The field set and the scan's name list hold the same names.
pub proof fn lemma_field_set_complete(names: Seq<Seq<char>>)
    ensures
        forall|x: Seq<char>| #[trigger] first_seen(names).contains(x) <==> names.contains(x),
    decreases names.len(),
{
    if names.len() > 0 {
        let d = names.drop_last();
        lemma_field_set_complete(d);
        assert forall|x: Seq<char>| #[trigger] first_seen(names).contains(x) <==> names.contains(
            x,
        ) by {
            let fs = first_seen(names);
            if fs.contains(x) {
                let w = choose|w: int| 0 <= w < fs.len() && fs[w] == x;
                if first_seen(d).contains(names.last()) || w < first_seen(d).len() {
                    assert(first_seen(d)[w] == x);
                    assert(first_seen(d).contains(x));
                    let v = choose|v: int| 0 <= v < d.len() && d[v] == x;
                    assert(names[v] == x);
                } else {
                    assert(x == names.last());
                    assert(names[names.len() - 1] == x);
                }
                assert(names.contains(x));
            }
            if names.contains(x) {
                let w = choose|w: int| 0 <= w < names.len() && names[w] == x;
                if w < names.len() - 1 {
                    assert(d[w] == x);
                    assert(d.contains(x));
                    assert(first_seen(d).contains(x));
                    let v = choose|v: int| 0 <= v < first_seen(d).len() && first_seen(d)[v] == x;
                    assert(first_seen(d)[v] == x);
                    assert(fs[v] == x);
                } else {
                    if first_seen(d).contains(names.last()) {
                        let v = choose|v: int|
                            0 <= v < first_seen(d).len() && first_seen(d)[v] == names.last();
                        assert(fs[v] == x);
                    } else {
                        assert(fs[fs.len() - 1] == x);
                    }
                }
                assert(fs.contains(x));
            }
        }
    }
}

/// No field name appears twice in the field set.
pub proof fn lemma_field_set_unique(names: Seq<Seq<char>>)
    ensures
        forall|p: int, q: int|
            0 <= p < q < first_seen(names).len() ==> first_seen(names)[p] != first_seen(
                names,
            )[q],
    decreases names.len(),
{
    if names.len() > 0 {
        let d = names.drop_last();
        lemma_field_set_unique(d);
        let prev = first_seen(d);
        if !prev.contains(names.last()) {
            let l = prev.len() as int;
            assert forall|p: int|
                0 <= p < prev.len() implies first_seen(names)[p] != first_seen(names)[l] by {
                if prev[p] == names.last() {
                    assert(prev.contains(names.last()));
                }
            }
        }
    }
}

/// The field set's order is first-appearance order: of two distinct fields,
/// the one whose placeholder the scan met first comes first. The order
/// depends on nothing but the name list.
pub proof fn lemma_field_set_first_seen_order(names: Seq<Seq<char>>)
    ensures
        forall|p: int, q: int|
            0 <= p < q < first_seen(names).len() ==> first_index(
                names,
                #[trigger] first_seen(names)[p],
            ) < first_index(names, #[trigger] first_seen(names)[q]),
    decreases names.len(),
{
    if names.len() > 0 {
        let d = names.drop_last();
        lemma_field_set_first_seen_order(d);
        lemma_field_set_complete(d);
        let prev = first_seen(d);
        let fs = first_seen(names);
        assert forall|p: int, q: int|
            0 <= p < q < fs.len() implies first_index(names, #[trigger] fs[p]) < first_index(
            names,
            #[trigger] fs[q],
        ) by {
            if q < prev.len() {
                assert(prev.contains(prev[p]));
                assert(prev.contains(prev[q]));
                lemma_first_index_extend(names, prev[p]);
                lemma_first_index_extend(names, prev[q]);
            } else {
                assert(!prev.contains(names.last()));
                assert(fs[q] == names.last());
                assert(prev[p] == fs[p]);
                assert(prev.contains(prev[p]));
                lemma_first_index_extend(names, prev[p]);
                lemma_first_index_of(d, prev[p]);
                assert(first_index(names, fs[p]) < d.len());
                assert(forall|k: int| 0 <= k < d.len() ==> #[trigger] names[k] != names.last())
                    by {
                    assert forall|k: int| 0 <= k < d.len() implies #[trigger] names[k]
                        != names.last() by {
                        if names[k] == names.last() {
                            assert(d[k] == names.last());
                            assert(d.contains(names.last()));
                        }
                    }
                }
                assert(names.contains(names.last())) by {
                    assert(names[names.len() - 1] == names.last());
                }
                lemma_first_index_of(names, names.last());
                if first_index(names, names.last()) < names.len() - 1 {
                    assert(names[first_index(names, names.last())] == names.last());
                }
                assert(first_index(names, fs[q]) == names.len() - 1);
            }
        }
    }
}

/// The field set is a pure function of the name list: equal lists (in
/// particular, two runs over the same template) give equal field sets.
pub proof fn lemma_field_set_deterministic(n1: Seq<Seq<char>>, n2: Seq<Seq<char>>)
    requires
        n1 == n2,
    ensures
        first_seen(n1) == first_seen(n2),
{
}

/// Whether some string of `v` reads `s`.
fn contains_string(v: &Vec<String>, s: &String) -> (r: bool)
    ensures
        r == strings_view(v@).contains(s@),
{
    let n = v.len();
    let mut idx: usize = 0;
    while idx < n
        invariant
            idx <= n,
            n == v@.len(),
            forall|d: int| 0 <= d < idx ==> #[trigger] v@[d]@ != s@,
        decreases n - idx,
    {
        if v[idx].eq(s) {
            proof {
                assert(strings_view(v@)[idx as int] == s@);
            }
            return true;
        }
        idx = idx + 1;
    }
    proof {
        assert forall|w: int| 0 <= w < strings_view(v@).len() implies strings_view(v@)[w] != s@ by {
            assert(v@[w]@ != s@);
        }
    }
    false
}

/// Computes the field set of an occurrence list: the unique field names in
/// first-seen order.
pub fn field_set(occs: &Vec<Occurrence>) -> (r: Vec<String>)
    ensures
        strings_view(r@) == first_seen(names_of(occs_view(occs@))),
{
    let ghost names = names_of(occs_view(occs@));
    let n = occs.len();
    let mut out: Vec<String> = Vec::new();
    proof {
        assert(names.take(0) =~= Seq::<Seq<char>>::empty());
        assert(strings_view(out@) =~= first_seen(names.take(0)));
    }
    let mut idx: usize = 0;
    while idx < n
        invariant
            idx <= n,
            n == occs@.len(),
            names == names_of(occs_view(occs@)),
            names.len() == n,
            strings_view(out@) == first_seen(names.take(idx as int)),
        decreases n - idx,
    {
        let ghost out0 = out@;
        let name = &occs[idx].field_name;
        proof {
            assert(names.take(idx as int + 1).drop_last() =~= names.take(idx as int));
            assert(names.take(idx as int + 1).last() == name@);
        }
        if !contains_string(&out, name) {
            out.push(name.clone());
            proof {
                assert(strings_view(out@) =~= strings_view(out0).push(name@));
            }
        }
        idx = idx + 1;
    }
    proof {
        assert(names.take(n as int) =~= names);
    }
    out
}

} // verus!
