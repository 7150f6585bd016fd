//! Lists of texts in dictionary order, each text once.
use vstd::prelude::*;

use crate::text;
use crate::text::chars_of;

verus! {

/// Dictionary order by code points, which is the order of the UTF-8 bytes.
pub open spec fn precedes(a: Seq<char>, b: Seq<char>) -> bool
    decreases a.len(),
{
    if b.len() == 0 {
        false
    } else if a.len() == 0 {
        true
    } else if a[0] != b[0] {
        a[0] < b[0]
    } else {
        precedes(a.drop_first(), b.drop_first())
    }
}

/// Whether a list is in dictionary order with no text twice.
pub open spec fn ordered(list: Seq<Seq<char>>) -> bool {
    forall|i: int, j: int| 0 <= i < j < list.len() ==> precedes(#[trigger] list[i], #[trigger] list[j])
}

/// No text precedes itself.
pub proof fn lemma_irreflexive(a: Seq<char>)
    ensures
        !precedes(a, a),
    decreases a.len(),
{
    if a.len() > 0 {
        lemma_irreflexive(a.drop_first());
    }
}

/// Of two different texts one precedes the other.
pub proof fn lemma_total(a: Seq<char>, b: Seq<char>)
    requires
        a != b,
    ensures
        precedes(a, b) || precedes(b, a),
    decreases a.len(),
{
    if a.len() == 0 || b.len() == 0 {
        assert(a.len() != b.len() || a =~= b);
    } else if a[0] == b[0] {
        if a.drop_first() == b.drop_first() {
            assert(a =~= seq![a[0]] + a.drop_first());
            assert(b =~= seq![b[0]] + b.drop_first());
        }
        lemma_total(a.drop_first(), b.drop_first());
    }
}

/// Dictionary order is transitive.
pub proof fn lemma_transitive(a: Seq<char>, b: Seq<char>, c: Seq<char>)
    requires
        precedes(a, b),
        precedes(b, c),
    ensures
        precedes(a, c),
    decreases a.len(),
{
    if a.len() > 0 && a[0] == b[0] && b[0] == c[0] {
        lemma_transitive(a.drop_first(), b.drop_first(), c.drop_first());
    }
}

/// Two lists in dictionary order with the same texts are the same list.
pub proof fn lemma_ordered_unique(a: Seq<Seq<char>>, b: Seq<Seq<char>>)
    requires
        ordered(a),
        ordered(b),
        forall|t: Seq<char>| a.contains(t) <==> b.contains(t),
    ensures
        a == b,
    decreases a.len(),
{
    if a.len() == 0 {
        if b.len() > 0 {
            assert(b.contains(b[0]));
        }
        assert(a =~= b);
    } else {
        assert(a.contains(a[0]));
        assert(b.contains(a[0]));
        let k = choose|k: int| 0 <= k < b.len() && b[k] == a[0];
        assert(b.contains(b[0]));
        assert(a.contains(b[0]));
        let m = choose|m: int| 0 <= m < a.len() && a[m] == b[0];
        if a[0] != b[0] {
            assert(precedes(b[0], b[k]));
            assert(precedes(a[0], a[m]));
            lemma_transitive(a[0], b[0], a[0]);
            lemma_irreflexive(a[0]);
        }
        let x = a.drop_first();
        let y = b.drop_first();
        assert(ordered(x)) by {
            assert forall|i: int, j: int| 0 <= i < j < x.len() implies precedes(
                #[trigger] x[i],
                #[trigger] x[j],
            ) by {
                assert(precedes(a[i + 1], a[j + 1]));
            }
        }
        assert(ordered(y)) by {
            assert forall|i: int, j: int| 0 <= i < j < y.len() implies precedes(
                #[trigger] y[i],
                #[trigger] y[j],
            ) by {
                assert(precedes(b[i + 1], b[j + 1]));
            }
        }
        assert forall|t: Seq<char>| x.contains(t) <==> y.contains(t) by {
            if x.contains(t) {
                let i = choose|i: int| 0 <= i < x.len() && x[i] == t;
                assert(a[i + 1] == t);
                assert(precedes(a[0], a[i + 1]));
                lemma_irreflexive(t);
                assert(b.contains(t));
                let j = choose|j: int| 0 <= j < b.len() && b[j] == t;
                assert(y[j - 1] == t);
            }
            if y.contains(t) {
                let i = choose|i: int| 0 <= i < y.len() && y[i] == t;
                assert(b[i + 1] == t);
                assert(precedes(b[0], b[i + 1]));
                lemma_irreflexive(t);
                assert(a.contains(t));
                let j = choose|j: int| 0 <= j < a.len() && a[j] == t;
                assert(x[j - 1] == t);
            }
        }
        lemma_ordered_unique(x, y);
        assert(a =~= seq![a[0]] + x);
        assert(b =~= seq![b[0]] + y);
    }
}

/// The place of one text relative to another.
#[derive(PartialEq, Eq, Structural)]
pub enum Place {
    Before,
    Equal,
    After,
}

/// The place of `a` relative to `b`.
pub fn place_of(a: &str, b: &str) -> (r: Place)
    ensures
        r == Place::Before <==> precedes(a@, b@),
        r == Place::Equal <==> a@ == b@,
        r == Place::After <==> precedes(b@, a@),
{
    let x: Vec<char> = chars_of(a);
    let y: Vec<char> = chars_of(b);
    let mut i: usize = 0;
    assert(a@.skip(0) =~= a@);
    assert(b@.skip(0) =~= b@);
    proof {
        lemma_irreflexive(a@);
    }
    while i < x.len() && i < y.len()
        invariant
            i <= x@.len(),
            i <= y@.len(),
            x@ == a@,
            y@ == b@,
            !precedes(a@, a@),
            forall|j: int| 0 <= j < i ==> a@[j] == b@[j],
            precedes(a@, b@) == precedes(a@.skip(i as int), b@.skip(i as int)),
            precedes(b@, a@) == precedes(b@.skip(i as int), a@.skip(i as int)),
        decreases x@.len() - i,
    {
        let c: char = x[i];
        let d: char = y[i];
        if c < d {
            return Place::Before;
        }
        if c > d {
            return Place::After;
        }
        assert(a@.skip(i as int).drop_first() =~= a@.skip(i + 1));
        assert(b@.skip(i as int).drop_first() =~= b@.skip(i + 1));
        i = i + 1;
    }
    if x.len() == y.len() {
        assert(a@ =~= b@);
        Place::Equal
    } else if i == x.len() {
        Place::Before
    } else {
        Place::After
    }
}

/// Puts `item` into a list in dictionary order, unless it is already there.
pub fn insert_ordered(list: &mut Vec<String>, item: String)
    requires
        ordered(text::views(old(list)@)),
    ensures
        ordered(text::views(final(list)@)),
        forall|t: Seq<char>| #[trigger]
            text::views(final(list)@).contains(t) <==> text::views(old(list)@).contains(t) || t == item@,
{
    let ghost before = text::views(list@);
    let ghost added = item@;
    let mut i: usize = 0;
    while i < list.len()
        invariant
            i <= list@.len(),
            before == text::views(list@),
            ordered(before),
            added == item@,
            forall|j: int| 0 <= j < i ==> precedes(#[trigger] before[j], added),
        ensures
            i <= list@.len(),
            before == text::views(list@),
            added == item@,
            forall|j: int| 0 <= j < i ==> precedes(#[trigger] before[j], added),
            i < before.len() ==> precedes(added, before[i as int]),
        decreases list@.len() - i,
    {
        match place_of(item.as_str(), list[i].as_str()) {
            Place::Equal => {
                assert(before[i as int] == added);
                return ;
            },
            Place::Before => {
                assert(precedes(added, before[i as int]));
                break ;
            },
            Place::After => {},
        }
        assert(precedes(before[i as int], added));
        i = i + 1;
    }
    list.insert(i, item);
    let ghost after = text::views(list@);
    proof {
        assert(after =~= before.insert(i as int, added));
        assert forall|k: int, m: int| 0 <= k < m < after.len() implies precedes(
            #[trigger] after[k],
            #[trigger] after[m],
        ) by {
            if m == i {
                assert(after[k] == before[k]);
            } else if k == i {
                assert(after[m] == before[m - 1]);
                if m - 1 > i {
                    assert(precedes(before[i as int], before[m - 1]));
                    lemma_transitive(added, before[i as int], before[m - 1]);
                }
            } else {
                let a = if k < i { k } else { k - 1 };
                let b = if m < i { m } else { m - 1 };
                assert(after[k] == before[a]);
                assert(after[m] == before[b]);
                assert(precedes(before[a], before[b]));
            }
        }
        assert forall|t: Seq<char>| after.contains(t) <==> before.contains(t) || t == added by {
            if after.contains(t) {
                let k = choose|k: int| 0 <= k < after.len() && after[k] == t;
                if k < i {
                    assert(before[k] == t);
                } else if k > i {
                    assert(before[k - 1] == t);
                }
            }
            if before.contains(t) {
                let k = choose|k: int| 0 <= k < before.len() && before[k] == t;
                if k < i {
                    assert(after[k] == t);
                } else {
                    assert(after[k + 1] == t);
                }
            }
            assert(after[i as int] == added);
        }
    }
}

/// Whether a list holds the texts of another in dictionary order, each once.
pub open spec fn is_sorted_set(sorted: Seq<Seq<char>>, list: Seq<Seq<char>>) -> bool {
    ordered(sorted) && forall|t: Seq<char>| #[trigger] sorted.contains(t) <==> list.contains(t)
}

/// The texts of a list in dictionary order, each once.
pub open spec fn sorted_set(list: Seq<Seq<char>>) -> Seq<Seq<char>> {
    choose|sorted: Seq<Seq<char>>| is_sorted_set(sorted, list)
}

/// There is one list that holds the texts of another in dictionary order, each once.
pub proof fn lemma_sorted_set(sorted: Seq<Seq<char>>, list: Seq<Seq<char>>)
    requires
        is_sorted_set(sorted, list),
    ensures
        sorted == sorted_set(list),
{
    let chosen = sorted_set(list);
    assert(is_sorted_set(chosen, list));
    assert forall|t: Seq<char>| sorted.contains(t) <==> chosen.contains(t) by {
        assert(sorted.contains(t) <==> list.contains(t));
        assert(chosen.contains(t) <==> list.contains(t));
    }
    lemma_ordered_unique(sorted, chosen);
}

/// The texts of `list` in dictionary order, each once.
pub fn sort_unique(list: &Vec<String>) -> (r: Vec<String>)
    ensures
        ordered(text::views(r@)),
        forall|t: Seq<char>| text::views(r@).contains(t) <==> text::views(list@).contains(t),
{
    let mut r: Vec<String> = Vec::new();
    let mut i: usize = 0;
    while i < list.len()
        invariant
            i <= list@.len(),
            ordered(text::views(r@)),
            forall|t: Seq<char>|
                text::views(r@).contains(t) <==> text::views(list@.take(i as int)).contains(t),
        decreases list@.len() - i,
    {
        let ghost before = text::views(list@.take(i as int));
        let ghost held = text::views(r@);
        insert_ordered(&mut r, list[i].clone());
        i = i + 1;
        proof {
            let after = text::views(list@.take(i as int));
            assert(after =~= before.push(list@[i - 1]@));
            assert forall|t: Seq<char>| text::views(r@).contains(t) <==> after.contains(t) by {
                if before.contains(t) {
                    let k = choose|k: int| 0 <= k < before.len() && before[k] == t;
                    assert(after[k] == t);
                }
                assert(after[i - 1] == list@[i - 1]@);
                if after.contains(t) {
                    let k = choose|k: int| 0 <= k < after.len() && after[k] == t;
                    if k < i - 1 {
                        assert(before[k] == t);
                    }
                }
            }
        }
    }
    assert(list@.take(i as int) =~= list@);
    r
}

proof fn lemma_inserted(list: Seq<Seq<char>>, item: Seq<char>) -> (r: Seq<Seq<char>>)
    requires
        ordered(list),
    ensures
        ordered(r),
        forall|t: Seq<char>| #[trigger] r.contains(t) <==> list.contains(t) || t == item,
    decreases list.len(),
{
    if list.len() == 0 {
        let r = seq![item];
        assert(r[0] == item);
        r
    } else if list.last() == item {
        list
    } else if precedes(list.last(), item) {
        let r = list.push(item);
        assert forall|i: int, j: int| 0 <= i < j < r.len() implies precedes(
            #[trigger] r[i],
            #[trigger] r[j],
        ) by {
            if j == list.len() && i < list.len() - 1 {
                assert(precedes(list[i], list[list.len() - 1]));
                lemma_transitive(list[i], list.last(), item);
            }
        }
        assert forall|t: Seq<char>| #[trigger] r.contains(t) <==> list.contains(t) || t
            == item by {
            if list.contains(t) {
                let k = choose|k: int| 0 <= k < list.len() && list[k] == t;
                assert(r[k] == t);
            }
            assert(r[list.len() as int] == item);
        }
        r
    } else {
        lemma_total(list.last(), item);
        let rest = list.drop_last();
        assert(ordered(rest));
        let before = lemma_inserted(rest, item);
        let r = before.push(list.last());
        assert forall|i: int, j: int| 0 <= i < j < r.len() implies precedes(
            #[trigger] r[i],
            #[trigger] r[j],
        ) by {
            if j == before.len() {
                assert(before.contains(before[i]));
                if before[i] != item {
                    assert(rest.contains(before[i]));
                    let k = choose|k: int| 0 <= k < rest.len() && rest[k] == before[i];
                    assert(precedes(list[k], list[list.len() - 1]));
                }
            }
        }
        assert forall|t: Seq<char>| #[trigger] r.contains(t) <==> list.contains(t) || t
            == item by {
            if r.contains(t) {
                let k = choose|k: int| 0 <= k < r.len() && r[k] == t;
                if k < before.len() {
                    assert(before[k] == t);
                    assert(before.contains(t));
                    if rest.contains(t) {
                        let m = choose|m: int| 0 <= m < rest.len() && rest[m] == t;
                        assert(list[m] == t);
                    }
                } else {
                    assert(list[list.len() - 1] == t);
                }
            }
            if list.contains(t) || t == item {
                if list.last() == t {
                    assert(r[before.len() as int] == t);
                } else {
                    if list.contains(t) {
                        let m = choose|m: int| 0 <= m < list.len() && list[m] == t;
                        assert(rest[m] == t);
                    }
                    assert(before.contains(t));
                    let k = choose|k: int| 0 <= k < before.len() && before[k] == t;
                    assert(r[k] == t);
                }
            }
        }
        r
    }
}

proof fn lemma_some_sorted_set(list: Seq<Seq<char>>) -> (r: Seq<Seq<char>>)
    ensures
        is_sorted_set(r, list),
    decreases list.len(),
{
    if list.len() == 0 {
        list
    } else {
        let before = lemma_some_sorted_set(list.drop_last());
        let r = lemma_inserted(before, list.last());
        assert forall|t: Seq<char>| #[trigger] r.contains(t) <==> list.contains(t) by {
            if list.contains(t) && t != list.last() {
                let k = choose|k: int| 0 <= k < list.len() && list[k] == t;
                assert(list.drop_last()[k] == t);
            }
            if list.drop_last().contains(t) {
                let k = choose|k: int|
                    0 <= k < list.drop_last().len() && list.drop_last()[k] == t;
                assert(list[k] == t);
            }
            assert(list[list.len() - 1] == list.last());
        }
        r
    }
}

/// Every list has one sorted set, which holds its items in order and each once.
pub proof fn lists_have_a_sorted_set(list: Seq<Seq<char>>)
    ensures
        ordered(sorted_set(list)),
        sorted_set(list).no_duplicates(),
        forall|t: Seq<char>| #[trigger] sorted_set(list).contains(t) <==> list.contains(t),
{
    let r = lemma_some_sorted_set(list);
    lemma_sorted_set(r, list);
    assert forall|i: int, j: int| 0 <= i < r.len() && 0 <= j < r.len() && i != j implies r[i]
        != r[j] by {
        lemma_irreflexive(r[i]);
        if i < j {
            assert(precedes(r[i], r[j]));
        } else {
            assert(precedes(r[j], r[i]));
        }
    }
}

/// The order is that of the first characters in which two texts differ; a text comes after its
/// beginnings.
pub proof fn texts_are_ordered_by_their_first_difference(a: Seq<char>, b: Seq<char>, k: int)
    requires
        0 <= k <= a.len(),
        k <= b.len(),
        a.take(k) == b.take(k),
    ensures
        k < a.len() && k < b.len() && a[k] != b[k] ==> (precedes(a, b) <==> a[k] < b[k]),
        k == a.len() && k < b.len() ==> precedes(a, b),
        k == b.len() ==> !precedes(a, b),
    decreases k,
{
    if k > 0 {
        assert(a[0] == a.take(k)[0] && b[0] == b.take(k)[0]);
        assert(a.drop_first().take(k - 1) =~= a.take(k).drop_first());
        assert(b.drop_first().take(k - 1) =~= b.take(k).drop_first());
        texts_are_ordered_by_their_first_difference(a.drop_first(), b.drop_first(), k - 1);
    }
}

} // verus!
