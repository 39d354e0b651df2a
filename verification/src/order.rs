//! Lexicographic order, and sorting by it.
use crate::text::chars_of;
use vstd::prelude::*;

verus! {

/// Whether `a` stands before `b` in lexicographic order, or is the same.
pub open spec fn lex_le(a: Seq<int>, b: Seq<int>) -> bool
    decreases a.len(),
{
    if a.len() == 0 {
        true
    } else if b.len() == 0 {
        false
    } else if a[0] != b[0] {
        a[0] < b[0]
    } else {
        lex_le(a.drop_first(), b.drop_first())
    }
}

/// The code points of a string.
pub open spec fn codes(s: Seq<char>) -> Seq<int> {
    Seq::new(s.len(), |i: int| s[i] as int)
}

/// The values of some bytes.
pub open spec fn values(s: Seq<u8>) -> Seq<int> {
    Seq::new(s.len(), |i: int| s[i] as int)
}

/// Whether the string `a` sorts before `b`, or is the same.
pub open spec fn text_le(a: Seq<char>, b: Seq<char>) -> bool {
    lex_le(codes(a), codes(b))
}

/// Whether the bytes `a` sort before `b`, or are the same.
pub open spec fn bytes_le(a: Seq<u8>, b: Seq<u8>) -> bool {
    lex_le(values(a), values(b))
}

/// Of two sequences at least one is below the other.
pub proof fn lemma_lex_total(a: Seq<int>, b: Seq<int>)
    ensures
        lex_le(a, b) || lex_le(b, a),
    decreases a.len(),
{
    if a.len() > 0 && b.len() > 0 {
        lemma_lex_total(a.drop_first(), b.drop_first());
    }
}

/// Two sequences that are each below the other are the same.
pub proof fn lemma_lex_antisymmetric(a: Seq<int>, b: Seq<int>)
    requires
        lex_le(a, b),
        lex_le(b, a),
    ensures
        a == b,
    decreases a.len(),
{
    if a.len() > 0 && b.len() > 0 {
        lemma_lex_antisymmetric(a.drop_first(), b.drop_first());
        assert(a =~= seq![a[0]] + a.drop_first());
        assert(b =~= seq![b[0]] + b.drop_first());
    } else {
        assert(a =~= b);
    }
}

/// The order is transitive.
pub proof fn lemma_lex_transitive(a: Seq<int>, b: Seq<int>, c: Seq<int>)
    requires
        lex_le(a, b),
        lex_le(b, c),
    ensures
        lex_le(a, c),
    decreases a.len(),
{
    if a.len() > 0 && a[0] == b[0] && b[0] == c[0] {
        lemma_lex_transitive(a.drop_first(), b.drop_first(), c.drop_first());
    }
}

/// Compares two strings.
pub fn text_at_most(a: &str, b: &str) -> (res: bool)
    ensures
        res == text_le(a@, b@),
{
    let x = chars_of(a);
    let y = chars_of(b);
    let mut i: usize = 0;
    assert(codes(a@).skip(0) =~= codes(a@));
    assert(codes(b@).skip(0) =~= codes(b@));
    while i < x.len() && i < y.len() && x[i] == y[i]
        invariant
            i <= x@.len(),
            i <= y@.len(),
            x@ == a@,
            y@ == b@,
            text_le(a@, b@) == lex_le(codes(a@).skip(i as int), codes(b@).skip(i as int)),
        decreases x@.len() - i,
    {
        assert(codes(a@).skip(i as int).drop_first() =~= codes(a@).skip(i + 1));
        assert(codes(b@).skip(i as int).drop_first() =~= codes(b@).skip(i + 1));
        i = i + 1;
    }
    if i == x.len() {
        true
    } else if i == y.len() {
        false
    } else {
        x[i] < y[i]
    }
}

/// Compares two byte strings.
pub fn bytes_at_most(a: &[u8], b: &[u8]) -> (res: bool)
    ensures
        res == bytes_le(a@, b@),
{
    let mut i: usize = 0;
    assert(values(a@).skip(0) =~= values(a@));
    assert(values(b@).skip(0) =~= values(b@));
    while i < a.len() && i < b.len() && a[i] == b[i]
        invariant
            i <= a@.len(),
            i <= b@.len(),
            bytes_le(a@, b@) == lex_le(values(a@).skip(i as int), values(b@).skip(i as int)),
        decreases a@.len() - i,
    {
        assert(values(a@).skip(i as int).drop_first() =~= values(a@).skip(i + 1));
        assert(values(b@).skip(i as int).drop_first() =~= values(b@).skip(i + 1));
        i = i + 1;
    }
    if i == a.len() {
        true
    } else if i == b.len() {
        false
    } else {
        a[i] < b[i]
    }
}

/// A name, and what it is the name of.
pub type Named = (Seq<char>, Seq<char>);

/// Where an item called `name` goes in a sorted list: behind every item whose name is not
/// above it.
pub open spec fn place(items: Seq<Named>, name: Seq<char>) -> int
    decreases items.len(),
{
    if items.len() == 0 || text_le(items.last().0, name) {
        items.len() as int
    } else {
        place(items.drop_last(), name)
    }
}

/// `items`, sorted by name; those of one name stay in their order.
pub open spec fn sorted_by_name(items: Seq<Named>) -> Seq<Named>
    decreases items.len(),
{
    if items.len() == 0 {
        items
    } else {
        let before = sorted_by_name(items.drop_last());
        before.insert(place(before, items.last().0), items.last())
    }
}

/// Whether the names ascend.
pub open spec fn names_ascend(items: Seq<Named>) -> bool {
    forall|i: int, j: int| 0 <= i <= j < items.len() ==> text_le(#[trigger] items[i].0, #[trigger] items[j].0)
}

proof fn lemma_place(items: Seq<Named>, name: Seq<char>)
    requires
        names_ascend(items),
    ensures
        0 <= place(items, name) <= items.len(),
        forall|i: int| 0 <= i < place(items, name) ==> text_le(#[trigger] items[i].0, name),
        forall|i: int| place(items, name) <= i < items.len() ==> !text_le(#[trigger] items[i].0, name),
    decreases items.len(),
{
    if items.len() == 0 {
    } else if text_le(items.last().0, name) {
        assert forall|i: int| 0 <= i < items.len() implies text_le(#[trigger] items[i].0, name) by {
            lemma_lex_transitive(codes(items[i].0), codes(items.last().0), codes(name));
        }
    } else {
        let rest = items.drop_last();
        assert forall|i: int, j: int| 0 <= i <= j < rest.len() implies text_le(#[trigger] rest[i].0, #[trigger] rest[j].0) by {
            assert(rest[i] == items[i] && rest[j] == items[j]);
        }
        lemma_place(rest, name);
        assert forall|i: int| 0 <= i < place(items, name) implies text_le(#[trigger] items[i].0, name) by {
            assert(rest[i] == items[i]);
        }
        assert forall|i: int| place(items, name) <= i < items.len() implies !text_le(#[trigger] items[i].0, name) by {
            if i < rest.len() {
                assert(rest[i] == items[i]);
            }
        }
    }
}

/// Sorting by name puts the names in ascending order, keeps every item, and keeps the order
/// of the items that share a name.
pub proof fn sorting_is_stable(items: Seq<Named>, name: Seq<char>)
    ensures
        names_ascend(sorted_by_name(items)),
        sorted_by_name(items).len() == items.len(),
        sorted_by_name(items).to_multiset() == items.to_multiset(),
        sorted_by_name(items).filter(|item: Named| item.0 == name) == items.filter(
            |item: Named| item.0 == name,
        ),
    decreases items.len(),
{
    let pred = |item: Named| item.0 == name;
    if items.len() == 0 {
    } else {
        let rest = items.drop_last();
        let last = items.last();
        sorting_is_stable(rest, name);
        let before = sorted_by_name(rest);
        lemma_place(before, last.0);
        let p = place(before, last.0);
        let after = before.insert(p, last);
        assert forall|i: int, j: int| 0 <= i <= j < after.len() implies text_le(#[trigger] after[i].0, #[trigger] after[j].0) by {
            lemma_lex_total(codes(last.0), codes(last.0));
            if j < p {
                assert(after[i] == before[i] && after[j] == before[j]);
            } else if i > p {
                assert(after[i] == before[i - 1] && after[j] == before[j - 1]);
            } else if i < p && j > p {
                assert(after[i] == before[i] && after[j] == before[j - 1]);
            } else if j > p {
                assert(after[j] == before[j - 1]);
                lemma_lex_total(codes(before[j - 1].0), codes(last.0));
            } else if i < p {
                assert(after[i] == before[i]);
            }
        }
        assert(items =~= rest.push(last));
        rest.to_multiset_ensures();
        after.to_multiset_ensures();
        assert(after.remove(p) =~= before);
        assert(after[p] == last);
        assert(after.contains(last));
        assert(after.to_multiset() =~= before.to_multiset().insert(last));
        let head = before.take(p);
        let tail = before.skip(p);
        assert(before =~= head + tail);
        assert(after =~= head + (seq![last] + tail));
        Seq::filter_distributes_over_add(head, tail, pred);
        Seq::filter_distributes_over_add(head, seq![last] + tail, pred);
        Seq::filter_distributes_over_add(seq![last], tail, pred);
        Seq::filter_distributes_over_add(rest, seq![last], pred);
        assert(items =~= rest + seq![last]);
        if last.0 == name {
            lemma_filter_none(tail, pred);
        }
        reveal_with_fuel(Seq::filter, 2);
        assert(seq![last].drop_last() =~= Seq::<Named>::empty());
        assert(sorted_by_name(items).filter(pred) =~= items.filter(pred));
    }
}

/// Sorting by name keeps what is made of the items, each as often as it occurs.
pub(crate) proof fn lemma_sorting_keeps(items: Seq<Named>, f: spec_fn(Named) -> Seq<char>)
    ensures
        sorted_by_name(items).map_values(f).to_multiset() == items.map_values(f).to_multiset(),
    decreases items.len(),
{
    if items.len() > 0 {
        let rest = items.drop_last();
        let last = items.last();
        lemma_sorting_keeps(rest, f);
        sorting_is_stable(rest, seq![]);
        let before = sorted_by_name(rest);
        lemma_place(before, last.0);
        let p = place(before, last.0);
        assert(before.insert(p, last).map_values(f) =~= before.map_values(f).insert(p, f(last)));
        vstd::seq_lib::to_multiset_insert(before.map_values(f), p, f(last));
        assert(items.map_values(f) =~= rest.map_values(f).push(f(last)));
        vstd::seq_lib::to_multiset_build(rest.map_values(f), f(last));
    }
}

proof fn lemma_filter_none(items: Seq<Named>, pred: spec_fn(Named) -> bool)
    requires
        forall|i: int| 0 <= i < items.len() ==> !pred(#[trigger] items[i]),
    ensures
        items.filter(pred) == Seq::<Named>::empty(),
    decreases items.len(),
{
    reveal(Seq::filter);
    if items.len() > 0 {
        lemma_filter_none(items.drop_last(), pred);
    }
}

/// Sorts the items by name; those of one name stay in their order.
pub fn sort_named(items: Vec<(String, String)>) -> (res: Vec<(String, String)>)
    ensures
        res.deep_view() == sorted_by_name(items.deep_view()),
{
    let mut out: Vec<(String, String)> = Vec::new();
    let mut i: usize = 0;
    assert(out.deep_view() =~= items.deep_view().take(0));
    while i < items.len()
        invariant
            i <= items@.len(),
            out@.len() == i,
            out.deep_view() == sorted_by_name(items.deep_view().take(i as int)),
        decreases items@.len() - i,
    {
        let name = items[i].0.clone();
        let what = items[i].1.clone();
        let mut at: usize = out.len();
        assert(out.deep_view().take(at as int) =~= out.deep_view());
        while at > 0 && !text_at_most(out[at - 1].0.as_str(), name.as_str())
            invariant
                at <= out@.len(),
                place(out.deep_view(), name@) == place(out.deep_view().take(at as int), name@),
            decreases at,
        {
            assert(out.deep_view().take(at as int).drop_last() =~= out.deep_view().take(at - 1));
            at = at - 1;
        }
        assert(place(out.deep_view(), name@) == at);
        let ghost before = out.deep_view();
        let ghost item = (name@, what@);
        out.insert(at, (name, what));
        assert(out.deep_view() =~= before.insert(at as int, item));
        assert(items.deep_view().take(i + 1).drop_last() =~= items.deep_view().take(i as int));
        i = i + 1;
    }
    assert(items.deep_view().take(i as int) =~= items.deep_view());
    out
}

/// Every text as its own name.
pub open spec fn self_named(items: Seq<Seq<char>>) -> Seq<Named> {
    Seq::new(items.len(), |i: int| (items[i], items[i]))
}

/// `items` in ascending order.
pub open spec fn sorted_texts(items: Seq<Seq<char>>) -> Seq<Seq<char>> {
    let sorted = sorted_by_name(self_named(items));
    Seq::new(sorted.len(), |i: int| sorted[i].0)
}

/// Sorting puts texts in ascending order, and keeps all of them and no others, each as often
/// as it occurs.
pub proof fn sorting_orders_texts(items: Seq<Seq<char>>)
    ensures
        sorted_texts(items).len() == items.len(),
        forall|i: int, j: int|
            0 <= i <= j < items.len() ==> text_le(#[trigger] sorted_texts(items)[i], #[trigger] sorted_texts(items)[j]),
        sorted_texts(items).to_multiset() == items.to_multiset(),
        forall|text: Seq<char>| #[trigger] sorted_texts(items).contains(text) <==> items.contains(text),
{
    let named = self_named(items);
    let sorted = sorted_by_name(named);
    sorting_is_stable(named, seq![]);
    let text_of = |item: Named| item.0;
    lemma_sorting_keeps(named, text_of);
    assert(sorted.map_values(text_of) =~= sorted_texts(items));
    assert(named.map_values(text_of) =~= items);
    items.to_multiset_ensures();
    sorted_texts(items).to_multiset_ensures();
    assert forall|text: Seq<char>| #[trigger] sorted_texts(items).contains(text) <==> items.contains(text) by {
        assert(items.contains(text) <==> items.to_multiset().count(text) > 0);
    }
}

/// Sorting texts of which none occurs twice leaves none that occurs twice.
pub proof fn sorting_keeps_unique(items: Seq<Seq<char>>)
    requires
        items.no_duplicates(),
    ensures
        sorted_texts(items).no_duplicates(),
{
    let named = self_named(items);
    let sorted = sorted_by_name(named);
    sorting_is_stable(named, seq![]);
    assert forall|i: int, j: int| 0 <= i < named.len() && 0 <= j < named.len() && i != j implies named[i] != named[j] by {
        assert(items[i] != items[j]);
    }
    named.lemma_multiset_has_no_duplicates();
    sorted.lemma_multiset_has_no_duplicates_conv();
    named.to_multiset_ensures();
    sorted.to_multiset_ensures();
    assert forall|k: int| 0 <= k < sorted.len() implies (#[trigger] sorted[k]).0 == sorted[k].1 by {
        assert(sorted.contains(sorted[k]));
        assert(named.to_multiset().count(sorted[k]) > 0);
        assert(named.contains(sorted[k]));
        let n = choose|n: int| 0 <= n < named.len() && named[n] == sorted[k];
    }
    assert forall|i: int, j: int|
        0 <= i < sorted.len() && 0 <= j < sorted.len() && i != j implies sorted_texts(items)[i] != sorted_texts(
        items,
    )[j] by {
        assert(sorted[i] != sorted[j]);
        assert(sorted[i].0 == sorted[i].1 && sorted[j].0 == sorted[j].1);
    }
}

/// Sorts texts.
pub fn sort_texts(items: &Vec<String>) -> (res: Vec<String>)
    ensures
        res.deep_view() == sorted_texts(items.deep_view()),
{
    let mut named: Vec<(String, String)> = Vec::new();
    let mut i: usize = 0;
    while i < items.len()
        invariant
            i <= items@.len(),
            named.deep_view() == self_named(items.deep_view()).take(i as int),
        decreases items@.len() - i,
    {
        let ghost before = named.deep_view();
        named.push((items[i].clone(), items[i].clone()));
        assert(named.deep_view() =~= before.push((items@[i as int]@, items@[i as int]@)));
        i = i + 1;
        assert(named.deep_view() =~= self_named(items.deep_view()).take(i as int));
    }
    assert(self_named(items.deep_view()).take(i as int) =~= self_named(items.deep_view()));
    let sorted = sort_named(named);
    let mut out: Vec<String> = Vec::new();
    let mut k: usize = 0;
    while k < sorted.len()
        invariant
            k <= sorted@.len(),
            out@.len() == k,
            forall|j: int| 0 <= j < k ==> #[trigger] out@[j]@ == sorted.deep_view()[j].0,
        decreases sorted@.len() - k,
    {
        out.push(sorted[k].0.clone());
        k = k + 1;
    }
    assert(out.deep_view() =~= sorted_texts(items.deep_view()));
    out
}

proof fn lemma_difference_decides(same: Seq<int>, a: int, x: Seq<int>, b: int, y: Seq<int>)
    requires
        a != b,
    ensures
        lex_le(same + seq![a] + x, same + seq![b] + y) <==> a < b,
        lex_le(same, same + seq![b] + y),
        !lex_le(same + seq![a] + x, same),
    decreases same.len(),
{
    let left = same + seq![a] + x;
    let right = same + seq![b] + y;
    if same.len() > 0 {
        let rest = same.drop_first();
        lemma_difference_decides(rest, a, x, b, y);
        assert(left.drop_first() =~= rest + seq![a] + x);
        assert(right.drop_first() =~= rest + seq![b] + y);
        assert(left[0] == same[0] && right[0] == same[0]);
    } else {
        assert(left[0] == a && right[0] == b);
    }
}

/// Of two texts that differ the one stands before the other whose character is the lower one at
/// the first place where they differ; a text stands before those that go on from it.
pub proof fn first_difference_orders_texts(same: Seq<char>, a: char, x: Seq<char>, b: char, y: Seq<char>)
    requires
        a != b,
    ensures
        text_le(same + seq![a] + x, same + seq![b] + y) <==> (a as int) < (b as int),
        text_le(same, same + seq![b] + y),
        !text_le(same + seq![a] + x, same),
        text_le(same, same),
{
    assert(codes(same + seq![a] + x) =~= codes(same) + seq![a as int] + codes(x));
    assert(codes(same + seq![b] + y) =~= codes(same) + seq![b as int] + codes(y));
    lemma_difference_decides(codes(same), a as int, codes(x), b as int, codes(y));
    lemma_lex_total(codes(same), codes(same));
}

/// Of two byte strings that differ the one stands before the other whose byte is the lower one at
/// the first place where they differ; one stands before those that go on from it.
pub proof fn first_difference_orders_bytes(same: Seq<u8>, a: u8, x: Seq<u8>, b: u8, y: Seq<u8>)
    requires
        a != b,
    ensures
        bytes_le(same + seq![a] + x, same + seq![b] + y) <==> a < b,
        bytes_le(same, same + seq![b] + y),
        !bytes_le(same + seq![a] + x, same),
        bytes_le(same, same),
{
    assert(values(same + seq![a] + x) =~= values(same) + seq![a as int] + values(x));
    assert(values(same + seq![b] + y) =~= values(same) + seq![b as int] + values(y));
    lemma_difference_decides(values(same), a as int, values(x), b as int, values(y));
    lemma_lex_total(values(same), values(same));
}

}
