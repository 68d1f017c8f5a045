//! Lists that never hold an item twice: the discovered addresses, the
//! remembered connections and the scan targets all grow by appending what
//! they do not hold yet, keeping what came first in front.

use vstd::prelude::*;

verus! {

/// No item occurs twice in `s`.
pub open spec fn no_duplicates<A>(s: Seq<A>) -> bool {
    forall|i: int, j: int| 0 <= i < j < s.len() ==> s[i] != s[j]
}

/// `acc` with `x` appended, unless `acc` already holds it.
pub open spec fn add_unique_spec<A>(acc: Seq<A>, x: A) -> Seq<A> {
    if acc.contains(x) {
        acc
    } else {
        acc.push(x)
    }
}

/// `acc` with each item of `items`, in order, appended unless already held.
pub open spec fn extend_unique<A>(acc: Seq<A>, items: Seq<A>) -> Seq<A>
    decreases items.len(),
{
    if items.len() == 0 {
        acc
    } else {
        add_unique_spec(extend_unique(acc, items.drop_last()), items.last())
    }
}

/// The texts held by a list of strings.
pub open spec fn texts(v: Seq<String>) -> Seq<Seq<char>> {
    v.map_values(|s: String| s@)
}

/// Extending keeps what was there, in front and in order.
pub proof fn lemma_extend_unique_keeps_prefix<A>(acc: Seq<A>, items: Seq<A>)
    ensures
        acc.len() <= extend_unique(acc, items).len(),
        extend_unique(acc, items).subrange(0, acc.len() as int) == acc,
    decreases items.len(),
{
    if items.len() > 0 {
        lemma_extend_unique_keeps_prefix(acc, items.drop_last());
        let prev = extend_unique(acc, items.drop_last());
        if !prev.contains(items.last()) {
            assert(prev.push(items.last()).subrange(0, acc.len() as int) =~= prev.subrange(
                0,
                acc.len() as int,
            ));
        }
    }
}

/// An item is held after extending exactly when it was held before or is one
/// of the new items.
pub proof fn lemma_extend_unique_contains<A>(acc: Seq<A>, items: Seq<A>, x: A)
    ensures
        extend_unique(acc, items).contains(x) <==> (acc.contains(x) || items.contains(x)),
    decreases items.len(),
{
    if items.len() > 0 {
        let init = items.drop_last();
        lemma_extend_unique_contains(acc, init, x);
        let prev = extend_unique(acc, init);
        if !prev.contains(items.last()) {
            if prev.push(items.last()).contains(x) {
                let k = choose|k: int| 0 <= k < prev.len() + 1 && prev.push(items.last())[k] == x;
                if k < prev.len() {
                    assert(prev[k] == x);
                }
            }
            if prev.contains(x) {
                let k = choose|k: int| 0 <= k < prev.len() && prev[k] == x;
                assert(prev.push(items.last())[k] == x);
            }
            assert(prev.push(items.last())[prev.len() as int] == items.last());
        }
        if items.contains(x) {
            let k = choose|k: int| 0 <= k < items.len() && items[k] == x;
            if k < items.len() - 1 {
                assert(init[k] == x);
            }
        }
        if init.contains(x) {
            let k = choose|k: int| 0 <= k < init.len() && init[k] == x;
            assert(items[k] == x);
        }
    }
}

/// Extending a list without repeated items leaves it without repeated items.
pub proof fn lemma_extend_unique_no_duplicates<A>(acc: Seq<A>, items: Seq<A>)
    requires
        no_duplicates(acc),
    ensures
        no_duplicates(extend_unique(acc, items)),
    decreases items.len(),
{
    if items.len() > 0 {
        lemma_extend_unique_no_duplicates(acc, items.drop_last());
        let prev = extend_unique(acc, items.drop_last());
        let x = items.last();
        if !prev.contains(x) {
            let next = prev.push(x);
            assert forall|i: int, j: int| 0 <= i < j < next.len() implies next[i] != next[j] by {
                if j == prev.len() {
                    assert(next[i] == prev[i]);
                    if prev[i] == x {
                        assert(prev.contains(x));
                    }
                }
            }
        }
    }
}

/// Extending changes the list exactly when some new item was not held; the
/// list then only grows.
pub proof fn lemma_extend_unique_changes<A>(acc: Seq<A>, items: Seq<A>)
    ensures
        (extend_unique(acc, items).len() > acc.len()) <==> (exists|x: A|
            items.contains(x) && !acc.contains(x)),
        extend_unique(acc, items).len() == acc.len() ==> extend_unique(acc, items) == acc,
    decreases items.len(),
{
    lemma_extend_unique_keeps_prefix(acc, items);
    let r = extend_unique(acc, items);
    if r.len() > acc.len() {
        let x = r[acc.len() as int];
        lemma_extend_unique_contains(acc, items, x);
        assert(r.contains(x));
        if acc.contains(x) {
            lemma_extend_unique_contains_only_new(acc, items);
        }
    }
    if exists|x: A| items.contains(x) && !acc.contains(x) {
        let x = choose|x: A| items.contains(x) && !acc.contains(x);
        lemma_extend_unique_contains(acc, items, x);
        if r.len() == acc.len() {
            assert(r =~= r.subrange(0, acc.len() as int));
        }
    }
    if r.len() == acc.len() {
        assert(r =~= r.subrange(0, acc.len() as int));
    }
}

/// What extending appends is never something the list already held.
pub proof fn lemma_extend_unique_contains_only_new<A>(acc: Seq<A>, items: Seq<A>)
    ensures
        forall|k: int|
            acc.len() <= k < extend_unique(acc, items).len() ==> !acc.contains(
                #[trigger] extend_unique(acc, items)[k],
            ),
    decreases items.len(),
{
    if items.len() > 0 {
        lemma_extend_unique_contains_only_new(acc, items.drop_last());
        lemma_extend_unique_keeps_prefix(acc, items.drop_last());
        let prev = extend_unique(acc, items.drop_last());
        let x = items.last();
        if !prev.contains(x) {
            assert forall|k: int| acc.len() <= k < prev.len() + 1 implies !acc.contains(
                #[trigger] prev.push(x)[k],
            ) by {
                if k == prev.len() {
                    if acc.contains(x) {
                        let t = choose|t: int| 0 <= t < acc.len() && acc[t] == x;
                        assert(prev.subrange(0, acc.len() as int)[t] == prev[t]);
                        assert(prev.contains(x));
                    }
                } else {
                    assert(prev.push(x)[k] == prev[k]);
                }
            }
        }
    }
}

/// Whether `list` holds a string with the text of `item`.
pub fn holds_text(list: &Vec<String>, item: &String) -> (found: bool)
    ensures
        found == texts(list@).contains(item@),
{
    let mut i: usize = 0;
    while i < list.len()
        invariant
            i <= list@.len(),
            forall|k: int| 0 <= k < i ==> list@[k]@ != item@,
        decreases list@.len() - i,
    {
        if list[i] == *item {
            assert(texts(list@)[i as int] == item@);
            return true;
        }
        i = i + 1;
    }
    assert(!texts(list@).contains(item@)) by {
        if texts(list@).contains(item@) {
            let k = choose|k: int| 0 <= k < texts(list@).len() && texts(list@)[k] == item@;
            assert(list@[k]@ == item@);
        }
    }
    false
}

/// Appends `item` to `list` unless a string with its text is already there,
/// and says whether it appended.
pub fn add_unique(list: &mut Vec<String>, item: String) -> (added: bool)
    ensures
        texts(final(list)@) == add_unique_spec(texts(old(list)@), item@),
        added == !texts(old(list)@).contains(item@),
{
    if holds_text(list, &item) {
        false
    } else {
        let ghost before = list@;
        list.push(item);
        assert(texts(list@) =~= texts(before).push(item@));
        true
    }
}

/// Appends each of `items`, in order, that `list` does not hold yet, and says
/// whether anything was appended.
pub fn merge_unique(list: &mut Vec<String>, items: &Vec<String>) -> (changed: bool)
    ensures
        texts(final(list)@) == extend_unique(texts(old(list)@), texts(items@)),
        changed == (exists|x: Seq<char>|
            texts(items@).contains(x) && !texts(old(list)@).contains(x)),
{
    let ghost start = texts(list@);
    let mut changed = false;
    let mut i: usize = 0;
    while i < items.len()
        invariant
            i <= items@.len(),
            texts(list@) == extend_unique(start, texts(items@).take(i as int)),
            changed == (texts(list@).len() > start.len()),
        decreases items@.len() - i,
    {
        proof {
            assert(texts(items@).take(i + 1).drop_last() =~= texts(items@).take(i as int));
            lemma_extend_unique_keeps_prefix(start, texts(items@).take(i as int));
        }
        let item = items[i].clone();
        let added = add_unique(list, item);
        changed = changed || added;
        i = i + 1;
    }
    proof {
        assert(texts(items@).take(items@.len() as int) =~= texts(items@));
        lemma_extend_unique_changes(start, texts(items@));
    }
    changed
}

/// Whether `list` holds `item`.
pub fn holds_address(list: &Vec<u32>, item: u32) -> (found: bool)
    ensures
        found == list@.contains(item),
{
    let mut i: usize = 0;
    while i < list.len()
        invariant
            i <= list@.len(),
            forall|k: int| 0 <= k < i ==> list@[k] != item,
        decreases list@.len() - i,
    {
        if list[i] == item {
            return true;
        }
        i = i + 1;
    }
    false
}

/// Appends each of `items`, in order, that `list` does not hold yet.
pub fn extend_unique_addresses(list: &mut Vec<u32>, items: &Vec<u32>)
    ensures
        final(list)@ == extend_unique(old(list)@, items@),
{
    let ghost start = list@;
    let mut i: usize = 0;
    while i < items.len()
        invariant
            i <= items@.len(),
            list@ == extend_unique(start, items@.take(i as int)),
        decreases items@.len() - i,
    {
        proof {
            assert(items@.take(i + 1).drop_last() =~= items@.take(i as int));
        }
        let x = items[i];
        if !holds_address(list, x) {
            list.push(x);
        }
        i = i + 1;
    }
    proof {
        assert(items@.take(items@.len() as int) =~= items@);
    }
}

} // verus!
