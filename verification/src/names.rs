//! Lists of names kept in alphabetical order.
use vstd::prelude::*;
use vstd::string::*;

verus! {

/// The texts a list of strings holds.
pub open spec fn texts(list: Seq<String>) -> Seq<Seq<char>> {
    list.map_values(|s: String| s@)
}

/// Dictionary order by code point: a proper prefix comes first.
pub open spec fn precedes(a: Seq<char>, b: Seq<char>) -> bool
    decreases a.len(),
{
    if b.len() == 0 {
        false
    } else if a.len() == 0 {
        true
    } else if a.first() == b.first() {
        precedes(a.drop_first(), b.drop_first())
    } else {
        a.first() < b.first()
    }
}

/// Whether one text comes before another.
pub fn comes_before(a: &str, b: &str) -> (yes: bool)
    ensures
        yes == precedes(a@, b@),
{
    let la: usize = a.unicode_len();
    let lb: usize = b.unicode_len();
    let mut i: usize = 0;
    assert(a@.skip(0) =~= a@);
    assert(b@.skip(0) =~= b@);
    while i < la && i < lb && a.get_char(i) == b.get_char(i)
        invariant
            i <= la,
            i <= lb,
            la == a@.len(),
            lb == b@.len(),
            precedes(a@, b@) == precedes(a@.skip(i as int), b@.skip(i as int)),
        decreases la - i,
    {
        assert(a@.skip(i as int).drop_first() =~= a@.skip(i + 1));
        assert(b@.skip(i as int).drop_first() =~= b@.skip(i + 1));
        i = i + 1;
    }
    if i == lb {
        false
    } else if i == la {
        true
    } else {
        a.get_char(i) < b.get_char(i)
    }
}

/// Of two different texts exactly one comes before the other.
pub proof fn precedes_is_total(a: Seq<char>, b: Seq<char>)
    ensures
        precedes(a, b) ==> !precedes(b, a),
        a != b ==> precedes(a, b) || precedes(b, a),
        !precedes(a, a),
    decreases a.len(),
{
    if a.len() > 0 && b.len() > 0 {
        precedes_is_total(a.drop_first(), b.drop_first());
        precedes_is_total(a.drop_first(), a.drop_first());
        assert(a =~= seq![a.first()] + a.drop_first());
        assert(b =~= seq![b.first()] + b.drop_first());
    } else {
        if a.len() == 0 && b.len() == 0 {
            assert(a =~= b);
        }
        if a.len() > 0 {
            precedes_is_total(a.drop_first(), a.drop_first());
        }
    }
}

/// The order is transitive.
pub proof fn precedes_is_transitive(a: Seq<char>, b: Seq<char>, c: Seq<char>)
    requires
        precedes(a, b),
        precedes(b, c),
    ensures
        precedes(a, c),
    decreases a.len(),
{
    if a.len() > 0 && b.len() > 0 && c.len() > 0 {
        if a.first() == b.first() && b.first() == c.first() {
            precedes_is_transitive(a.drop_first(), b.drop_first(), c.drop_first());
        }
    }
}

/// No name of the list comes before one that stands to its left.
pub open spec fn is_ordered(list: Seq<Seq<char>>) -> bool {
    forall|i: int, j: int| 0 <= i < j < list.len() ==> !precedes(#[trigger] list[j], #[trigger] list[i])
}

/// An ordered list with one more name in its place.
pub open spec fn with_name(list: Seq<Seq<char>>, name: Seq<char>) -> Seq<Seq<char>>
    decreases list.len(),
{
    if list.len() > 0 && precedes(name, list.last()) {
        with_name(list.drop_last(), name).push(list.last())
    } else {
        list.push(name)
    }
}

/// The names of a list, in order.
pub open spec fn ordered(list: Seq<Seq<char>>) -> Seq<Seq<char>>
    decreases list.len(),
{
    if list.len() == 0 {
        list
    } else {
        with_name(ordered(list.drop_last()), list.last())
    }
}

proof fn with_name_position(list: Seq<Seq<char>>, name: Seq<char>, at: int)
    requires
        0 <= at <= list.len(),
        forall|j: int| at <= j < list.len() ==> precedes(name, #[trigger] list[j]),
        at > 0 ==> !precedes(name, list[at - 1]),
    ensures
        with_name(list, name) == list.insert(at, name),
    decreases list.len(),
{
    if at < list.len() {
        with_name_position(list.drop_last(), name, at);
        assert(list.drop_last().insert(at, name).push(list.last()) =~= list.insert(at, name));
    } else {
        assert(list.push(name) =~= list.insert(at, name));
    }
}

proof fn with_name_is_ordered(list: Seq<Seq<char>>, name: Seq<char>)
    requires
        is_ordered(list),
    ensures
        is_ordered(with_name(list, name)),
        with_name(list, name).to_multiset() == list.to_multiset().insert(name),
        with_name(list, name).len() == list.len() + 1,
    decreases list.len(),
{
    list.to_multiset_ensures();
    if list.len() > 0 && precedes(name, list.last()) {
        let front = list.drop_last();
        let rest = with_name(front, name);
        let whole = with_name(list, name);
        with_name_is_ordered(front, name);
        front.to_multiset_ensures();
        rest.to_multiset_ensures();
        assert(list =~= front.push(list.last()));
        assert(whole == rest.push(list.last()));
        assert(whole.to_multiset() =~= list.to_multiset().insert(name));
        assert forall|i: int, j: int| 0 <= i < j < whole.len() implies !precedes(
            #[trigger] whole[j],
            #[trigger] whole[i],
        ) by {
            if j == whole.len() - 1 {
                assert(rest.to_multiset().contains(rest[i]));
                if rest[i] != name {
                    assert(front.to_multiset().contains(rest[i]));
                    assert(front.contains(rest[i]));
                    let k = choose|k: int| 0 <= k < front.len() && front[k] == rest[i];
                    assert(list[k] == rest[i]);
                } else {
                    precedes_is_total(name, list.last());
                }
            }
        }
    } else {
        let whole = list.push(name);
        assert forall|i: int, j: int| 0 <= i < j < whole.len() implies !precedes(
            #[trigger] whole[j],
            #[trigger] whole[i],
        ) by {
            if j == list.len() && i < list.len() - 1 {
                if precedes(name, list[i]) {
                    if list[i] == list.last() {
                    } else {
                        precedes_is_total(list[i], list.last());
                        assert(precedes(list[i], list.last()));
                        precedes_is_transitive(name, list[i], list.last());
                    }
                }
            }
        }
    }
}

/// Ordering a list keeps its names, each as often as before, and leaves none
/// before one that it follows.
pub proof fn ordered_is_a_sorting(list: Seq<Seq<char>>)
    ensures
        is_ordered(ordered(list)),
        ordered(list).to_multiset() == list.to_multiset(),
        ordered(list).len() == list.len(),
    decreases list.len(),
{
    if list.len() > 0 {
        ordered_is_a_sorting(list.drop_last());
        with_name_is_ordered(ordered(list.drop_last()), list.last());
        list.drop_last().to_multiset_ensures();
        assert(list =~= list.drop_last().push(list.last()));
    }
}

/// Puts a name into its place in an ordered list.
pub fn insert_name(list: &mut Vec<String>, name: String)
    ensures
        texts(final(list)@) == with_name(texts(old(list)@), name@),
{
    let mut at: usize = list.len();
    while at > 0 && comes_before(name.as_str(), list[at - 1].as_str())
        invariant
            at <= list.len(),
            *list == *old(list),
            forall|j: int| at <= j < list.len() ==> precedes(name@, #[trigger] texts(list@)[j]),
        decreases at,
    {
        at = at - 1;
    }
    proof {
        with_name_position(texts(list@), name@, at as int);
    }
    let ghost new_name = name@;
    list.insert(at, name);
    assert(texts(list@) =~= texts(old(list)@).insert(at as int, new_name));
}

/// Whether two lists hold the same names in the same places.
pub fn same_names(a: &Vec<String>, b: &Vec<String>) -> (same: bool)
    ensures
        same == (texts(a@) == texts(b@)),
{
    if a.len() != b.len() {
        assert(texts(a@).len() != texts(b@).len());
        return false;
    }
    let mut i: usize = 0;
    while i < a.len()
        invariant
            i <= a.len(),
            a.len() == b.len(),
            forall|j: int| 0 <= j < i ==> texts(a@)[j] == #[trigger] texts(b@)[j],
        decreases a.len() - i,
    {
        if a[i] != b[i] {
            assert(texts(a@)[i as int] != texts(b@)[i as int]);
            return false;
        }
        i = i + 1;
    }
    assert(texts(a@) =~= texts(b@));
    true
}

/// Copies a list of names.
pub fn copy_names(list: &Vec<String>) -> (copy: Vec<String>)
    ensures
        texts(copy@) == texts(list@),
{
    let mut copy: Vec<String> = Vec::new();
    let mut i: usize = 0;
    while i < list.len()
        invariant
            i <= list.len(),
            texts(copy@) == texts(list@).take(i as int),
        decreases list.len() - i,
    {
        let ghost held = texts(copy@);
        copy.push(list[i].clone());
        assert(texts(copy@) =~= held.push(texts(list@)[i as int]));
        assert(texts(copy@) =~= texts(list@).take(i + 1));
        i = i + 1;
    }
    assert(texts(list@).take(list.len() as int) =~= texts(list@));
    copy
}

/// A list without the entries that carry a given name.
pub open spec fn without_name(list: Seq<Seq<char>>, name: Seq<char>) -> Seq<Seq<char>> {
    list.filter(|entry: Seq<char>| entry != name)
}

/// Drops the entries that carry a given name.
pub fn remove_name(list: &mut Vec<String>, name: &str)
    ensures
        texts(final(list)@) == without_name(texts(old(list)@), name@),
{
    let ghost keep = |entry: Seq<char>| entry != name@;
    let ghost before = texts(list@);
    let mut kept: Vec<String> = Vec::new();
    let mut i: usize = 0;
    proof {
        reveal(Seq::filter);
        assert(texts(kept@) =~= before.take(0).filter(keep));
    }
    while i < list.len()
        invariant
            i <= list.len(),
            before == texts(list@),
            *list == *old(list),
            keep == (|entry: Seq<char>| entry != name@),
            texts(kept@) == before.take(i as int).filter(keep),
        decreases list.len() - i,
    {
        proof {
            reveal(Seq::filter);
            assert(before.take(i + 1).drop_last() =~= before.take(i as int));
        }
        if !same_text(list[i].as_str(), name) {
            let ghost held = texts(kept@);
            let entry = list[i].clone();
            kept.push(entry);
            assert(texts(kept@) =~= held.push(before[i as int]));
        }
        i = i + 1;
    }
    assert(before.take(before.len() as int) =~= before);
    *list = kept;
}

/// Whether two texts are the same.
pub fn same_text(a: &str, b: &str) -> (same: bool)
    ensures
        same == (a@ == b@),
{
    a.to_string() == b.to_string()
}

/// Whether no name occurs twice.
pub fn all_distinct(list: &Vec<String>) -> (distinct: bool)
    ensures
        distinct == texts(list@).no_duplicates(),
{
    let ghost all = texts(list@);
    let mut j: usize = 0;
    while j < list.len()
        invariant
            j <= list.len(),
            all == texts(list@),
            forall|i: int, k: int| 0 <= i < k < j ==> #[trigger] all[i] != #[trigger] all[k],
        decreases list.len() - j,
    {
        let mut i: usize = 0;
        while i < j
            invariant
                i <= j < list.len(),
                all == texts(list@),
                forall|k: int| 0 <= k < i ==> #[trigger] all[k] != all[j as int],
            decreases j - i,
        {
            if list[i] == list[j] {
                assert(all[i as int] == all[j as int]);
                return false;
            }
            i = i + 1;
        }
        j = j + 1;
    }
    true
}

/// The order of names: where they first differ the smaller character decides, and a
/// name comes before those it is the beginning of.
pub proof fn the_first_difference_decides(a: Seq<char>, b: Seq<char>, k: int)
    requires
        0 <= k <= a.len(),
        k <= b.len(),
        a.take(k) == b.take(k),
    ensures
        k < a.len() && k < b.len() && a[k] != b[k] ==> (precedes(a, b) <==> a[k] < b[k]),
        k == a.len() ==> (precedes(a, b) <==> b.len() > k),
        k == b.len() ==> !precedes(a, b),
    decreases k,
{
    if k > 0 {
        assert(a.take(k)[0] == a[0]);
        assert(b.take(k)[0] == b[0]);
        let c = a.drop_first();
        let d = b.drop_first();
        assert forall|i: int| 0 <= i < k - 1 implies c[i] == #[trigger] d[i] by {
            assert(a.take(k)[i + 1] == a[i + 1]);
            assert(b.take(k)[i + 1] == b[i + 1]);
        }
        assert(c.take(k - 1) =~= d.take(k - 1));
        the_first_difference_decides(c, d, k - 1);
    }
}

} // verus!
