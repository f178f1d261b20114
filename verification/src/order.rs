//! The order of texts, and sorted lists of texts.
use crate::text;
use crate::text::chars_of;
use vstd::prelude::*;

verus! {

/// Whether `a` stands before or at `b` in the order of code points.
pub open spec fn text_le(a: Seq<char>, b: Seq<char>) -> bool
    decreases a.len(),
{
    if a.len() == 0 {
        true
    } else if b.len() == 0 {
        false
    } else if a[0] != b[0] {
        a[0] < b[0]
    } else {
        text_le(a.drop_first(), b.drop_first())
    }
}

/// Whether a list of texts ascends.
pub open spec fn ascending(list: Seq<Seq<char>>) -> bool {
    forall|i: int, j: int| 0 <= i <= j < list.len() ==> text_le(#[trigger] list[i], #[trigger] list[j])
}

/// Any two texts stand in order one way or the other.
pub proof fn text_le_total(a: Seq<char>, b: Seq<char>)
    ensures
        text_le(a, b) || text_le(b, a),
    decreases a.len(),
{
    if a.len() > 0 && b.len() > 0 && a[0] == b[0] {
        text_le_total(a.drop_first(), b.drop_first());
    }
}

/// The order of texts is transitive.
pub proof fn text_le_transitive(a: Seq<char>, b: Seq<char>, c: Seq<char>)
    requires
        text_le(a, b),
        text_le(b, c),
    ensures
        text_le(a, c),
    decreases a.len(),
{
    if a.len() > 0 && b.len() > 0 && c.len() > 0 && a[0] == b[0] && b[0] == c[0] {
        text_le_transitive(a.drop_first(), b.drop_first(), c.drop_first());
    }
}

/// Two texts that stand in order both ways are the same.
pub proof fn text_le_antisymmetric(a: Seq<char>, b: Seq<char>)
    requires
        text_le(a, b),
        text_le(b, a),
    ensures
        a == b,
    decreases a.len(),
{
    if a.len() > 0 && b.len() > 0 && a[0] == b[0] {
        text_le_antisymmetric(a.drop_first(), b.drop_first());
        assert(a =~= seq![a[0]] + a.drop_first());
        assert(b =~= seq![b[0]] + b.drop_first());
    } else {
        assert(a =~= b);
    }
}

/// Whether `a` stands before or at `b`.
pub fn text_at_most(a: &str, b: &str) -> (r: bool)
    ensures
        r == text_le(a@, b@),
{
    let x = chars_of(a);
    let y = chars_of(b);
    let mut i: usize = 0;
    assert(a@.skip(0) =~= a@);
    assert(b@.skip(0) =~= b@);
    while i < x.len() && i < y.len()
        invariant
            x@ == a@,
            y@ == b@,
            i <= x@.len(),
            i <= y@.len(),
            text_le(a@, b@) == text_le(a@.skip(i as int), b@.skip(i as int)),
        decreases x@.len() - i,
    {
        let ghost sa = a@.skip(i as int);
        let ghost sb = b@.skip(i as int);
        assert(sa[0] == a@[i as int] && sb[0] == b@[i as int]);
        assert(sa.drop_first() =~= a@.skip(i + 1));
        assert(sb.drop_first() =~= b@.skip(i + 1));
        if x[i] != y[i] {
            return x[i] < y[i];
        }
        i = i + 1;
    }
    i >= x.len()
}

/// Puts `item` into an ascending list, behind every text that is not greater.
fn insert_ascending(list: &mut Vec<String>, item: String)
    requires
        ascending(text::texts(old(list)@)),
    ensures
        ascending(text::texts(final(list)@)),
        text::texts(final(list)@).to_multiset() == text::texts(old(list)@).to_multiset().insert(item@),
{
    let ghost before = text::texts(list@);
    let ghost it = item@;
    let mut at: usize = list.len();
    while at > 0 && !text_at_most(list[at - 1].as_str(), item.as_str())
        invariant
            before == text::texts(list@),
            at <= list@.len(),
            forall|k: int| at <= k < list@.len() ==> !text_le(#[trigger] before[k], item@),
        decreases at,
    {
        at = at - 1;
    }
    list.insert(at, item);
    proof {
        let after = text::texts(list@);
        assert(after =~= before.insert(at as int, it));
        assert(after.remove(at as int) =~= before);
        assert(after[at as int] == it);
        after.to_multiset_ensures();
        assert(after.to_multiset() =~= before.to_multiset().insert(it));
        assert forall|i: int, j: int| 0 <= i <= j < after.len() implies text_le(
            #[trigger] after[i],
            #[trigger] after[j],
        ) by {
            text_le_total(it, it);
            if i < at && j == at {
                text_le_transitive(before[i], before[at - 1], it);
            } else if i == at && j > at {
                text_le_total(before[j - 1], it);
            }
        }
    }
}

/// Sorts texts into ascending order.
pub fn sort_texts(list: Vec<String>) -> (r: Vec<String>)
    ensures
        ascending(text::texts(r@)),
        text::texts(r@).to_multiset() == text::texts(list@).to_multiset(),
{
    let mut out: Vec<String> = Vec::new();
    let mut i: usize = 0;
    let ghost all = text::texts(list@);
    assert(all.take(0) =~= text::texts(out@));
    while i < list.len()
        invariant
            i <= list@.len(),
            all == text::texts(list@),
            ascending(text::texts(out@)),
            text::texts(out@).to_multiset() == all.take(i as int).to_multiset(),
        decreases list@.len() - i,
    {
        insert_ascending(&mut out, list[i].clone());
        proof {
            assert(all.take(i + 1) =~= all.take(i as int).push(all[i as int]));
            all.take(i as int).to_multiset_ensures();
        }
        i = i + 1;
    }
    assert(all.take(i as int) =~= all);
    out
}

/// Of two texts the one comes first that has the smaller character where they first differ.
pub proof fn first_difference_decides(a: Seq<char>, b: Seq<char>, k: int)
    requires
        0 <= k < a.len(),
        k < b.len(),
        a.take(k) == b.take(k),
        a[k] < b[k],
    ensures
        text_le(a, b),
        !text_le(b, a),
    decreases k,
{
    if k > 0 {
        assert(a[0] == a.take(k)[0] && b[0] == b.take(k)[0]);
        assert(a.drop_first().take(k - 1) =~= a.take(k).drop_first());
        assert(b.drop_first().take(k - 1) =~= b.take(k).drop_first());
        first_difference_decides(a.drop_first(), b.drop_first(), k - 1);
    }
}

/// The beginning of a text comes before it.
pub proof fn beginnings_come_first(a: Seq<char>, b: Seq<char>)
    requires
        a.is_prefix_of(b),
    ensures
        text_le(a, b),
    decreases a.len(),
{
    if a.len() > 0 {
        assert(a[0] == b[0]);
        assert(a.drop_first().is_prefix_of(b.drop_first())) by {
            assert(a.drop_first() =~= b.drop_first().take(a.len() - 1));
        }
        beginnings_come_first(a.drop_first(), b.drop_first());
    }
}

/// In an ascending list no text comes behind a greater one.
pub proof fn ascending_lists_never_step_back(list: Seq<Seq<char>>, i: int, j: int)
    requires
        ascending(list),
        0 <= i < j < list.len(),
    ensures
        text_le(list[i], list[j]),
{
}

} // verus!
