//! One snapshot of a function activation, and the order in which its local
//! variables are listed.

use crate::value::{
    lemma_named_values_view, named_values_eq, named_values_same, named_values_view, MValue, Value,
};
use vstd::prelude::*;
use vstd::std_specs::cmp::PartialEqSpecImpl;

verus! {

/// Mathematical model of a frame snapshot.
pub struct Frame {
    pub name: Seq<char>,
    pub ranges: Seq<(usize, usize)>,
    pub locals: Seq<(Seq<char>, Value)>,
}

/// The visible state of one function activation at one step: the function's
/// name, the source ranges that were executing, and the local variables with
/// their values, ordered by name.
#[derive(Debug)]
pub struct MFrame {
    pub name: String,
    pub ranges: Vec<(usize, usize)>,
    pub locals: Vec<(String, MValue)>,
}

impl View for MFrame {
    type V = Frame;

    open spec fn view(&self) -> Frame {
        Frame { name: self.name@, ranges: self.ranges@, locals: named_values_view(self.locals@) }
    }
}

/// Whether two frames are equal: same name, same ranges, equal locals.
pub open spec fn frame_eq(a: Frame, b: Frame) -> bool {
    &&& a.name == b.name
    &&& a.ranges == b.ranges
    &&& named_values_eq(a.locals, b.locals)
}

/// Whether the name `a` comes before the name `b` or is the same: the order
/// of a dictionary, character by character, by the characters' numbers.
pub open spec fn name_le(a: Seq<char>, b: Seq<char>) -> bool
    decreases a.len(),
{
    if a.len() == 0 {
        true
    } else if b.len() == 0 {
        false
    } else if a[0] != b[0] {
        (a[0] as u32) < (b[0] as u32)
    } else {
        name_le(a.drop_first(), b.drop_first())
    }
}

/// A list of named values with one more put in by its name: behind every
/// entry that comes before it or has the same name.
pub open spec fn insert_by_name(sorted: Seq<(Seq<char>, Value)>, item: (Seq<char>, Value)) -> Seq<
    (Seq<char>, Value),
>
    decreases sorted.len(),
{
    if sorted.len() == 0 {
        seq![item]
    } else if name_le(sorted.last().0, item.0) {
        sorted.push(item)
    } else {
        insert_by_name(sorted.drop_last(), item).push(sorted.last())
    }
}

/// A list of named values put in order of their names. Entries with the same
/// name keep the order they had.
pub open spec fn sort_by_name(list: Seq<(Seq<char>, Value)>) -> Seq<(Seq<char>, Value)>
    decreases list.len(),
{
    if list.len() == 0 {
        Seq::empty()
    } else {
        insert_by_name(sort_by_name(list.drop_last()), list.last())
    }
}

/// Whether a list of named values is in order of its names.
pub open spec fn ordered_by_name(list: Seq<(Seq<char>, Value)>) -> bool {
    forall|i: int, j: int|
        0 <= i < j < list.len() ==> name_le((#[trigger] list[i]).0, (#[trigger] list[j]).0)
}

/// Of two names one comes before the other, or they are the same.
pub proof fn lemma_name_le_total(a: Seq<char>, b: Seq<char>)
    ensures
        name_le(a, b) || name_le(b, a),
    decreases a.len(),
{
    if a.len() > 0 && b.len() > 0 {
        if a[0] == b[0] {
            lemma_name_le_total(a.drop_first(), b.drop_first());
        } else {
            vstd::utf8::char_u32_cast(a[0], a[0] as u32);
            vstd::utf8::char_u32_cast(b[0], b[0] as u32);
        }
    }
}

/// The order of names is transitive.
pub proof fn lemma_name_le_transitive(a: Seq<char>, b: Seq<char>, c: Seq<char>)
    requires
        name_le(a, b),
        name_le(b, c),
    ensures
        name_le(a, c),
    decreases a.len(),
{
    if a.len() > 0 && b.len() > 0 && c.len() > 0 {
        if a[0] == b[0] && b[0] == c[0] {
            lemma_name_le_transitive(a.drop_first(), b.drop_first(), c.drop_first());
        }
    }
}

/// Putting an entry in by name adds that entry and nothing else, and keeps
/// an ordered list ordered.
pub proof fn lemma_insert_by_name(sorted: Seq<(Seq<char>, Value)>, item: (Seq<char>, Value))
    ensures
        insert_by_name(sorted, item).to_multiset() == sorted.to_multiset().insert(item),
        insert_by_name(sorted, item).len() == sorted.len() + 1,
        ordered_by_name(sorted) ==> ordered_by_name(insert_by_name(sorted, item)),
    decreases sorted.len(),
{
    broadcast use vstd::seq_lib::group_to_multiset_ensures;

    let result = insert_by_name(sorted, item);
    if sorted.len() == 0 {
        assert(sorted =~= Seq::empty());
        assert(result =~= Seq::<(Seq<char>, Value)>::empty().push(item));
    } else if name_le(sorted.last().0, item.0) {
        if ordered_by_name(sorted) {
            assert forall|i: int, j: int| 0 <= i < j < result.len() implies name_le(
                (#[trigger] result[i]).0,
                (#[trigger] result[j]).0,
            ) by {
                if j == sorted.len() {
                    if i < sorted.len() - 1 {
                        assert(name_le(sorted[i].0, sorted[sorted.len() - 1].0));
                        lemma_name_le_transitive(sorted[i].0, sorted.last().0, item.0);
                    }
                } else {
                    assert(name_le(sorted[i].0, sorted[j].0));
                }
            }
        }
    } else {
        let front = sorted.drop_last();
        let last = sorted.last();
        lemma_insert_by_name(front, item);
        let inner = insert_by_name(front, item);
        assert(sorted =~= front.push(last));
        assert(sorted.to_multiset() =~= front.to_multiset().insert(last));
        assert(result.to_multiset() =~= sorted.to_multiset().insert(item));
        if ordered_by_name(sorted) {
            assert(ordered_by_name(front)) by {
                assert forall|i: int, j: int| 0 <= i < j < front.len() implies name_le(
                    (#[trigger] front[i]).0,
                    (#[trigger] front[j]).0,
                ) by {
                    assert(name_le(sorted[i].0, sorted[j].0));
                }
            }
            lemma_name_le_total(last.0, item.0);
            assert forall|i: int, j: int| 0 <= i < j < result.len() implies name_le(
                (#[trigger] result[i]).0,
                (#[trigger] result[j]).0,
            ) by {
                if j < inner.len() {
                    assert(name_le(inner[i].0, inner[j].0));
                } else {
                    // result[j] is `last`; result[i] is the item or an entry of the front
                    assert(inner.to_multiset().count(inner[i]) > 0);
                    assert(front.to_multiset().insert(item).count(inner[i]) > 0);
                    if inner[i] != item {
                        assert(front.to_multiset().count(inner[i]) > 0);
                        assert(front.contains(inner[i]));
                        let k = choose|k: int| 0 <= k < front.len() && front[k] == inner[i];
                        assert(name_le(sorted[k].0, sorted[sorted.len() - 1].0));
                    }
                }
            }
        }
    }
}

/// Ordering by name rearranges the entries and puts them in order of name.
pub proof fn lemma_sort_by_name(list: Seq<(Seq<char>, Value)>)
    ensures
        sort_by_name(list).to_multiset() == list.to_multiset(),
        sort_by_name(list).len() == list.len(),
        ordered_by_name(sort_by_name(list)),
    decreases list.len(),
{
    broadcast use vstd::seq_lib::group_to_multiset_ensures;

    if list.len() == 0 {
        assert(list =~= Seq::empty());
    } else {
        let front = list.drop_last();
        lemma_sort_by_name(front);
        lemma_insert_by_name(sort_by_name(front), list.last());
        assert(list =~= front.push(list.last()));
    }
}

/// Whether the name `a` comes before the name `b` or is the same.
pub fn name_before_or_same(a: &String, b: &String) -> (le: bool)
    ensures
        le == name_le(a@, b@),
{
    let a_len = a.as_str().unicode_len();
    let b_len = b.as_str().unicode_len();
    let mut i: usize = 0;
    proof {
        assert(a@.skip(0) =~= a@);
        assert(b@.skip(0) =~= b@);
    }
    while i < a_len && i < b_len
        invariant
            i <= a_len,
            i <= b_len,
            a_len == a@.len(),
            b_len == b@.len(),
            name_le(a@, b@) == name_le(a@.skip(i as int), b@.skip(i as int)),
        decreases a_len - i,
    {
        let x = a.as_str().get_char(i);
        let y = b.as_str().get_char(i);
        proof {
            assert(a@.skip(i as int)[0] == x);
            assert(b@.skip(i as int)[0] == y);
            assert(a@.skip(i as int).drop_first() =~= a@.skip(i + 1));
            assert(b@.skip(i as int).drop_first() =~= b@.skip(i + 1));
        }
        if x != y {
            return (x as u32) < (y as u32);
        }
        i = i + 1;
    }
    i >= a_len
}

/// Puts one more local variable into a list kept in order of name.
pub fn insert_local(sorted: &mut Vec<(String, MValue)>, name: String, value: MValue)
    ensures
        named_values_view(final(sorted)@) == insert_by_name(
            named_values_view(old(sorted)@),
            (name@, value@),
        ),
{
    let ghost start = named_values_view(sorted@);
    let ghost item = (name@, value@);
    let mut at: usize = sorted.len();
    proof {
        lemma_named_values_view(sorted@);
        assert(start.take(at as int) =~= start);
        assert(start.skip(at as int) =~= Seq::empty());
        assert(insert_by_name(start, item) =~= insert_by_name(start.take(at as int), item)
            + start.skip(at as int));
    }
    let mut more = at > 0 && !name_before_or_same(&sorted[at - 1].0, &name);
    while more
        invariant
            at <= sorted.len(),
            more == (at > 0 && !name_le(start[at - 1].0, item.0)),
            sorted@ == old(sorted)@,
            start == named_values_view(sorted@),
            start.len() == sorted.len(),
            item == (name@, value@),
            forall|k: int|
                0 <= k < sorted.len() ==> #[trigger] start[k] == (sorted@[k].0@, sorted@[k].1@),
            insert_by_name(start, item) == insert_by_name(start.take(at as int), item) + start.skip(
                at as int,
            ),
        decreases at,
    {
        proof {
            let head = start.take(at as int);
            assert(head.last() == start[at - 1]);
            assert(head.drop_last() =~= start.take(at - 1));
            assert(insert_by_name(head, item) == insert_by_name(start.take(at - 1), item).push(
                start[at - 1],
            ));
            assert(insert_by_name(start.take(at - 1), item).push(start[at - 1]) + start.skip(
                at as int,
            ) =~= insert_by_name(start.take(at - 1), item) + start.skip(at - 1));
        }
        at = at - 1;
        more = at > 0 && !name_before_or_same(&sorted[at - 1].0, &name);
    }
    proof {
        let head = start.take(at as int);
        if at > 0 {
            assert(head.last() == start[at - 1]);
            assert(insert_by_name(head, item) == head.push(item));
        } else {
            assert(head =~= Seq::empty());
            assert(insert_by_name(head, item) =~= head.push(item));
        }
    }
    sorted.insert(at, (name, value));
    proof {
        lemma_named_values_view(sorted@);
        assert(named_values_view(sorted@) =~= start.take(at as int).push(item) + start.skip(
            at as int,
        ));
    }
}

/// Whether two lists of ranges are the same.
pub fn ranges_same(a: &Vec<(usize, usize)>, b: &Vec<(usize, usize)>) -> (same: bool)
    ensures
        same == (a@ == b@),
{
    if a.len() != b.len() {
        return false;
    }
    let mut i: usize = 0;
    while i < a.len()
        invariant
            i <= a.len(),
            a.len() == b.len(),
            forall|k: int| 0 <= k < i ==> a@[k] == b@[k],
        decreases a.len() - i,
    {
        if a[i].0 != b[i].0 || a[i].1 != b[i].1 {
            return false;
        }
        i = i + 1;
    }
    proof {
        assert(a@ =~= b@);
    }
    true
}

impl PartialEq for MFrame {
    fn eq(&self, other: &MFrame) -> (same: bool) {
        let same_name = self.name == other.name;
        same_name && ranges_same(&self.ranges, &other.ranges) && named_values_same(
            &self.locals,
            &other.locals,
        )
    }
}

impl PartialEqSpecImpl for MFrame {
    open spec fn obeys_eq_spec() -> bool {
        true
    }

    open spec fn eq_spec(&self, other: &MFrame) -> bool {
        frame_eq(self@, other@)
    }
}

} // verus!
