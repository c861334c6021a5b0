//! Lists of names and values, as forms and headers have them.

use vstd::prelude::*;

use crate::text;

verus! {

/// Names and values, by their characters.
pub open spec fn pairs(list: Seq<(String, String)>) -> Seq<(Seq<char>, Seq<char>)> {
    list.map_values(|p: (String, String)| (p.0@, p.1@))
}

/// Where a name first stands, or the length of the list without it.
pub open spec fn place_of(list: Seq<(Seq<char>, Seq<char>)>, name: Seq<char>) -> int
    decreases list.len(),
{
    if list.len() == 0 || list[0].0 == name {
        0
    } else {
        1 + place_of(list.skip(1), name)
    }
}

/// The value under a name.
pub open spec fn value_of(list: Seq<(Seq<char>, Seq<char>)>, name: Seq<char>) -> Option<Seq<char>> {
    let at = place_of(list, name);
    if at < list.len() {
        Some(list[at].1)
    } else {
        None
    }
}

/// The list with a value put under a name: in the place of the value that was
/// there, or at the end.
pub open spec fn with_value(
    list: Seq<(Seq<char>, Seq<char>)>,
    name: Seq<char>,
    value: Seq<char>,
) -> Seq<(Seq<char>, Seq<char>)> {
    let at = place_of(list, name);
    if at < list.len() {
        list.update(at, (name, value))
    } else {
        list.push((name, value))
    }
}

/// Whether no name occurs twice.
pub open spec fn distinct(list: Seq<(Seq<char>, Seq<char>)>) -> bool {
    forall|i: int, j: int|
        0 <= i < j < list.len() ==> #[trigger] list[i].0 != #[trigger] list[j].0
}

/// What `place_of` finds: the first place of the name, or the end.
pub proof fn lemma_place_of(list: Seq<(Seq<char>, Seq<char>)>, name: Seq<char>)
    ensures
        0 <= place_of(list, name) <= list.len(),
        place_of(list, name) < list.len() ==> list[place_of(list, name)].0 == name,
        forall|i: int| 0 <= i < place_of(list, name) ==> (#[trigger] list[i]).0 != name,
    decreases list.len(),
{
    if list.len() > 0 && list[0].0 != name {
        let rest = list.skip(1);
        lemma_place_of(rest, name);
        assert forall|i: int| 0 <= i < place_of(list, name) implies (#[trigger] list[i]).0
            != name by {
            if i > 0 {
                assert(rest[i - 1] == list[i]);
            }
        }
    }
}

/// A place before which the name does not stand, and where it does or the list
/// ends, is the one that `place_of` finds.
proof fn lemma_is_place(list: Seq<(Seq<char>, Seq<char>)>, name: Seq<char>, at: int)
    requires
        0 <= at <= list.len(),
        at < list.len() ==> list[at].0 == name,
        forall|i: int| 0 <= i < at ==> (#[trigger] list[i]).0 != name,
    ensures
        place_of(list, name) == at,
{
    lemma_place_of(list, name);
    let found = place_of(list, name);
    if found < at {
        assert(list[found].0 != name);
    } else if at < found {
        assert(list[at].0 != name);
    }
}

/// Where a name first stands, or the length of the list without it.
pub fn find(list: &Vec<(String, String)>, name: &str) -> (r: usize)
    ensures
        r == place_of(pairs(list@), name@),
        r <= list@.len(),
{
    let ghost all = pairs(list@);
    let mut i: usize = 0;
    while i < list.len()
        invariant
            i <= list@.len(),
            all == pairs(list@),
            forall|k: int| 0 <= k < i ==> (#[trigger] all[k]).0 != name@,
        decreases list@.len() - i,
    {
        assert(all[i as int].0 == list@[i as int].0@);
        if text::same(list[i].0.as_str(), name) {
            proof {
                lemma_is_place(all, name@, i as int);
            }
            return i;
        }
        i = i + 1;
    }
    proof {
        lemma_is_place(all, name@, i as int);
    }
    i
}

/// The value under a name.
pub fn get<'a>(list: &'a Vec<(String, String)>, name: &str) -> (r: Option<&'a str>)
    ensures
        r is Some == value_of(pairs(list@), name@) is Some,
        r matches Some(value) ==> value_of(pairs(list@), name@) == Some(value@),
{
    let i = find(list, name);
    if i < list.len() {
        Some(list[i].1.as_str())
    } else {
        None
    }
}

/// Puts a value under a name.
pub fn put(list: &mut Vec<(String, String)>, name: String, value: String)
    ensures
        pairs(final(list)@) == with_value(pairs(old(list)@), name@, value@),
{
    let ghost before = pairs(list@);
    let ghost pair = (name@, value@);
    let i = find(list, name.as_str());
    if i < list.len() {
        list.set(i, (name, value));
        assert(pairs(list@) =~= before.update(i as int, pair));
    } else {
        list.push((name, value));
        assert(pairs(list@) =~= before.push(pair));
    }
}

// ------------------------------------------------------------------- order

/// Whether one name comes before another, by the characters where they first
/// differ.
pub open spec fn precedes(a: Seq<char>, b: Seq<char>) -> bool
    decreases a.len(),
{
    if b.len() == 0 {
        false
    } else if a.len() == 0 {
        true
    } else if a[0] != b[0] {
        a[0] < b[0]
    } else {
        precedes(a.skip(1), b.skip(1))
    }
}

/// Whether the names of a list ascend.
pub open spec fn ascending(list: Seq<(Seq<char>, Seq<char>)>) -> bool {
    forall|i: int, j: int|
        0 <= i < j < list.len() ==> precedes(#[trigger] list[i].0, #[trigger] list[j].0)
}

/// How many names at the head of a list come before a name.
pub open spec fn rank(list: Seq<(Seq<char>, Seq<char>)>, name: Seq<char>) -> int
    decreases list.len(),
{
    if list.len() == 0 || !precedes(list[0].0, name) {
        0
    } else {
        1 + rank(list.skip(1), name)
    }
}

/// An ascending list with a value put under a name: in the place of the value
/// that was there, or before the first name that comes after.
pub open spec fn placed(
    list: Seq<(Seq<char>, Seq<char>)>,
    name: Seq<char>,
    value: Seq<char>,
) -> Seq<(Seq<char>, Seq<char>)> {
    let at = rank(list, name);
    if at < list.len() && list[at].0 == name {
        list.update(at, (name, value))
    } else {
        list.insert(at, (name, value))
    }
}

/// The values of a list in the order of their names, one under each name: the
/// last that the list gives.
pub open spec fn arranged(list: Seq<(Seq<char>, Seq<char>)>) -> Seq<(Seq<char>, Seq<char>)>
    decreases list.len(),
{
    if list.len() == 0 {
        list
    } else {
        placed(arranged(list.drop_last()), list.last().0, list.last().1)
    }
}

/// The last value that a list gives under a name.
pub open spec fn last_value_of(list: Seq<(Seq<char>, Seq<char>)>, name: Seq<char>) -> Option<
    Seq<char>,
>
    decreases list.len(),
{
    if list.len() == 0 {
        None
    } else if list.last().0 == name {
        Some(list.last().1)
    } else {
        last_value_of(list.drop_last(), name)
    }
}

/// What `rank` counts: names that come before, up to one that does not.
proof fn lemma_rank(list: Seq<(Seq<char>, Seq<char>)>, name: Seq<char>)
    ensures
        0 <= rank(list, name) <= list.len(),
        rank(list, name) < list.len() ==> !precedes(list[rank(list, name)].0, name),
        forall|i: int| 0 <= i < rank(list, name) ==> precedes((#[trigger] list[i]).0, name),
    decreases list.len(),
{
    if list.len() > 0 && precedes(list[0].0, name) {
        let rest = list.skip(1);
        lemma_rank(rest, name);
        assert forall|i: int| 0 <= i < rank(list, name) implies precedes(
            (#[trigger] list[i]).0,
            name,
        ) by {
            if i > 0 {
                assert(rest[i - 1] == list[i]);
            }
        }
    }
}

/// A place up to which the names come before, and where one does not or the
/// list ends, is the one that `rank` counts to.
proof fn lemma_is_rank(list: Seq<(Seq<char>, Seq<char>)>, name: Seq<char>, at: int)
    requires
        0 <= at <= list.len(),
        at < list.len() ==> !precedes(list[at].0, name),
        forall|i: int| 0 <= i < at ==> precedes((#[trigger] list[i]).0, name),
    ensures
        rank(list, name) == at,
{
    lemma_rank(list, name);
    let found = rank(list, name);
    if found < at {
        assert(precedes(list[found].0, name));
    } else if at < found {
        assert(precedes(list[at].0, name));
    }
}

/// Names with a common head are in the order of what follows it.
proof fn lemma_precedes_after(a: Seq<char>, b: Seq<char>, n: int)
    requires
        0 <= n <= a.len(),
        n <= b.len(),
        a.take(n) == b.take(n),
    ensures
        precedes(a, b) == precedes(a.skip(n), b.skip(n)),
    decreases n,
{
    if n == 0 {
        assert(a.skip(0) =~= a);
        assert(b.skip(0) =~= b);
    } else {
        assert(a[0] == a.take(n)[0]);
        assert(b[0] == b.take(n)[0]);
        let x = a.skip(1);
        let y = b.skip(1);
        assert(x.take(n - 1) =~= a.take(n).skip(1));
        assert(y.take(n - 1) =~= b.take(n).skip(1));
        lemma_precedes_after(x, y, n - 1);
        assert(x.skip(n - 1) =~= a.skip(n));
        assert(y.skip(n - 1) =~= b.skip(n));
    }
}

/// Whether one name comes before another.
pub fn comes_before(a: &str, b: &str) -> (r: bool)
    ensures
        r == precedes(a@, b@),
{
    let x = text::chars_of(a);
    let y = text::chars_of(b);
    let mut i: usize = 0;
    while i < x.len() && i < y.len() && x[i] == y[i]
        invariant
            i <= x@.len(),
            i <= y@.len(),
            x@.take(i as int) == y@.take(i as int),
        decreases x@.len() - i,
    {
        assert(x@.take(i + 1) =~= x@.take(i as int).push(x@[i as int]));
        assert(y@.take(i + 1) =~= y@.take(i as int).push(y@[i as int]));
        i = i + 1;
    }
    proof {
        lemma_precedes_after(x@, y@, i as int);
    }
    if i >= y.len() {
        false
    } else if i >= x.len() {
        true
    } else {
        x[i] < y[i]
    }
}

/// Puts a value under a name in an ascending list.
fn place(list: &mut Vec<(String, String)>, name: String, value: String)
    ensures
        pairs(final(list)@) == placed(pairs(old(list)@), name@, value@),
{
    let ghost before = pairs(list@);
    let ghost pair = (name@, value@);
    let mut i: usize = 0;
    while i < list.len() && comes_before(list[i].0.as_str(), name.as_str())
        invariant
            i <= list@.len(),
            before == pairs(list@),
            forall|k: int| 0 <= k < i ==> precedes((#[trigger] before[k]).0, name@),
        decreases list@.len() - i,
    {
        assert(before[i as int].0 == list@[i as int].0@);
        i = i + 1;
    }
    proof {
        if i < list@.len() {
            assert(before[i as int].0 == list@[i as int].0@);
        }
        lemma_is_rank(before, name@, i as int);
    }
    if i < list.len() && text::same(list[i].0.as_str(), name.as_str()) {
        list.set(i, (name, value));
        assert(pairs(list@) =~= before.update(i as int, pair));
    } else {
        list.insert(i, (name, value));
        assert(pairs(list@) =~= before.insert(i as int, pair));
    }
}

/// The values of a list in the order of their names, one under each name: the
/// last that the list gives.
pub fn arrange(list: &Vec<(String, String)>) -> (r: Vec<(String, String)>)
    ensures
        pairs(r@) == arranged(pairs(list@)),
{
    let ghost all = pairs(list@);
    let mut r: Vec<(String, String)> = Vec::new();
    let mut i: usize = 0;
    assert(pairs(r@) =~= all.take(0));
    while i < list.len()
        invariant
            i <= list@.len(),
            all == pairs(list@),
            pairs(r@) == arranged(all.take(i as int)),
        decreases list@.len() - i,
    {
        place(&mut r, list[i].0.clone(), list[i].1.clone());
        assert(all.take(i + 1).drop_last() =~= all.take(i as int));
        i = i + 1;
    }
    assert(all.take(i as int) =~= all);
    r
}

/// Of two names that differ one comes before the other, none comes before
/// itself, and what comes before a name comes before all that it precedes.
pub proof fn law_names_are_ordered(a: Seq<char>, b: Seq<char>, c: Seq<char>)
    ensures
        !precedes(a, a),
        a != b ==> precedes(a, b) != precedes(b, a),
        precedes(a, b) && precedes(b, c) ==> precedes(a, c),
    decreases a.len(),
{
    if a.len() > 0 {
        law_names_are_ordered(
            a.skip(1),
            if b.len() > 0 {
                b.skip(1)
            } else {
                b
            },
            if c.len() > 0 {
                c.skip(1)
            } else {
                c
            },
        );
        if b.len() > 0 && a[0] == b[0] && a.skip(1) == b.skip(1) {
            assert(a =~= seq![a[0]] + a.skip(1));
            assert(b =~= seq![b[0]] + b.skip(1));
        }
    } else if b.len() == 0 {
        assert(a =~= b);
    }
}

/// Putting a value keeps a list ascending; the value is found under its name,
/// and every other name keeps its value.
proof fn lemma_placed(
    list: Seq<(Seq<char>, Seq<char>)>,
    name: Seq<char>,
    value: Seq<char>,
    other: Seq<char>,
)
    requires
        ascending(list),
    ensures
        ascending(placed(list, name, value)),
        value_of(placed(list, name, value), name) == Some(value),
        other != name ==> value_of(placed(list, name, value), other) == value_of(list, other),
{
    let after = placed(list, name, value);
    let at = rank(list, name);
    lemma_rank(list, name);
    let fresh = !(at < list.len() && list[at].0 == name);
    let shift: int = if fresh {
        1
    } else {
        0
    };
    assert(after[at] == (name, value));
    assert forall|i: int, j: int| 0 <= i < j < after.len() implies precedes(
        #[trigger] after[i].0,
        #[trigger] after[j].0,
    ) by {
        let x = if i <= at {
            i
        } else {
            i - shift
        };
        let y = if j <= at {
            j
        } else {
            j - shift
        };
        if i != at {
            assert(after[i] == list[x]);
        }
        if j != at {
            assert(after[j] == list[y]);
        }
        if i == at {
            // What stands behind the place comes after the name.
            law_names_are_ordered(list[y].0, name, name);
            law_names_are_ordered(list[at].0, name, name);
            if y > at {
                assert(precedes(list[at].0, list[y].0));
                law_names_are_ordered(name, list[at].0, list[y].0);
            }
        } else if j == at {
            assert(precedes(list[i].0, name));
        } else {
            assert(precedes(list[x].0, list[y].0));
        }
    }
    lemma_ascending_is_distinct(after);
    lemma_ascending_is_distinct(list);
    lemma_only_place(after, name, at);
    if other != name {
        lemma_place_of(list, other);
        let o = place_of(list, other);
        if o < list.len() {
            let moved = if o < at {
                o
            } else {
                o + shift
            };
            assert(after[moved] == list[o]);
            lemma_only_place(after, other, moved);
        } else {
            assert forall|i: int| 0 <= i < after.len() implies (#[trigger] after[i]).0 != other by {
                if i < at {
                    assert(after[i] == list[i]);
                } else if i > at {
                    assert(after[i] == list[i - shift]);
                }
            }
            lemma_is_place(after, other, after.len() as int);
        }
    }
}

/// The names of an ascending list are distinct.
proof fn lemma_ascending_is_distinct(list: Seq<(Seq<char>, Seq<char>)>)
    requires
        ascending(list),
    ensures
        distinct(list),
{
    assert forall|i: int, j: int| 0 <= i < j < list.len() implies #[trigger] list[i].0
        != #[trigger] list[j].0 by {
        assert(precedes(list[i].0, list[j].0));
        law_names_are_ordered(list[i].0, list[j].0, list[j].0);
    }
}

/// Among distinct names, a name is found where it stands.
proof fn lemma_only_place(list: Seq<(Seq<char>, Seq<char>)>, name: Seq<char>, at: int)
    requires
        distinct(list),
        0 <= at < list.len(),
        list[at].0 == name,
    ensures
        place_of(list, name) == at,
{
    assert forall|i: int| 0 <= i < at implies (#[trigger] list[i]).0 != name by {
        assert(list[i].0 != list[at].0);
    }
    lemma_is_place(list, name, at);
}

/// Arranging a list puts its names in ascending order, each once, and keeps
/// under every name the last value that the list gave.
pub proof fn law_arranged(list: Seq<(Seq<char>, Seq<char>)>, name: Seq<char>)
    ensures
        ascending(arranged(list)),
        distinct(arranged(list)),
        value_of(arranged(list), name) == last_value_of(list, name),
    decreases list.len(),
{
    if list.len() > 0 {
        let head = list.drop_last();
        law_arranged(head, name);
        lemma_placed(arranged(head), list.last().0, list.last().1, name);
    }
    lemma_ascending_is_distinct(arranged(list));
}

/// What was put under a name is found there, and every other name keeps its
/// value.
pub proof fn law_put_is_found(
    list: Seq<(Seq<char>, Seq<char>)>,
    name: Seq<char>,
    value: Seq<char>,
    other: Seq<char>,
)
    ensures
        value_of(with_value(list, name, value), name) == Some(value),
        other != name ==> value_of(with_value(list, name, value), other) == value_of(list, other),
{
    let after = with_value(list, name, value);
    let at = place_of(list, name);
    lemma_place_of(list, name);
    lemma_place_of(list, other);
    assert forall|i: int| 0 <= i < at implies (#[trigger] after[i]).0 != name by {
        assert(after[i] == list[i]);
    }
    lemma_is_place(after, name, at);
    if other != name {
        let o = place_of(list, other);
        assert forall|i: int| 0 <= i < o implies (#[trigger] after[i]).0 != other by {
            if i < list.len() && i != at {
                assert(after[i] == list[i]);
            }
        }
        if o < list.len() {
            assert(after[o] == list[o]);
            lemma_is_place(after, other, o);
        } else {
            lemma_is_place(after, other, after.len() as int);
        }
    }
}

/// Putting a value keeps the names distinct.
pub proof fn law_put_keeps_names_distinct(
    list: Seq<(Seq<char>, Seq<char>)>,
    name: Seq<char>,
    value: Seq<char>,
)
    requires
        distinct(list),
    ensures
        distinct(with_value(list, name, value)),
{
    lemma_place_of(list, name);
    let after = with_value(list, name, value);
    let at = place_of(list, name);
    assert forall|i: int, j: int| 0 <= i < j < after.len() implies #[trigger] after[i].0
        != #[trigger] after[j].0 by {
        if i < list.len() && j < list.len() {
            assert(after[i].0 == list[i].0);
            assert(after[j].0 == list[j].0);
        } else {
            assert(after[i] == list[i]);
        }
    }
}

/// The value under a name is the first that the list holds there.
pub proof fn law_first_value_is_found(
    before: Seq<(Seq<char>, Seq<char>)>,
    name: Seq<char>,
    value: Seq<char>,
    after: Seq<(Seq<char>, Seq<char>)>,
)
    requires
        forall|i: int| 0 <= i < before.len() ==> (#[trigger] before[i]).0 != name,
    ensures
        value_of(before + seq![(name, value)] + after, name) == Some(value),
        value_of(before, name) is None,
{
    let whole = before + seq![(name, value)] + after;
    assert forall|i: int| 0 <= i < before.len() implies (#[trigger] whole[i]).0 != name by {
        assert(whole[i] == before[i]);
    }
    assert(whole[before.len() as int] == (name, value));
    lemma_is_place(whole, name, before.len() as int);
    lemma_is_place(before, name, before.len() as int);
}

/// Names are in the order of their characters where they first differ, and a name
/// comes before those that go on after it.
pub proof fn law_order_of_names(
    head: Seq<char>,
    a: char,
    b: char,
    rest: Seq<char>,
    other: Seq<char>,
)
    requires
        a < b,
    ensures
        precedes(head + seq![a] + rest, head + seq![b] + other),
        precedes(head, head + seq![a] + rest),
{
    let x = head + seq![a] + rest;
    let y = head + seq![b] + other;
    let n = head.len() as int;
    assert(x.take(n) =~= y.take(n));
    lemma_precedes_after(x, y, n);
    assert(x.skip(n)[0] == a && y.skip(n)[0] == b);
    assert(head.take(n) =~= x.take(n));
    lemma_precedes_after(head, x, n);
}

/// A value that is put stands where the name stood, or at the end.
pub proof fn law_where_a_value_is_put(
    before: Seq<(Seq<char>, Seq<char>)>,
    name: Seq<char>,
    old_value: Seq<char>,
    after: Seq<(Seq<char>, Seq<char>)>,
    value: Seq<char>,
)
    requires
        forall|i: int| 0 <= i < before.len() ==> (#[trigger] before[i]).0 != name,
    ensures
        with_value(before + seq![(name, old_value)] + after, name, value) == before + seq![
            (name, value),
        ] + after,
        with_value(before, name, value) == before.push((name, value)),
{
    let whole = before + seq![(name, old_value)] + after;
    assert forall|i: int| 0 <= i < before.len() implies (#[trigger] whole[i]).0 != name by {
        assert(whole[i] == before[i]);
    }
    assert(whole[before.len() as int] == (name, old_value));
    lemma_is_place(whole, name, before.len() as int);
    lemma_is_place(before, name, before.len() as int);
    assert(with_value(whole, name, value) =~= before + seq![(name, value)] + after);
}

/// Names and values are what their strings hold, in order.
pub proof fn law_pairs_are_what_they_hold(list: Seq<(String, String)>, i: int)
    requires
        0 <= i < list.len(),
    ensures
        pairs(list).len() == list.len(),
        pairs(list)[i] == (list[i].0@, list[i].1@),
{
}

} // verus!
