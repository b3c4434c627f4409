//! Tables from a name to a value, kept as a list of entries in the order in
//! which the names first came.

use vstd::prelude::*;

verus! {

/// The first index at or after `from` whose entry has the name `name`.
pub open spec fn position_from<V>(table: Seq<(Seq<char>, V)>, name: Seq<char>, from: int)
    -> Option<int>
    decreases table.len() - from,
{
    if from < 0 || from >= table.len() {
        None
    } else if table[from].0 == name {
        Some(from)
    } else {
        position_from(table, name, from + 1)
    }
}

/// The index of the first entry of `table` that has the name `name`.
pub open spec fn position<V>(table: Seq<(Seq<char>, V)>, name: Seq<char>) -> Option<int> {
    position_from(table, name, 0)
}

/// The value that `table` holds for `name`: that of the first entry with
/// that name.
pub open spec fn value_of<V>(table: Seq<(Seq<char>, V)>, name: Seq<char>) -> Option<V> {
    match position(table, name) {
        Some(i) => Some(table[i].1),
        None => None,
    }
}

/// No name stands twice in `table`.
pub open spec fn distinct_names<V>(table: Seq<(Seq<char>, V)>) -> bool {
    forall|i: int, j: int|
        0 <= i < j < table.len() ==> (#[trigger] table[i]).0 != (#[trigger] table[j]).0
}

/// `table` with `value` for `name`: in place of the value that it held for
/// that name, or else as a new last entry.
pub open spec fn put<V>(table: Seq<(Seq<char>, V)>, name: Seq<char>, value: V) -> Seq<
    (Seq<char>, V),
> {
    match position(table, name) {
        Some(i) => table.update(i, (name, value)),
        None => table.push((name, value)),
    }
}

/// `table` with `item` added to the list of `name`, which is a new last entry
/// if the table had none for that name.
pub open spec fn add_item<V>(table: Seq<(Seq<char>, Seq<V>)>, name: Seq<char>, item: V) -> Seq<
    (Seq<char>, Seq<V>),
> {
    match position(table, name) {
        Some(i) => table.update(i, (name, table[i].1.push(item))),
        None => table.push((name, seq![item])),
    }
}

/// `table` with an empty list for `name`, unless it has an entry for it.
pub open spec fn register<V>(table: Seq<(Seq<char>, Seq<V>)>, name: Seq<char>) -> Seq<
    (Seq<char>, Seq<V>),
> {
    match position(table, name) {
        Some(_) => table,
        None => table.push((name, Seq::empty())),
    }
}

/// `table` with `item` added to every list.
pub open spec fn add_to_all<V>(table: Seq<(Seq<char>, Seq<V>)>, item: V) -> Seq<
    (Seq<char>, Seq<V>),
> {
    Seq::new(table.len(), |i: int| (table[i].0, table[i].1.push(item)))
}

/// What `position_from` returns is the first entry at or after `from` with
/// that name, and it returns `None` only when there is none.
pub proof fn lemma_position_from<V>(table: Seq<(Seq<char>, V)>, name: Seq<char>, from: int)
    requires
        0 <= from,
    ensures
        match position_from(table, name, from) {
            Some(i) => from <= i < table.len() && table[i].0 == name && forall|j: int|
                from <= j < i ==> (#[trigger] table[j]).0 != name,
            None => forall|j: int| from <= j < table.len() ==> (#[trigger] table[j]).0 != name,
        },
    decreases table.len() - from,
{
    if from >= table.len() {
    } else if table[from].0 == name {
    } else {
        lemma_position_from(table, name, from + 1);
    }
}

/// `put` keeps the names of a table distinct.
pub proof fn lemma_put_distinct<V>(table: Seq<(Seq<char>, V)>, name: Seq<char>, value: V)
    requires
        distinct_names(table),
    ensures
        distinct_names(put(table, name, value)),
{
    lemma_position_from(table, name, 0);
}

/// `add_item` keeps the names of a table distinct.
pub proof fn lemma_add_item_distinct<V>(
    table: Seq<(Seq<char>, Seq<V>)>,
    name: Seq<char>,
    item: V,
)
    requires
        distinct_names(table),
    ensures
        distinct_names(add_item(table, name, item)),
{
    lemma_position_from(table, name, 0);
}

/// `register` keeps the names of a table distinct.
pub proof fn lemma_register_distinct<V>(table: Seq<(Seq<char>, Seq<V>)>, name: Seq<char>)
    requires
        distinct_names(table),
    ensures
        distinct_names(register(table, name)),
{
    lemma_position_from(table, name, 0);
}

/// `add_to_all` keeps the names of a table distinct.
pub proof fn lemma_add_to_all_distinct<V>(table: Seq<(Seq<char>, Seq<V>)>, item: V)
    requires
        distinct_names(table),
    ensures
        distinct_names(add_to_all(table, item)),
{
}

/// `table` has an entry for `name`.
pub open spec fn has_name<V>(table: Seq<(Seq<char>, V)>, name: Seq<char>) -> bool {
    position(table, name) is Some
}

/// A table has an entry for a name exactly when one of its entries has that
/// name.
pub proof fn lemma_has_name<V>(table: Seq<(Seq<char>, V)>, name: Seq<char>)
    ensures
        has_name(table, name) <==> exists|i: int|
            0 <= i < table.len() && (#[trigger] table[i]).0 == name,
{
    lemma_position_from(table, name, 0);
    if has_name(table, name) {
        let i = position(table, name)->0;
        assert(0 <= i < table.len() && table[i].0 == name);
    }
}

/// After `add_item` the table has an entry for the name given, and for the
/// names that it had an entry for, and for no other.
pub proof fn lemma_add_item_names<V>(
    table: Seq<(Seq<char>, Seq<V>)>,
    name: Seq<char>,
    item: V,
    other: Seq<char>,
)
    ensures
        has_name(add_item(table, name, item), name),
        has_name(add_item(table, name, item), other) <==> other == name || has_name(table, other),
{
    let added = add_item(table, name, item);
    lemma_position_from(table, name, 0);
    lemma_has_name(table, other);
    lemma_has_name(added, name);
    lemma_has_name(added, other);
    match position(table, name) {
        Some(i) => {
            assert(added[i].0 == name);
        },
        None => {
            assert(added[table.len() as int].0 == name);
        },
    }
    if has_name(table, other) {
        let j = choose|j: int| 0 <= j < table.len() && (#[trigger] table[j]).0 == other;
        assert(added[j].0 == other);
    }
    if has_name(added, other) && other != name {
        let j = choose|j: int| 0 <= j < added.len() && (#[trigger] added[j]).0 == other;
        assert(table[j].0 == other);
    }
}

/// After `register` the table has an entry for the name given, and for the
/// names that it had an entry for.
pub proof fn lemma_register_names<V>(
    table: Seq<(Seq<char>, Seq<V>)>,
    name: Seq<char>,
    other: Seq<char>,
)
    ensures
        has_name(register(table, name), name),
        has_name(table, other) ==> has_name(register(table, name), other),
{
    let entered = register(table, name);
    lemma_position_from(table, name, 0);
    lemma_has_name(table, other);
    lemma_has_name(entered, name);
    lemma_has_name(entered, other);
    if position(table, name) is None {
        assert(entered[table.len() as int].0 == name);
    }
    if has_name(table, other) {
        let j = choose|j: int| 0 <= j < table.len() && (#[trigger] table[j]).0 == other;
        assert(entered[j].0 == other);
    }
}

/// After `add_to_all` the table has an entry for the names that it had an
/// entry for.
pub proof fn lemma_add_to_all_names<V>(
    table: Seq<(Seq<char>, Seq<V>)>,
    item: V,
    other: Seq<char>,
)
    ensures
        has_name(table, other) ==> has_name(add_to_all(table, item), other),
{
    let all = add_to_all(table, item);
    lemma_has_name(table, other);
    lemma_has_name(all, other);
    if has_name(table, other) {
        let j = choose|j: int| 0 <= j < table.len() && (#[trigger] table[j]).0 == other;
        assert(all[j].0 == other);
    }
}

/// The index of the first entry of `table` that has the name `name`.
pub fn find_name<T: DeepView>(table: &Vec<(String, T)>, name: &String) -> (r: Option<usize>)
    ensures
        match r {
            Some(i) => position(table.deep_view(), name@) == Some(i as int) && i < table.len()
                && table[i as int].0@ == name@,
            None => position(table.deep_view(), name@) is None,
        },
{
    let mut i: usize = 0;
    while i < table.len()
        invariant
            i <= table.len(),
            position(table.deep_view(), name@) == position_from(
                table.deep_view(),
                name@,
                i as int,
            ),
        decreases table.len() - i,
    {
        if table[i].0 == *name {
            return Some(i);
        }
        i += 1;
    }
    None
}

/// The value that `table` holds for `name`.
pub fn lookup<'a, T: DeepView>(table: &'a Vec<(String, T)>, name: &str) -> (r: Option<&'a T>)
    ensures
        match r {
            Some(value) => value_of(table.deep_view(), name@) == Some(value.deep_view()),
            None => value_of(table.deep_view(), name@) is None,
        },
{
    let key = name.to_owned();
    match find_name(table, &key) {
        Some(i) => Some(&table[i].1),
        None => None,
    }
}

} // verus!
