//! Looking a name up in a sequence of names that holds no name twice.
//!
//! Pools, buffers and tasks are all kept in insertion order and found by
//! name. The models of those collections share the definitions below.

use vstd::prelude::*;

verus! {

/// No name occurs at two places of `names`.
pub open spec fn distinct(names: Seq<Seq<char>>) -> bool {
    forall|i: int, j: int| 0 <= i < j < names.len() ==> names[i] != names[j]
}

/// `name` stands at index `i` of `names`.
pub open spec fn stands_at(names: Seq<Seq<char>>, name: Seq<char>, i: int) -> bool {
    0 <= i < names.len() && names[i] == name
}

/// The place of `name` in `names`, if it occurs there.
pub open spec fn position(names: Seq<Seq<char>>, name: Seq<char>) -> Option<int> {
    if exists|i: int| stands_at(names, name, i) {
        Some(choose|i: int| stands_at(names, name, i))
    } else {
        None
    }
}

/// In a sequence without repetition, the index at which a name stands is its
/// position.
pub proof fn lemma_position_found(names: Seq<Seq<char>>, name: Seq<char>, i: int)
    requires
        distinct(names),
        stands_at(names, name, i),
    ensures
        position(names, name) == Some(i),
{
    let j = choose|j: int| stands_at(names, name, j);
    assert(stands_at(names, name, j));
    if i < j {
        assert(names[i] != names[j]);
    } else if j < i {
        assert(names[j] != names[i]);
    }
}

/// A name that stands nowhere in the sequence has no position.
pub proof fn lemma_position_absent(names: Seq<Seq<char>>, name: Seq<char>)
    requires
        forall|i: int| 0 <= i < names.len() ==> names[i] != name,
    ensures
        position(names, name) is None,
{
    assert forall|i: int| !stands_at(names, name, i) by {
        if 0 <= i < names.len() {
            assert(names[i] != name);
        }
    }
}

/// A position, where there is one, is an index at which the name stands.
pub proof fn lemma_position_stands(names: Seq<Seq<char>>, name: Seq<char>)
    ensures
        match position(names, name) {
            Some(i) => stands_at(names, name, i),
            None => forall|i: int| 0 <= i < names.len() ==> names[i] != name,
        },
{
    if exists|i: int| stands_at(names, name, i) {
        let j = choose|j: int| stands_at(names, name, j);
        assert(stands_at(names, name, j));
    } else {
        assert forall|i: int| 0 <= i < names.len() implies names[i] != name by {
            assert(!stands_at(names, name, i));
        }
    }
}

/// Appending a name that does not occur keeps the sequence free of
/// repetition, and leaves every other name where it was.
pub proof fn lemma_push_fresh(names: Seq<Seq<char>>, name: Seq<char>)
    requires
        distinct(names),
        position(names, name) is None,
    ensures
        distinct(names.push(name)),
        position(names.push(name), name) == Some(names.len() as int),
        forall|other: Seq<char>| other != name ==> position(names.push(name), other) == position(names, other),
{
    lemma_position_stands(names, name);
    let grown = names.push(name);
    assert forall|i: int, j: int| 0 <= i < j < grown.len() implies grown[i] != grown[j] by {
        if j < names.len() {
            assert(names[i] != names[j]);
        } else {
            assert(names[i] != name);
        }
    }
    assert(stands_at(grown, name, names.len() as int));
    lemma_position_found(grown, name, names.len() as int);
    assert forall|other: Seq<char>| other != name implies position(grown, other) == position(
        names,
        other,
    ) by {
        lemma_position_stands(names, other);
        match position(names, other) {
            Some(i) => {
                assert(stands_at(grown, other, i));
                lemma_position_found(grown, other, i);
            },
            None => {
                assert forall|i: int| 0 <= i < grown.len() implies grown[i] != other by {
                    if i < names.len() {
                        assert(names[i] != other);
                    }
                }
                lemma_position_absent(grown, other);
            },
        }
    }
}

/// Taking one name out keeps the sequence free of repetition, and the name
/// that was taken out occurs no more.
pub proof fn lemma_remove_distinct(names: Seq<Seq<char>>, i: int)
    requires
        distinct(names),
        0 <= i < names.len(),
    ensures
        distinct(names.remove(i)),
        position(names.remove(i), names[i]) is None,
{
    let rest = names.remove(i);
    assert forall|a: int, b: int| 0 <= a < b < rest.len() implies rest[a] != rest[b] by {
        let a0 = if a < i {
            a
        } else {
            a + 1
        };
        let b0 = if b < i {
            b
        } else {
            b + 1
        };
        assert(rest[a] == names[a0]);
        assert(rest[b] == names[b0]);
        assert(names[a0] != names[b0]);
    }
    assert forall|j: int| 0 <= j < rest.len() implies rest[j] != names[i] by {
        if j < i {
            assert(names[j] != names[i]);
        } else {
            assert(names[i] != names[j + 1]);
        }
    }
    lemma_position_absent(rest, names[i]);
}

} // verus!
