//! Tables from names to entries, kept as lists of pairs. The entry of a name
//! is that of the first pair that has the name.

use vstd::prelude::*;
use crate::token::{LoxStr, bytes_copy, bytes_eq};
use crate::value::{Value, ValueView};

verus! {

/// The names of a list of pairs, in order.
pub open spec fn keys<T>(pairs: Seq<(LoxStr, T)>) -> Seq<Seq<u8>> {
    Seq::new(pairs.len(), |i: int| pairs[i].0@)
}

/// The first place at or after `from` that holds `name`.
pub open spec fn first(names: Seq<Seq<u8>>, name: Seq<u8>, from: int) -> Option<int>
    decreases names.len() - from,
{
    if from < 0 || from >= names.len() {
        None
    } else if names[from] == name {
        Some(from)
    } else {
        first(names, name, from + 1)
    }
}

/// The table that a list of pairs stands for.
pub open spec fn table_view(pairs: Seq<(LoxStr, Value)>) -> Map<Seq<u8>, ValueView> {
    Map::new(
        |k: Seq<u8>| first(keys(pairs), k, 0) is Some,
        |k: Seq<u8>| pairs[first(keys(pairs), k, 0).unwrap()].1@,
    )
}

/// The view of a value that may be missing.
pub open spec fn option_view(v: Option<Value>) -> Option<ValueView> {
    match v {
        Some(x) => Some(x@),
        None => None,
    }
}

/// What `first` finds is the earliest match, and where it finds nothing there
/// is none.
pub proof fn lemma_first(names: Seq<Seq<u8>>, name: Seq<u8>, from: int)
    requires
        0 <= from,
    ensures
        match first(names, name, from) {
            Some(i) => from <= i < names.len() && names[i] == name && forall|j: int|
                from <= j < i ==> names[j] != name,
            None => forall|j: int| from <= j < names.len() ==> names[j] != name,
        },
    decreases names.len() - from,
{
    if from < names.len() && names[from] != name {
        lemma_first(names, name, from + 1);
    }
}

/// A match with none before it is what `first` finds.
pub proof fn lemma_first_is(names: Seq<Seq<u8>>, name: Seq<u8>, from: int, i: int)
    requires
        0 <= from <= i < names.len(),
        names[i] == name,
        forall|j: int| from <= j < i ==> names[j] != name,
    ensures
        first(names, name, from) == Some(i),
    decreases i - from,
{
    if from < i {
        lemma_first_is(names, name, from + 1, i);
    }
}

/// Finds the first pair with the given name.
pub fn position<T>(pairs: &Vec<(LoxStr, T)>, name: &LoxStr) -> (r: Option<usize>)
    ensures
        match r {
            Some(i) => first(keys(pairs@), name@, 0) == Some(i as int) && i < pairs.len(),
            None => first(keys(pairs@), name@, 0) is None,
        },
{
    let mut i: usize = 0;
    while i < pairs.len()
        invariant
            i <= pairs.len(),
            first(keys(pairs@), name@, 0) == first(keys(pairs@), name@, i as int),
        decreases pairs.len() - i,
    {
        if bytes_eq(&pairs[i].0, name) {
            return Some(i);
        }
        i = i + 1;
    }
    None
}

/// Reads the entry of a name.
pub fn table_get(pairs: &Vec<(LoxStr, Value)>, name: &LoxStr) -> (r: Option<Value>)
    ensures
        option_view(r) == (if table_view(pairs@).dom().contains(name@) {
            Some(table_view(pairs@)[name@])
        } else {
            None
        }),
{
    match position(pairs, name) {
        Some(i) => Some(pairs[i].1.duplicate()),
        None => None,
    }
}

/// Gives a name an entry: in place of the one it has, or as a new pair. A
/// list in which no name stood twice stays one.
pub fn table_put(pairs: &mut Vec<(LoxStr, Value)>, name: &LoxStr, value: Value)
    ensures
        table_view(final(pairs)@) == table_view(old(pairs)@).insert(name@, value@),
        keys(old(pairs)@).no_duplicates() ==> keys(final(pairs)@).no_duplicates(),
{
    let ghost before = pairs@;
    let found = position(pairs, name);
    let ghost at: int = match found {
        Some(i) => i as int,
        None => pairs.len() as int,
    };
    proof {
        lemma_first(keys(before), name@, 0);
    }
    match found {
        Some(i) => {
            pairs.set(i, (bytes_copy(name), value));
        },
        None => {
            pairs.push((bytes_copy(name), value));
        },
    }
    proof {
        let after = pairs@;
        assert(keys(after).len() == after.len());
        assert(keys(after)[at] == name@);
        assert(after[at].1@ == value@);
        assert forall|j: int| 0 <= j < before.len() && j != at implies #[trigger] keys(after)[j]
            == keys(before)[j] && after[j] == before[j] by {}
        assert forall|k: Seq<u8>|
            first(keys(after), k, 0) == (if k == name@ {
                Some(at)
            } else {
                first(keys(before), k, 0)
            }) by {
            lemma_first(keys(before), k, 0);
            assert(forall|j: int| 0 <= j < at ==> keys(before)[j] == #[trigger] keys(after)[j]);
            if k == name@ {
                lemma_first_is(keys(after), k, 0, at);
            } else {
                match first(keys(before), k, 0) {
                    Some(j) => {
                        assert(forall|i: int|
                            0 <= i < j ==> keys(before)[i] != k || #[trigger] keys(after)[i] == k);
                        assert forall|i: int| 0 <= i < j implies #[trigger] keys(after)[i]
                            != k by {
                            if i != at {
                                assert(keys(after)[i] == keys(before)[i]);
                            }
                        }
                        lemma_first_is(keys(after), k, 0, j);
                    },
                    None => {
                        lemma_first(keys(after), k, 0);
                        if first(keys(after), k, 0) is Some {
                            let i = first(keys(after), k, 0).unwrap();
                            if i != at {
                                assert(keys(after)[i] == keys(before)[i]);
                            }
                        }
                    },
                }
            }
        }
        if keys(before).no_duplicates() {
            assert forall|i: int, j: int|
                0 <= i < keys(after).len() && 0 <= j < keys(after).len() && i != j implies keys(
                after,
            )[i] != keys(after)[j] by {
                if i != at && j != at {
                    assert(keys(after)[i] == keys(before)[i]);
                    assert(keys(after)[j] == keys(before)[j]);
                } else if i == at {
                    assert(keys(after)[j] == keys(before)[j]);
                } else {
                    assert(keys(after)[i] == keys(before)[i]);
                }
            }
        }
        let want = table_view(before).insert(name@, value@);
        assert forall|k: Seq<u8>| #[trigger] table_view(after).dom().contains(k) implies table_view(
            after,
        )[k] == want[k] by {
            if k != name@ {
                lemma_first(keys(before), k, 0);
                let j = first(keys(before), k, 0).unwrap();
                assert(keys(before)[j] == k);
                assert(j != at);
                assert(after[j] == before[j]);
            }
        }
        assert(table_view(after) =~= want);
    }
}

} // verus!
