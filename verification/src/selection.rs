//! Which of the files in a directory are fixtures to run, and in what order.

use vstd::prelude::*;

use crate::options;
use crate::order::{self, comes_before};

verus! {

/// How the name of a fixture's file ends: `.json`.
pub open spec fn ending() -> Seq<u8> {
    seq![46u8, 106, 115, 111, 110]
}

/// A file with the extension `json`: something stands before the ending.
pub open spec fn is_fixture_name(name: Seq<u8>) -> bool {
    name.len() > 5 && name.skip(name.len() - 5) == ending()
}

/// A file that is to be run: a fixture, and where `only` is given the one whose
/// name without the ending it is.
pub open spec fn is_selected(name: Seq<u8>, only: Option<Seq<char>>) -> bool {
    is_fixture_name(name) && match only {
        Some(only) => name.take(name.len() - 5) == vstd::utf8::encode_utf8(only),
        None => true,
    }
}

/// Names, by views.
pub open spec fn name_views(names: Seq<Vec<u8>>) -> Seq<Seq<u8>> {
    names.map_values(|name: Vec<u8>| name@)
}

/// The order in which files are run: by name, and those of the same name by
/// their place.
pub open spec fn runs_before(names: Seq<Seq<u8>>, i: usize, j: usize) -> bool {
    ||| order::bytes_before(names[i as int], names[j as int])
    ||| names[i as int] == names[j as int] && i < j
}

/// The places of the files that are to be run, each of them once, in the order
/// in which they are run.
pub open spec fn is_selection(
    names: Seq<Seq<u8>>,
    only: Option<Seq<char>>,
    chosen: Seq<usize>,
) -> bool {
    &&& forall|i: usize| #[trigger] chosen.contains(i) <==> i < names.len() && is_selected(
        names[i as int],
        only,
    )
    &&& forall|m: int, n: int|
        0 <= m < n < chosen.len() ==> runs_before(names, #[trigger] chosen[m], #[trigger] chosen[n])
}

/// Whether the bytes of `name` from `start` to `end` are those of `list`.
fn same_bytes(name: &Vec<u8>, start: usize, end: usize, list: &Vec<u8>) -> (res: bool)
    requires
        start <= end <= name.len(),
    ensures
        res == (name@.subrange(start as int, end as int) == list@),
{
    if list.len() != end - start {
        return false;
    }
    let mut i: usize = 0;
    while i < list.len()
        invariant
            0 <= i <= list.len(),
            start <= end <= name.len(),
            list.len() == end - start,
            forall|k: int| 0 <= k < i ==> name@[start + k] == list@[k],
        decreases list.len() - i,
    {
        if name[start + i] != list[i] {
            assert(name@.subrange(start as int, end as int)[i as int] != list@[i as int]);
            return false;
        }
        i = i + 1;
    }
    assert(name@.subrange(start as int, end as int) =~= list@);
    true
}

/// Whether a file is to be run, see [`is_selected`].
pub fn selects(name: &Vec<u8>, only: &Option<String>) -> (res: bool)
    ensures
        res == is_selected(name@, options::optional_text(*only)),
{
    if name.len() <= 5 {
        return false;
    }
    let stem: usize = name.len() - 5;
    let ending: Vec<u8> = vec![46u8, 106, 115, 111, 110];
    proof {
        assert(ending@ =~= self::ending());
        assert(name@.subrange(stem as int, name.len() as int) =~= name@.skip(stem as int));
        assert(name@.subrange(0, stem as int) =~= name@.take(stem as int));
    }
    if !same_bytes(name, stem, name.len(), &ending) {
        return false;
    }
    match only {
        Some(only) => same_bytes(name, 0, stem, &only.as_str().as_bytes_vec()),
        None => true,
    }
}

/// Where a file goes among those that are chosen: behind all that are not to
/// run after it.
fn place(names: &Vec<Vec<u8>>, chosen: &Vec<usize>, i: usize) -> (res: usize)
    requires
        i < names.len(),
        forall|m: int| 0 <= m < chosen.len() ==> #[trigger] chosen[m] < i,
        forall|m: int, n: int|
            0 <= m < n < chosen.len() ==> runs_before(
                name_views(names@),
                #[trigger] chosen[m],
                #[trigger] chosen[n],
            ),
    ensures
        res <= chosen.len(),
        forall|m: int|
            0 <= m < res ==> runs_before(name_views(names@), #[trigger] chosen[m], i),
        forall|m: int|
            res <= m < chosen.len() ==> runs_before(name_views(names@), i, #[trigger] chosen[m]),
{
    let ghost all = name_views(names@);
    let mut at: usize = 0;
    while at < chosen.len() && !comes_before(&names[i], &names[chosen[at]])
        invariant
            0 <= at <= chosen.len(),
            i < names.len(),
            all == name_views(names@),
            forall|m: int| 0 <= m < chosen.len() ==> #[trigger] chosen[m] < i,
            forall|m: int| 0 <= m < at ==> runs_before(all, #[trigger] chosen[m], i),
        decreases chosen.len() - at,
    {
        proof {
            order::bytes_order_is_total(all[i as int], all[chosen[at as int] as int]);
        }
        at = at + 1;
    }
    proof {
        assert forall|m: int| at <= m < chosen.len() implies runs_before(
            all,
            i,
            #[trigger] chosen[m],
        ) by {
            let next = chosen[at as int];
            assert(order::bytes_before(all[i as int], all[next as int]));
            if m > at {
                assert(runs_before(all, next, chosen[m]));
                if all[next as int] != all[chosen[m] as int] {
                    order::bytes_order_is_transitive(
                        all[i as int],
                        all[next as int],
                        all[chosen[m] as int],
                    );
                }
            }
        }
    }
    at
}

/// Chooses the files that are to be run, see [`is_selection`].
pub fn select(names: &Vec<Vec<u8>>, only: &Option<String>) -> (res: Vec<usize>)
    ensures
        is_selection(name_views(names@), options::optional_text(*only), res@),
{
    let ghost all = name_views(names@);
    let ghost wanted = options::optional_text(*only);
    let mut chosen: Vec<usize> = Vec::new();
    let mut i: usize = 0;
    while i < names.len()
        invariant
            0 <= i <= names.len(),
            all == name_views(names@),
            wanted == options::optional_text(*only),
            forall|m: int| 0 <= m < chosen.len() ==> #[trigger] chosen[m] < i,
            forall|j: usize| #[trigger]
                chosen@.contains(j) <==> j < i && is_selected(all[j as int], wanted),
            forall|m: int, n: int|
                0 <= m < n < chosen.len() ==> runs_before(
                    all,
                    #[trigger] chosen[m],
                    #[trigger] chosen[n],
                ),
        decreases names.len() - i,
    {
        if selects(&names[i], only) {
            let at: usize = place(names, &chosen, i);
            let ghost before = chosen@;
            chosen.insert(at, i);
            proof {
                assert forall|j: usize| #[trigger] chosen@.contains(j) <==> j <= i && is_selected(
                    all[j as int],
                    wanted,
                ) by {
                    if j == i {
                        assert(chosen@[at as int] == i);
                    }
                    if before.contains(j) {
                        let m = choose|m: int| 0 <= m < before.len() && before[m] == j;
                        if m < at {
                            assert(chosen@[m] == j);
                        } else {
                            assert(chosen@[m + 1] == j);
                        }
                    }
                    if chosen@.contains(j) && j != i {
                        let m = choose|m: int| 0 <= m < chosen@.len() && chosen@[m] == j;
                        if m < at {
                            assert(before[m] == j);
                        } else {
                            assert(before[m - 1] == j);
                        }
                        assert(before.contains(j));
                    }
                }
                assert forall|m: int, n: int| 0 <= m < n < chosen.len() implies runs_before(
                    all,
                    #[trigger] chosen[m],
                    #[trigger] chosen[n],
                ) by {
                    let left = if m <= at {
                        m
                    } else {
                        m - 1
                    };
                    let right = if n <= at {
                        n
                    } else {
                        n - 1
                    };
                    if m == at {
                        assert(runs_before(all, i, before[right]));
                    } else if n == at {
                        assert(runs_before(all, before[left], i));
                    } else {
                        assert(runs_before(all, before[left], before[right]));
                    }
                }
            }
        }
        i = i + 1;
    }
    chosen
}

/// The files fix which of them are run and in what order.
pub proof fn the_selection_is_determined(
    names: Seq<Seq<u8>>,
    only: Option<Seq<char>>,
    chosen: Seq<usize>,
    other: Seq<usize>,
)
    requires
        is_selection(names, only, chosen),
        is_selection(names, only, other),
    ensures
        chosen == other,
{
    let before = |i: usize, j: usize| runs_before(names, i, j);
    assert forall|i: usize, j: usize| !(#[trigger] before(i, j) && before(j, i)) by {
        order::bytes_come_one_way(names[i as int], names[j as int]);
    }
    assert(order::in_turn(chosen, before));
    assert(order::in_turn(other, before));
    assert forall|i: usize| #[trigger] chosen.contains(i) <==> other.contains(i) by {
        assert(other.contains(i) <==> i < names.len() && is_selected(names[i as int], only));
    }
    order::order_determines_a_list(chosen, other, before);
}

/// Asking for one fixture runs no others: what is run then is also run without
/// asking.
pub proof fn asking_for_one_only_narrows(name: Seq<u8>, only: Seq<char>)
    ensures
        is_selected(name, Some(only)) <==> is_selected(name, None)
            && name == vstd::utf8::encode_utf8(only) + ending(),
{
    if is_selected(name, None) {
        let stem = name.take(name.len() - 5);
        assert(name =~= stem + name.skip(name.len() - 5));
        if name == vstd::utf8::encode_utf8(only) + ending() {
            assert(stem =~= vstd::utf8::encode_utf8(only));
        }
    }
}

/// Names come one for one, with all their bytes.
pub proof fn names_come_one_for_one(names: Seq<Vec<u8>>)
    ensures
        name_views(names).len() == names.len(),
        forall|i: int| 0 <= i < names.len() ==> #[trigger] name_views(names)[i] == names[i]@,
{
}

/// A file is a fixture exactly when its name is something and then `.json`,
/// and it is the one that is asked for exactly when that something is what is
/// asked for.
pub proof fn fixtures_are_named_json(name: Seq<u8>, only: Seq<char>, stem: Seq<u8>)
    ensures
        is_selected(stem + seq![46u8, 106, 115, 111, 110], None) <==> stem.len() > 0,
        is_selected(stem + seq![46u8, 106, 115, 111, 110], Some(only)) <==> stem.len() > 0 && stem
            == vstd::utf8::encode_utf8(only),
        is_selected(name, None) ==> name.len() > 5 && name == name.take(name.len() - 5) + seq![
            46u8,
            106,
            115,
            111,
            110,
        ],
        is_selected(name, Some(only)) ==> is_selected(name, None),
{
    let whole = stem + seq![46u8, 106, 115, 111, 110];
    assert(whole.skip(stem.len() as int) =~= seq![46u8, 106, 115, 111, 110]);
    assert(whole.take(stem.len() as int) =~= stem);
    if is_selected(name, None) {
        assert(name =~= name.take(name.len() - 5) + name.skip(name.len() - 5));
    }
}

/// What is chosen are the places of the selected files, each once, none out of
/// range. A file is run before another of a greater name, and of those of the
/// same name the one that is listed first.
pub proof fn selections_are_sorted_by_name(
    names: Seq<Seq<u8>>,
    only: Option<Seq<char>>,
    chosen: Seq<usize>,
)
    requires
        is_selection(names, only, chosen),
    ensures
        chosen.no_duplicates(),
        forall|i: usize| #[trigger]
            chosen.contains(i) <==> i < names.len() && is_selected(names[i as int], only),
        forall|m: int, n: int|
            0 <= m < n < chosen.len() ==> {
                let (i, j) = (#[trigger] chosen[m], #[trigger] chosen[n]);
                &&& !order::bytes_before(names[j as int], names[i as int])
                &&& names[i as int] != names[j as int] ==> order::bytes_before(
                    names[i as int],
                    names[j as int],
                )
                &&& names[i as int] == names[j as int] ==> i < j
            },
{
    assert forall|m: int, n: int| 0 <= m < n < chosen.len() implies {
        let (i, j) = (#[trigger] chosen[m], #[trigger] chosen[n]);
        &&& !order::bytes_before(names[j as int], names[i as int])
        &&& names[i as int] != names[j as int] ==> order::bytes_before(
            names[i as int],
            names[j as int],
        )
        &&& names[i as int] == names[j as int] ==> i < j
    } by {
        let (i, j) = (chosen[m], chosen[n]);
        assert(runs_before(names, i, j));
        order::bytes_come_one_way(names[i as int], names[j as int]);
        order::bytes_come_one_way(names[i as int], names[i as int]);
    }
}

} // verus!
