//! The version comparator: which version of a package's history immediately
//! precedes a given one, in the lexicographic order of the raw version text.

use vstd::prelude::*;
use crate::error::ResolveError;
use crate::text::{
    compare_text, lemma_lex_le_transitive, lemma_lex_trichotomy, lex_le, lex_lt, same_text,
    TextOrder,
};

verus! {

/// The text of each version of a history, in the history's order.
pub open spec fn texts(versions: Seq<String>) -> Seq<Seq<char>> {
    versions.map_values(|version: String| version@)
}

/// No element comes after a later one.
pub open spec fn ascending(history: Seq<Seq<char>>) -> bool {
    forall|i: int, j: int| 0 <= i < j < history.len() ==> lex_le(history[i], history[j])
}

/// The greatest element of `history` that comes strictly before `target`.
pub open spec fn greatest_below(history: Seq<Seq<char>>, target: Seq<char>) -> Option<Seq<char>>
    decreases history.len(),
{
    if history.len() == 0 {
        None
    } else {
        let earlier = greatest_below(history.drop_last(), target);
        let candidate = history.last();
        if lex_lt(candidate, target) && (earlier is None || lex_lt(earlier->0, candidate)) {
            Some(candidate)
        } else {
            earlier
        }
    }
}

/// What the comparator answers for `target` in `history`: a failure where the
/// history lacks the target, else the greatest version strictly before it, or
/// none where the target is the earliest.
pub open spec fn previous_of(history: Seq<Seq<char>>, target: Seq<char>) -> Result<
    Option<Seq<char>>,
    ResolveError,
> {
    if history.contains(target) {
        Ok(greatest_below(history, target))
    } else {
        Err(ResolveError::VersionNotFound)
    }
}

/// The content of a comparator's answer.
pub open spec fn resolved_view(resolved: Result<Option<String>, ResolveError>) -> Result<
    Option<Seq<char>>,
    ResolveError,
> {
    match resolved {
        Ok(Some(version)) => Ok(Some(version@)),
        Ok(None) => Ok(None),
        Err(error) => Err(error),
    }
}

/// `index` is the first place at which `history` holds `target`.
pub open spec fn first_at(history: Seq<Seq<char>>, target: Seq<char>, index: int) -> bool {
    &&& 0 <= index < history.len()
    &&& history[index] == target
    &&& forall|k: int| 0 <= k < index ==> history[k] != target
}

/// `greatest_below` names an element of the history below the target that no
/// other such element exceeds, and names none only where no element is below
/// the target.
pub proof fn lemma_greatest_below(history: Seq<Seq<char>>, target: Seq<char>)
    ensures
        match greatest_below(history, target) {
            Some(found) => {
                &&& history.contains(found)
                &&& lex_lt(found, target)
                &&& forall|k: int|
                    0 <= k < history.len() && lex_lt(#[trigger] history[k], target) ==> lex_le(
                        history[k],
                        found,
                    )
            },
            None => forall|k: int| 0 <= k < history.len() ==> !lex_lt(#[trigger] history[k], target),
        },
    decreases history.len(),
{
    if history.len() > 0 {
        let front = history.drop_last();
        let candidate = history.last();
        lemma_greatest_below(front, target);
        let earlier = greatest_below(front, target);
        assert forall|k: int| 0 <= k < front.len() implies front[k] == history[k] by {}
        match greatest_below(history, target) {
            Some(found) => {
                if earlier is Some && found == earlier->0 {
                    let at = choose|k: int| 0 <= k < front.len() && front[k] == found;
                    assert(history[at] == found);
                    lemma_lex_trichotomy(found, candidate);
                } else {
                    assert(history[history.len() - 1] == found);
                    assert forall|k: int|
                        0 <= k < history.len() && lex_lt(
                            #[trigger] history[k],
                            target,
                        ) implies lex_le(history[k], found) by {
                        if k < front.len() {
                            assert(lex_lt(front[k], target));
                            lemma_lex_le_transitive(history[k], earlier->0, found);
                        }
                    }
                }
            },
            None => {},
        }
    }
}

/// An element below the target that no other such element exceeds is the one
/// that `greatest_below` names.
pub proof fn lemma_greatest_below_is(history: Seq<Seq<char>>, target: Seq<char>, found: Seq<char>)
    requires
        history.contains(found),
        lex_lt(found, target),
        forall|k: int|
            0 <= k < history.len() && lex_lt(#[trigger] history[k], target) ==> lex_le(
                history[k],
                found,
            ),
    ensures
        greatest_below(history, target) == Some(found),
{
    lemma_greatest_below(history, target);
    let at = choose|k: int| 0 <= k < history.len() && history[k] == found;
    assert(lex_lt(history[at], target));
    let named = greatest_below(history, target)->0;
    let named_at = choose|k: int| 0 <= k < history.len() && history[k] == named;
    assert(lex_le(history[named_at], found));
    assert(lex_le(history[at], named));
    lemma_lex_trichotomy(found, named);
}

/// Two sequences with the same elements, each as often, hold the same values.
pub proof fn lemma_same_elements(a: Seq<Seq<char>>, b: Seq<Seq<char>>)
    requires
        a.to_multiset() == b.to_multiset(),
    ensures
        forall|v: Seq<char>| a.contains(v) == b.contains(v),
{
    assert forall|v: Seq<char>| a.contains(v) == b.contains(v) by {
        vstd::seq_lib::to_multiset_contains(a, v);
        vstd::seq_lib::to_multiset_contains(b, v);
    }
}

/// The comparator's answer read off a sorted arrangement of the history: the
/// element just before the first place of the target, and none where that
/// place is the first of all.
pub proof fn lemma_previous_in_sorted_order(
    history: Seq<Seq<char>>,
    sorted: Seq<Seq<char>>,
    target: Seq<char>,
    index: int,
)
    requires
        ascending(sorted),
        sorted.to_multiset() == history.to_multiset(),
        first_at(sorted, target, index),
    ensures
        index == 0 ==> previous_of(history, target) == Ok::<Option<Seq<char>>, ResolveError>(None),
        index > 0 ==> previous_of(history, target) == Ok::<Option<Seq<char>>, ResolveError>(
            Some(sorted[index - 1]),
        ),
{
    lemma_same_elements(history, sorted);
    assert(sorted.contains(target));
    assert forall|k: int| 0 <= k < history.len() && lex_lt(#[trigger] history[k], target) implies {
        &&& index > 0
        &&& lex_le(history[k], sorted[index - 1])
    } by {
        let v = history[k];
        assert(history.contains(v));
        let at = choose|m: int| 0 <= m < sorted.len() && sorted[m] == v;
        lemma_lex_trichotomy(v, target);
        if at > index {
            assert(lex_le(sorted[index], sorted[at]));
        }
        assert(at < index);
        if at < index - 1 {
            assert(lex_le(sorted[at], sorted[index - 1]));
        }
    }
    if index > 0 {
        let found = sorted[index - 1];
        assert(sorted.contains(found));
        assert(lex_le(sorted[index - 1], sorted[index]));
        lemma_greatest_below_is(history, target, found);
    } else {
        lemma_greatest_below(history, target);
    }
}

/// The earliest version of a history has no predecessor.
pub proof fn lemma_earliest_has_no_predecessor(history: Seq<Seq<char>>, target: Seq<char>)
    requires
        history.contains(target),
        forall|k: int| 0 <= k < history.len() ==> lex_le(target, #[trigger] history[k]),
    ensures
        previous_of(history, target) == Ok::<Option<Seq<char>>, ResolveError>(None),
{
    lemma_greatest_below(history, target);
    if greatest_below(history, target) is Some {
        let found = greatest_below(history, target)->0;
        let at = choose|k: int| 0 <= k < history.len() && history[k] == found;
        assert(lex_le(target, history[at]));
        lemma_lex_trichotomy(found, target);
    }
}

/// A version that the history lacks is never given a predecessor.
pub proof fn lemma_missing_target_is_refused(history: Seq<Seq<char>>, target: Seq<char>)
    requires
        !history.contains(target),
    ensures
        previous_of(history, target) == Err::<Option<Seq<char>>, ResolveError>(
            ResolveError::VersionNotFound,
        ),
{
}

/// Sorts a history into ascending lexicographic order. The result holds each
/// version as often as the history does.
pub fn sort_versions(versions: &Vec<String>) -> (sorted: Vec<String>)
    ensures
        ascending(texts(sorted@)),
        texts(sorted@).to_multiset() == texts(versions@).to_multiset(),
{
    let mut sorted: Vec<String> = Vec::new();
    let mut taken: usize = 0;
    assert(texts(sorted@) =~= texts(versions@.take(0)));
    while taken < versions.len()
        invariant
            taken <= versions.len(),
            ascending(texts(sorted@)),
            texts(sorted@).to_multiset() == texts(versions@.take(taken as int)).to_multiset(),
        decreases versions.len() - taken,
    {
        let version = versions[taken].clone();
        let mut place: usize = sorted.len();
        while place > 0 && matches!(
            compare_text(version.as_str(), sorted[place - 1].as_str()),
            TextOrder::Before
        )
            invariant
                place <= sorted.len(),
                forall|k: int| place <= k < sorted.len() ==> lex_lt(version@, #[trigger] sorted@[k]@),
            decreases place,
        {
            place -= 1;
        }
        proof {
            let before = texts(sorted@);
            let after = before.insert(place as int, version@);
            assert(texts(sorted@.insert(place as int, version)) =~= after);
            assert(texts(versions@.take(taken + 1)) =~= texts(versions@.take(taken as int)).push(
                version@,
            ));
            vstd::seq_lib::to_multiset_insert(before, place as int, version@);
            vstd::seq_lib::to_multiset_build(texts(versions@.take(taken as int)), version@);
            assert forall|i: int, j: int| 0 <= i < j < after.len() implies lex_le(
                after[i],
                after[j],
            ) by {
                if place > 0 {
                    lemma_lex_trichotomy(version@, before[place - 1]);
                }
                if j < place {
                    assert(lex_le(before[i], before[j]));
                } else if j == place {
                    if i < place - 1 {
                        assert(lex_le(before[i], before[place - 1]));
                        lemma_lex_le_transitive(before[i], before[place - 1], version@);
                    }
                } else if i == place {
                    assert(lex_lt(version@, sorted@[j - 1]@));
                } else if i < place {
                    assert(lex_le(before[i], before[j - 1]));
                } else {
                    assert(lex_le(before[i - 1], before[j - 1]));
                }
            }
        }
        sorted.insert(place, version);
        taken += 1;
    }
    assert(versions@.take(taken as int) =~= versions@);
    sorted
}

/// The first place at which `versions` holds `target`, if it holds it at all.
pub fn position(versions: &Vec<String>, target: &str) -> (found: Option<usize>)
    ensures
        match found {
            Some(index) => first_at(texts(versions@), target@, index as int),
            None => !texts(versions@).contains(target@),
        },
{
    let mut index: usize = 0;
    while index < versions.len()
        invariant
            index <= versions.len(),
            forall|k: int| 0 <= k < index ==> texts(versions@)[k] != target@,
        decreases versions.len() - index,
    {
        if same_text(versions[index].as_str(), target) {
            return Some(index);
        }
        index += 1;
    }
    None
}

/// Resolves the version that immediately precedes `target` in the history
/// `versions`: sorts the history, finds the target and takes the element
/// before it.
pub fn previous_version(versions: &Vec<String>, target: &str) -> (previous: Result<
    Option<String>,
    ResolveError,
>)
    ensures
        resolved_view(previous) == previous_of(texts(versions@), target@),
{
    let sorted = sort_versions(versions);
    proof {
        lemma_same_elements(texts(versions@), texts(sorted@));
    }
    match position(&sorted, target) {
        None => Err(ResolveError::VersionNotFound),
        Some(index) => {
            proof {
                lemma_previous_in_sorted_order(
                    texts(versions@),
                    texts(sorted@),
                    target@,
                    index as int,
                );
            }
            if index == 0 {
                Ok(None)
            } else {
                Ok(Some(sorted[index - 1].clone()))
            }
        },
    }
}

} // verus!
