//! Sequences: searching, collecting results, and maps kept as sequences of
//! keyed pairs.

use vstd::prelude::*;
use crate::text::same_text;

verus! {

/// The position of the first element of `s` that satisfies `pred`, or the
/// length of `s` when none does.
pub open spec fn first_index<T>(s: Seq<T>, pred: spec_fn(T) -> bool) -> int
    decreases s.len(),
{
    if s.len() == 0 {
        0
    } else if pred(s[0]) {
        0
    } else {
        1 + first_index(s.drop_first(), pred)
    }
}

/// What `first_index` returns: a position in range, before which nothing
/// satisfies `pred`, and at which something does unless it is the length.
pub proof fn lemma_first_index<T>(s: Seq<T>, pred: spec_fn(T) -> bool)
    ensures
        0 <= first_index(s, pred) <= s.len(),
        first_index(s, pred) < s.len() ==> pred(s[first_index(s, pred)]),
        forall|k: int| 0 <= k < first_index(s, pred) ==> !pred(#[trigger] s[k]),
    decreases s.len(),
{
    if s.len() > 0 && !pred(s[0]) {
        let rest = s.drop_first();
        lemma_first_index(rest, pred);
        assert forall|k: int| 0 <= k < first_index(s, pred) implies !pred(#[trigger] s[k]) by {
            if k > 0 {
                assert(s[k] == rest[k - 1]);
            }
        }
    }
}

/// A position with the properties of `first_index` is `first_index`.
pub proof fn lemma_first_index_is<T>(s: Seq<T>, pred: spec_fn(T) -> bool, i: int)
    requires
        0 <= i <= s.len(),
        i < s.len() ==> pred(s[i]),
        forall|k: int| 0 <= k < i ==> !pred(#[trigger] s[k]),
    ensures
        first_index(s, pred) == i,
    decreases s.len(),
{
    if s.len() > 0 && i > 0 {
        let rest = s.drop_first();
        assert(!pred(s[0]));
        assert forall|k: int| 0 <= k < i - 1 implies !pred(#[trigger] rest[k]) by {
            assert(rest[k] == s[k + 1]);
        }
        lemma_first_index_is(rest, pred, i - 1);
    }
}

/// All the values of a sequence of results, or else its first error.
pub open spec fn collect<T, E>(results: Seq<Result<T, E>>) -> Result<Seq<T>, E>
    decreases results.len(),
{
    if results.len() == 0 {
        Ok(Seq::empty())
    } else {
        match collect(results.drop_last()) {
            Err(error) => Err(error),
            Ok(values) => match results.last() {
                Ok(value) => Ok(values.push(value)),
                Err(error) => Err(error),
            },
        }
    }
}

/// The values that are present, in order.
pub open spec fn somes<T>(options: Seq<Option<T>>) -> Seq<T>
    decreases options.len(),
{
    if options.len() == 0 {
        Seq::empty()
    } else {
        match options.last() {
            Some(value) => somes(options.drop_last()).push(value),
            None => somes(options.drop_last()),
        }
    }
}

/// Whether a pair is filed under `key`.
pub open spec fn keyed<V>(key: Seq<char>) -> spec_fn((Seq<char>, V)) -> bool {
    |pair: (Seq<char>, V)| pair.0 == key
}

/// The map with `value` under `key`: in the place of the pair that had the
/// key, or at the end if there was none.
pub open spec fn upsert<V>(pairs: Seq<(Seq<char>, V)>, key: Seq<char>, value: V) -> Seq<
    (Seq<char>, V),
> {
    let i = first_index(pairs, keyed(key));
    if 0 <= i < pairs.len() {
        pairs.update(i, (key, value))
    } else {
        pairs.push((key, value))
    }
}

/// The map that holds, for each key among the pairs, the value of the last
/// pair with that key; the keys stand in the order in which they first came.
pub open spec fn upsert_all<V>(pairs: Seq<(Seq<char>, V)>) -> Seq<(Seq<char>, V)>
    decreases pairs.len(),
{
    if pairs.len() == 0 {
        Seq::empty()
    } else {
        upsert(upsert_all(pairs.drop_last()), pairs.last().0, pairs.last().1)
    }
}

/// An error among the first `k` results is the error of them all.
pub proof fn lemma_collect_error<T, E>(results: Seq<Result<T, E>>, k: int)
    requires
        0 <= k <= results.len(),
        collect(results.take(k)) is Err,
    ensures
        collect(results) == collect(results.take(k)),
    decreases results.len() - k,
{
    if k < results.len() {
        assert(results.take(k + 1).drop_last() == results.take(k));
        lemma_collect_error(results, k + 1);
    } else {
        assert(results.take(k) == results);
    }
}

/// Whether no key occurs twice among the pairs.
pub open spec fn distinct_keys<V>(pairs: Seq<(Seq<char>, V)>) -> bool {
    forall|i: int, j: int|
        0 <= i < j < pairs.len() ==> (#[trigger] pairs[i]).0 != (#[trigger] pairs[j]).0
}

/// What collecting gives when it succeeds: as many values as there are
/// results, each the value of the result in its place.
pub proof fn lemma_collect_ok<T, E>(results: Seq<Result<T, E>>)
    requires
        collect(results) is Ok,
    ensures
        collect(results)->Ok_0.len() == results.len(),
        forall|i: int|
            0 <= i < results.len() ==> #[trigger] results[i] == Ok::<T, E>(
                collect(results)->Ok_0[i],
            ),
    decreases results.len(),
{
    if results.len() > 0 {
        let before = results.drop_last();
        lemma_collect_ok(before);
        assert forall|i: int| 0 <= i < results.len() implies #[trigger] results[i] == Ok::<T, E>(
            collect(results)->Ok_0[i],
        ) by {
            if i < before.len() {
                assert(results[i] == before[i]);
            }
        }
    }
}

/// Every value that is present stands among the options.
pub proof fn lemma_somes_members<T>(options: Seq<Option<T>>)
    ensures
        forall|i: int|
            0 <= i < somes(options).len() ==> options.contains(Some(#[trigger] somes(options)[i])),
    decreases options.len(),
{
    if options.len() > 0 {
        let before = options.drop_last();
        lemma_somes_members(before);
        assert forall|i: int| 0 <= i < somes(options).len() implies options.contains(
            Some(#[trigger] somes(options)[i]),
        ) by {
            if i < somes(before).len() {
                let k = choose|k: int| 0 <= k < before.len() && before[k] == Some(somes(before)[i]);
                assert(options[k] == before[k]);
            } else {
                assert(options[options.len() - 1] == options.last());
            }
        }
    }
}

/// A map with one more value put into it has no key twice, and each of its
/// pairs is the new one or one that it had.
pub proof fn lemma_upsert<V>(pairs: Seq<(Seq<char>, V)>, key: Seq<char>, value: V)
    requires
        distinct_keys(pairs),
    ensures
        distinct_keys(upsert(pairs, key, value)),
        forall|i: int|
            0 <= i < upsert(pairs, key, value).len() ==> {
                let pair = #[trigger] upsert(pairs, key, value)[i];
                pair == (key, value) || pairs.contains(pair)
            },
{
    lemma_first_index(pairs, keyed(key));
    let at = first_index(pairs, keyed(key));
    let after = upsert(pairs, key, value);
    assert forall|i: int, j: int| 0 <= i < j < after.len() implies (#[trigger] after[i]).0 != (
    #[trigger] after[j]).0 by {
        if at < pairs.len() {
            assert(after[i].0 == pairs[i].0);
            assert(after[j].0 == pairs[j].0);
        } else {
            if j < pairs.len() {
                assert(after[i] == pairs[i] && after[j] == pairs[j]);
            } else {
                assert(after[i] == pairs[i]);
                assert(!keyed::<V>(key)(pairs[i]));
            }
        }
    }
    assert forall|i: int| 0 <= i < after.len() implies {
        let pair = #[trigger] after[i];
        pair == (key, value) || pairs.contains(pair)
    } by {
        if i < pairs.len() && i != at {
            assert(after[i] == pairs[i]);
        }
    }
}

/// In the map that pairs make, no key occurs twice, and each pair of the
/// map is one of them.
pub proof fn law_upsert_all<V>(pairs: Seq<(Seq<char>, V)>)
    ensures
        distinct_keys(upsert_all(pairs)),
        forall|i: int|
            0 <= i < upsert_all(pairs).len() ==> pairs.contains(#[trigger] upsert_all(pairs)[i]),
    decreases pairs.len(),
{
    if pairs.len() > 0 {
        let before = pairs.drop_last();
        let last = pairs.last();
        law_upsert_all(before);
        lemma_upsert(upsert_all(before), last.0, last.1);
        let after = upsert_all(pairs);
        assert forall|i: int| 0 <= i < after.len() implies pairs.contains(#[trigger] after[i]) by {
            if after[i] == last {
                assert(pairs[pairs.len() - 1] == last);
            } else {
                assert(upsert_all(before).contains(after[i]));
                let k = choose|k: int|
                    0 <= k < upsert_all(before).len() && upsert_all(before)[k] == after[i];
                assert(before.contains(upsert_all(before)[k]));
                let m = choose|m: int| 0 <= m < before.len() && before[m] == after[i];
                assert(pairs[m] == before[m]);
            }
        }
    }
}

/// Collecting one result more: the values so far and the next value, or
/// the next error.
pub proof fn lemma_collect_step<T, E>(results: Seq<Result<T, E>>, k: int)
    requires
        0 <= k < results.len(),
        collect(results.take(k)) is Ok,
    ensures
        collect(results.take(k + 1)) == match results[k] {
            Ok(value) => Ok::<Seq<T>, E>(collect(results.take(k))->Ok_0.push(value)),
            Err(error) => Err(error),
        },
{
    assert(results.take(k + 1).drop_last() == results.take(k));
}

/// The values that are present among one option more.
pub proof fn lemma_somes_push<T>(options: Seq<Option<T>>, next: Option<T>)
    ensures
        somes(options.push(next)) == match next {
            Some(value) => somes(options).push(value),
            None => somes(options),
        },
{
    assert(options.push(next).drop_last() == options);
}

/// The map of one pair more.
pub proof fn lemma_upsert_all_push<V>(pairs: Seq<(Seq<char>, V)>, key: Seq<char>, value: V)
    ensures
        upsert_all(pairs.push((key, value))) == upsert(upsert_all(pairs), key, value),
{
    assert(pairs.push((key, value)).drop_last() == pairs);
}

/// Puts `value` under `key`: in the place of the pair that had the key, or
/// at the end if there was none.
pub fn insert_keyed<V: DeepView>(pairs: &mut Vec<(String, V)>, key: String, value: V)
    ensures
        final(pairs).deep_view() == upsert(old(pairs).deep_view(), key@, value.deep_view()),
{
    let ghost before = pairs.deep_view();
    let mut i: usize = 0;
    while i < pairs.len()
        invariant
            i <= pairs.len(),
            *pairs == *old(pairs),
            before == pairs.deep_view(),
            forall|k: int| 0 <= k < i ==> !keyed::<V::V>(key@)(#[trigger] before[k]),
        decreases pairs.len() - i,
    {
        assert(before[i as int] == pairs[i as int].deep_view());
        if same_text(pairs[i].0.as_str(), key.as_str()) {
            proof {
                lemma_first_index_is(before, keyed::<V::V>(key@), i as int);
            }
            let ghost pair = (key@, value.deep_view());
            pairs.set(i, (key, value));
            assert(pairs.deep_view() =~= before.update(i as int, pair));
            return ;
        }
        i = i + 1;
    }
    proof {
        lemma_first_index_is(before, keyed::<V::V>(key@), i as int);
    }
    let ghost pair = (key@, value.deep_view());
    pairs.push((key, value));
    assert(pairs.deep_view() =~= before.push(pair));
}

} // verus!
