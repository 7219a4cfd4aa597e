//! Query parameters of the template endpoints: which parameters carry JSON, under which
//! name a parameter lands in the template context, and how repeated names are merged.
use vstd::prelude::*;
use crate::json::{Json, JsonValue, member_models, models, array_of};
use crate::text::{ends_with, has_suffix, owned, trim_end_all, trim_end_matches};

verus! {

/// `true` when a parameter's value is JSON text: its name ends in `.json` or `_json`.
pub open spec fn is_json_key(key: Seq<char>) -> bool {
    ends_with(key, ".json"@) || ends_with(key, "_json"@)
}

/// The name under which a parameter lands in the context: for a JSON parameter, its name
/// with trailing `.json`, then trailing `_json`, removed (each as often as it repeats).
pub open spec fn context_key(key: Seq<char>) -> Seq<char> {
    if is_json_key(key) {
        trim_end_all(trim_end_all(key, ".json"@), "_json"@)
    } else {
        key
    }
}

/// A query parameter's name in the context, and whether its value is JSON text.
pub fn classify_query_key(key: &str) -> (r: (String, bool))
    ensures
        r.0@ == context_key(key@),
        r.1 == is_json_key(key@),
{
    proof {
        reveal_strlit(".json");
        reveal_strlit("_json");
    }
    if has_suffix(key, ".json") || has_suffix(key, "_json") {
        let a = trim_end_matches(key, ".json");
        (trim_end_matches(a.as_str(), "_json"), true)
    } else {
        (owned(key), false)
    }
}

/// A value added under a name that already holds `existing`: appended where `existing`
/// is an array, otherwise the two become a two-element array.
pub open spec fn add_value(existing: Json, value: Json) -> Json {
    match existing {
        Json::Array(items) => Json::Array(items.push(value)),
        _ => Json::Array(seq![existing, value]),
    }
}

/// The index of the entry named `key`, if any.
pub open spec fn key_index(entries: Seq<(Seq<char>, Json)>, key: Seq<char>) -> Option<int> {
    if exists|i: int| 0 <= i < entries.len() && entries[i].0 == key {
        Some(choose|i: int| 0 <= i < entries.len() && entries[i].0 == key)
    } else {
        None
    }
}

/// The parameters, in order, merged by name: the first occurrence of a name gives its
/// place and value; each later one is added with `add_value`.
pub open spec fn merged(params: Seq<(Seq<char>, Json)>) -> Seq<(Seq<char>, Json)>
    decreases params.len(),
{
    if params.len() == 0 {
        Seq::empty()
    } else {
        let before = merged(params.drop_last());
        let (key, value) = params.last();
        match key_index(before, key) {
            None => before.push((key, value)),
            Some(i) => before.update(i, (key, add_value(before[i].1, value))),
        }
    }
}

/// `true` when no name occurs twice among `entries`.
pub open spec fn unique_keys(entries: Seq<(Seq<char>, Json)>) -> bool {
    forall|i: int, j: int|
        0 <= i < entries.len() && 0 <= j < entries.len() && i != j ==> entries[i].0 != entries[j].0
}

/// The values given under the name `key`, in their order.
pub open spec fn values_under(params: Seq<(Seq<char>, Json)>, key: Seq<char>) -> Seq<Json>
    decreases params.len(),
{
    if params.len() == 0 {
        Seq::empty()
    } else {
        let before = values_under(params.drop_last(), key);
        if params.last().0 == key {
            before.push(params.last().1)
        } else {
            before
        }
    }
}

/// What a name holds in the context when `values` were given under it, in this order:
/// the first value, with each later one added by `add_value`.
pub open spec fn folded(values: Seq<Json>) -> Json
    decreases values.len(),
{
    if values.len() <= 1 {
        values[0]
    } else {
        add_value(folded(values.drop_last()), values.last())
    }
}

/// Merged entries as the template context sees them: a map from name to value.
pub open spec fn context_of(entries: Seq<(Seq<char>, Json)>) -> Map<Seq<char>, Json> {
    Map::new(
        |k: Seq<char>| key_index(entries, k) is Some,
        |k: Seq<char>| entries[key_index(entries, k)->0].1,
    )
}

/// Among entries with distinct names, the entry named `key` is found at its index.
pub proof fn lemma_unique_index(entries: Seq<(Seq<char>, Json)>, key: Seq<char>, i: int)
    requires
        unique_keys(entries),
        0 <= i < entries.len(),
        entries[i].0 == key,
    ensures
        key_index(entries, key) == Some(i),
{
    let c = choose|c: int| 0 <= c < entries.len() && entries[c].0 == key;
    assert(0 <= c < entries.len() && entries[c].0 == key);
}

/// The merged parameters hold each name once; a name is in the context exactly when some
/// value was given under it, and it holds those values folded in their order.
pub proof fn lemma_merged_by_name(params: Seq<(Seq<char>, Json)>)
    ensures
        unique_keys(merged(params)),
        forall|k: Seq<char>|
            #[trigger] context_of(merged(params)).dom().contains(k) <==> values_under(
                params,
                k,
            ).len() > 0,
        forall|k: Seq<char>|
            values_under(params, k).len() > 0 ==> #[trigger] context_of(merged(params))[k]
                == folded(values_under(params, k)),
    decreases params.len(),
{
    if params.len() > 0 {
        let dl = params.drop_last();
        lemma_merged_by_name(dl);
        let before = merged(dl);
        let (key, value) = params.last();
        let r = merged(params);
        match key_index(before, key) {
            None => {
                assert(r == before.push((key, value)));
                assert(values_under(dl, key).len() == 0) by {
                    assert(!context_of(before).dom().contains(key));
                }
                assert(unique_keys(r)) by {
                    assert forall|i: int, j: int|
                        0 <= i < r.len() && 0 <= j < r.len() && i != j implies r[i].0 != r[j].0 by {
                        if i == before.len() && r[i].0 == r[j].0 {
                            assert(before[j].0 == key);
                        }
                        if j == before.len() && r[i].0 == r[j].0 {
                            assert(before[i].0 == key);
                        }
                    }
                }
                assert forall|k: Seq<char>|
                    #[trigger] context_of(r).dom().contains(k) <==> values_under(params, k).len()
                        > 0 by {
                    if k == key {
                        lemma_unique_index(r, k, before.len() as int);
                    } else {
                        assert(values_under(params, k) == values_under(dl, k));
                        match key_index(before, k) {
                            Some(j) => {
                                assert(context_of(before).dom().contains(k));
                                assert(before[j].0 == k);
                                lemma_unique_index(r, k, j);
                            },
                            None => {
                                assert(!context_of(before).dom().contains(k));
                                if exists|i: int| 0 <= i < r.len() && r[i].0 == k {
                                    let i = choose|i: int| 0 <= i < r.len() && r[i].0 == k;
                                    assert(before[i].0 == k);
                                }
                            },
                        }
                    }
                }
                assert forall|k: Seq<char>|
                    values_under(params, k).len() > 0 implies #[trigger] context_of(r)[k]
                        == folded(values_under(params, k)) by {
                    if k == key {
                        lemma_unique_index(r, k, before.len() as int);
                        assert(values_under(params, k) =~= seq![value]);
                    } else {
                        assert(values_under(params, k) == values_under(dl, k));
                        assert(context_of(before).dom().contains(k));
                        let j = key_index(before, k)->0;
                        assert(before[j].0 == k);
                        lemma_unique_index(r, k, j);
                        assert(context_of(before)[k] == before[j].1);
                    }
                }
            },
            Some(i) => {
                assert(r == before.update(i, (key, add_value(before[i].1, value))));
                assert(unique_keys(r)) by {
                    assert forall|a: int, b: int|
                        0 <= a < r.len() && 0 <= b < r.len() && a != b implies r[a].0 != r[b].0 by {
                        assert(r[a].0 == before[a].0);
                        assert(r[b].0 == before[b].0);
                    }
                }
                assert forall|k: Seq<char>|
                    #[trigger] context_of(r).dom().contains(k) <==> values_under(params, k).len()
                        > 0 by {
                    if k == key {
                        lemma_unique_index(r, k, i);
                    } else {
                        assert(values_under(params, k) == values_under(dl, k));
                        match key_index(before, k) {
                            Some(j) => {
                                assert(context_of(before).dom().contains(k));
                                assert(before[j].0 == k);
                                lemma_unique_index(r, k, j);
                            },
                            None => {
                                assert(!context_of(before).dom().contains(k));
                                if exists|a: int| 0 <= a < r.len() && r[a].0 == k {
                                    let a = choose|a: int| 0 <= a < r.len() && r[a].0 == k;
                                    assert(before[a].0 == k);
                                }
                            },
                        }
                    }
                }
                assert forall|k: Seq<char>|
                    values_under(params, k).len() > 0 implies #[trigger] context_of(r)[k]
                        == folded(values_under(params, k)) by {
                    if k == key {
                        lemma_unique_index(r, k, i);
                        lemma_unique_index(before, k, i);
                        assert(context_of(before).dom().contains(k));
                        let vs = values_under(params, k);
                        assert(vs == values_under(dl, k).push(value));
                        assert(vs.drop_last() =~= values_under(dl, k));
                        assert(values_under(dl, k).len() > 0);
                        assert(context_of(before)[k] == before[i].1);
                        assert(before[i].1 == folded(values_under(dl, k)));
                        assert(folded(vs) == add_value(folded(vs.drop_last()), vs.last()));
                    } else {
                        assert(values_under(params, k) == values_under(dl, k));
                        assert(context_of(before).dom().contains(k));
                        let j = key_index(before, k)->0;
                        assert(before[j].0 == k);
                        lemma_unique_index(r, k, j);
                        assert(context_of(before)[k] == before[j].1);
                    }
                }
            },
        }
    }
}

/// Some value was given under `key` exactly when some parameter has that name.
pub proof fn lemma_values_under_nonempty(params: Seq<(Seq<char>, Json)>, key: Seq<char>)
    ensures
        values_under(params, key).len() > 0 <==> exists|i: int|
            0 <= i < params.len() && params[i].0 == key,
    decreases params.len(),
{
    if params.len() > 0 {
        let dl = params.drop_last();
        lemma_values_under_nonempty(dl, key);
        if exists|i: int| 0 <= i < dl.len() && dl[i].0 == key {
            let i = choose|i: int| 0 <= i < dl.len() && dl[i].0 == key;
            assert(params[i].0 == key);
        }
        if exists|i: int| 0 <= i < params.len() && params[i].0 == key {
            let i = choose|i: int| 0 <= i < params.len() && params[i].0 == key;
            if i < dl.len() {
                assert(dl[i].0 == key);
            }
        }
    }
}

/// `existing` with `value` added by `add_value`.
fn add_to(existing: JsonValue, value: JsonValue) -> (r: JsonValue)
    ensures
        r.model() == add_value(existing.model(), value.model()),
{
    match existing {
        JsonValue::Array(items) => {
            proof {
                crate::json::lemma_array_model(items);
            }
            let ghost before = items@;
            let mut items = items;
            items.push(value);
            let r = array_of(items);
            assert(models(items@) =~= models(before).push(value.model()));
            r
        },
        other => {
            let ghost m = other.model();
            let mut items: Vec<JsonValue> = Vec::new();
            items.push(other);
            items.push(value);
            let r = array_of(items);
            assert(models(items@) =~= seq![m, value.model()]);
            r
        },
    }
}

/// The parameters merged by name (see `merged`): one entry per name, in the order in
/// which names first occur.
pub fn merge_query_values(params: Vec<(String, JsonValue)>) -> (r: Vec<(String, JsonValue)>)
    ensures
        member_models(r@) == merged(member_models(params@)),
        unique_keys(member_models(r@)),
{
    let ghost all = member_models(params@);
    let n = params.len();
    let mut rest = crate::json::reversed(params);
    let mut out: Vec<(String, JsonValue)> = Vec::new();
    assert(all.take(0) =~= Seq::<(Seq<char>, Json)>::empty());
    while rest.len() > 0
        invariant
            n == all.len(),
            rest.len() <= n,
            forall|j: int|
                0 <= j < rest.len() ==> ((#[trigger] rest@[j]).0@, rest@[j].1.model()) == all[n - 1
                    - j],
            member_models(out@) == merged(all.take(n - rest.len())),
            unique_keys(member_models(out@)),
        decreases rest.len(),
    {
        let k = n - rest.len();
        let (key, value) = rest.pop().unwrap();
        assert(all.take(k + 1).drop_last() =~= all.take(k as int));
        assert(all.take(k + 1).last() == all[k as int]);
        let ghost before = member_models(out@);
        let mut i: usize = 0;
        let mut found = false;
        while i < out.len()
            invariant
                before == member_models(out@),
                i <= out.len(),
                !found ==> forall|j: int| 0 <= j < i ==> before[j].0 != key@,
                found ==> i < out.len() && before[i as int].0 == key@,
            ensures
                before == member_models(out@),
                !found ==> forall|j: int| 0 <= j < out.len() ==> before[j].0 != key@,
                found ==> i < out.len() && before[i as int].0 == key@,
            decreases out.len() - i,
        {
            if out[i].0 == key {
                found = true;
                break;
            }
            i = i + 1;
        }
        if found {
            assert(key_index(before, key@) == Some(i as int)) by {
                assert(before[i as int].0 == key@);
                let c = choose|c: int| 0 <= c < before.len() && before[c].0 == key@;
                assert(c == i);
            }
            let (name, existing) = out.remove(i);
            let combined = add_to(existing, value);
            out.insert(i, (name, combined));
            assert(member_models(out@) =~= before.update(
                i as int,
                (key@, add_value(before[i as int].1, all[k as int].1)),
            ));
        } else {
            assert(key_index(before, key@) is None);
            out.push((key, value));
            assert(member_models(out@) =~= before.push(all[k as int]));
        }
    }
    assert(all.take(n as int) =~= all);
    out
}

} // verus!
