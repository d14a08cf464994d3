//! The field-identification protocol and the slot machine shared by every
//! record decoder: each incoming key is resolved against the record's closed
//! key list, a slot per field is filled at most once, and the first violation
//! (unknown key, then duplicate key, in input order) aborts the decode.

use vstd::prelude::*;

use crate::error::{DecodeError, SpecDecodeError, strings_view};
use crate::value::{Entry, SpecEntry, SpecValue, Value, entries_view, entry_view, lemma_entries_view, value_view};

verus! {

/// Index of the first occurrence of `k` in `keys`, or -1 if `k` is not there.
pub open spec fn key_index(keys: Seq<Seq<char>>, k: Seq<char>) -> int
    decreases keys.len(),
{
    if keys.len() == 0 {
        -1
    } else if keys[0] == k {
        0
    } else {
        let r = key_index(keys.drop_first(), k);
        if r < 0 {
            -1
        } else {
            r + 1
        }
    }
}

pub proof fn lemma_key_index(keys: Seq<Seq<char>>, k: Seq<char>)
    ensures
        key_index(keys, k) == -1 ==> forall|m: int| 0 <= m < keys.len() ==> keys[m] != k,
        key_index(keys, k) >= 0 ==> 0 <= key_index(keys, k) < keys.len() && keys[key_index(
            keys,
            k,
        )] == k,
    decreases keys.len(),
{
    if keys.len() > 0 {
        lemma_key_index(keys.drop_first(), k);
        if key_index(keys, k) == -1 {
            assert forall|m: int| 0 <= m < keys.len() implies keys[m] != k by {
                if m > 0 {
                    assert(keys.drop_first()[m - 1] == keys[m]);
                }
            }
        }
    }
}

pub proof fn lemma_key_index_at(keys: Seq<Seq<char>>, k: Seq<char>, j: int)
    requires
        0 <= j < keys.len(),
        keys[j] == k,
        forall|m: int| 0 <= m < j ==> keys[m] != k,
    ensures
        key_index(keys, k) == j,
    decreases j,
{
    if j > 0 {
        assert(keys[0] != k);
        lemma_key_index_at(keys.drop_first(), k, j - 1);
    }
}

pub proof fn lemma_key_index_none(keys: Seq<Seq<char>>, k: Seq<char>)
    requires
        forall|m: int| 0 <= m < keys.len() ==> keys[m] != k,
    ensures
        key_index(keys, k) == -1,
    decreases keys.len(),
{
    if keys.len() > 0 {
        lemma_key_index_none(keys.drop_first(), k);
    }
}

/// The model of the decoder's slot bank.
pub open spec fn slots_view(s: Seq<Option<Value>>) -> Seq<Option<SpecValue>> {
    Seq::new(
        s.len(),
        |i: int|
            match s[i] {
                Some(v) => Some(value_view(v)),
                None => None,
            },
    )
}

/// One pass of the slot machine over the remaining entries, with the slots
/// filled so far: the first unknown key or duplicate key (in input order)
/// aborts; otherwise every entry's value lands in its field's slot.
pub open spec fn spec_collect_from(
    entries: Seq<SpecEntry>,
    keys: Seq<Seq<char>>,
    slots: Seq<Option<SpecValue>>,
) -> Result<Seq<Option<SpecValue>>, SpecDecodeError>
    decreases entries.len(),
{
    if entries.len() == 0 {
        Ok(slots)
    } else {
        let j = key_index(keys, entries[0].key);
        if j < 0 {
            Err(SpecDecodeError::UnknownField { key: entries[0].key, expected: keys })
        } else if slots[j] is Some {
            Err(SpecDecodeError::DuplicateField { field: keys[j] })
        } else {
            spec_collect_from(entries.drop_first(), keys, slots.update(j, Some(entries[0].value)))
        }
    }
}

/// What the slot machine makes of an object's entries, starting from all
/// slots empty.
pub open spec fn spec_collect(entries: Seq<SpecEntry>, keys: Seq<Seq<char>>) -> Result<
    Seq<Option<SpecValue>>,
    SpecDecodeError,
> {
    spec_collect_from(entries, keys, Seq::new(keys.len(), |i: int| None))
}

proof fn lemma_collect_from_provenance(
    entries: Seq<SpecEntry>,
    keys: Seq<Seq<char>>,
    slots: Seq<Option<SpecValue>>,
)
    requires
        slots.len() == keys.len(),
    ensures
        match spec_collect_from(entries, keys, slots) {
            Ok(res) => res.len() == slots.len() && forall|j: int|
                0 <= j < res.len() && (#[trigger] res[j]) is Some ==> slots[j] == res[j]
                    || exists|i: int| 0 <= i < entries.len() && entries[i].value == res[j]->0,
            Err(_) => true,
        },
    decreases entries.len(),
{
    if entries.len() > 0 {
        let j0 = key_index(keys, entries[0].key);
        lemma_key_index(keys, entries[0].key);
        if j0 >= 0 && !(slots[j0] is Some) {
            let slots2 = slots.update(j0, Some(entries[0].value));
            lemma_collect_from_provenance(entries.drop_first(), keys, slots2);
            if spec_collect_from(entries, keys, slots) is Ok {
                let res = spec_collect_from(entries, keys, slots)->Ok_0;
                let res2 = spec_collect_from(entries.drop_first(), keys, slots2)->Ok_0;
                assert(res2 == res);
                assert forall|j: int|
                    0 <= j < res.len() && (#[trigger] res[j]) is Some implies slots[j] == res[j]
                        || exists|i: int|
                        0 <= i < entries.len() && entries[i].value == res[j]->0 by {
                    assert(res2[j] is Some);
                    if slots2[j] == res2[j] {
                        if j == j0 {
                            assert(res[j] == Some(entries[0].value));
                            assert(entries[0].value == res[j]->0);
                        }
                    } else {
                        let i = choose|i: int|
                            0 <= i < entries.drop_first().len() && entries.drop_first()[i].value
                                == res2[j]->0;
                        assert(entries[i + 1].value == res[j]->0);
                    }
                }
            }
        }
    }
}

/// On success, every filled slot holds a value that came from one of the
/// input entries.
pub proof fn lemma_collect_provenance(entries: Seq<SpecEntry>, keys: Seq<Seq<char>>)
    ensures
        match spec_collect(entries, keys) {
            Ok(res) => res.len() == keys.len() && forall|j: int|
                0 <= j < res.len() && (#[trigger] res[j]) is Some ==> exists|i: int|
                    0 <= i < entries.len() && entries[i].value == res[j]->0,
            Err(_) => true,
        },
{
    let init = Seq::new(keys.len(), |i: int| None::<SpecValue>);
    lemma_collect_from_provenance(entries, keys, init);
    if spec_collect(entries, keys) is Ok {
        let res = spec_collect(entries, keys)->Ok_0;
        assert(res.len() == keys.len());
        assert forall|j: int|
            0 <= j < res.len() && (#[trigger] res[j]) is Some implies exists|i: int|
            0 <= i < entries.len() && entries[i].value == res[j]->0 by {
            assert(init[j] is None);
        }
    }
}

/// Position of `k` in the key list, following `key_index`.
fn find_key(keys: &Vec<String>, k: &String) -> (r: Option<usize>)
    ensures
        match r {
            Some(j) => j < keys@.len() && key_index(strings_view(keys@), k@) == j as int,
            None => key_index(strings_view(keys@), k@) == -1,
        },
{
    let mut j: usize = 0;
    while j < keys.len()
        invariant
            j <= keys@.len(),
            forall|m: int| 0 <= m < j ==> strings_view(keys@)[m] != k@,
        decreases keys@.len() - j,
    {
        if keys[j] == *k {
            proof {
                lemma_key_index_at(strings_view(keys@), k@, j as int);
            }
            return Some(j);
        }
        j += 1;
    }
    proof {
        lemma_key_index_none(strings_view(keys@), k@);
    }
    None
}

fn clone_strings(keys: &Vec<String>) -> (r: Vec<String>)
    ensures
        r@ == keys@,
{
    let mut r: Vec<String> = Vec::new();
    let mut i: usize = 0;
    while i < keys.len()
        invariant
            i <= keys@.len(),
            r@ == keys@.subrange(0, i as int),
        decreases keys@.len() - i,
    {
        r.push(keys[i].clone());
        proof {
            assert(r@ =~= keys@.subrange(0, i + 1 as int));
        }
        i += 1;
    }
    proof {
        assert(r@ =~= keys@);
    }
    r
}

/// Walk an object's entries and fill one slot per recognized field, exactly
/// as `spec_collect` says: the first unknown or duplicate key aborts the
/// decode. On success each filled slot holds a value moved from the input.
pub fn collect_fields(entries: &mut Vec<Entry>, keys: &Vec<String>) -> (r: Result<
    Vec<Option<Value>>,
    DecodeError,
>)
    ensures
        match r {
            Ok(slots) => spec_collect(entries_view(old(entries)@), strings_view(keys@)) == Ok::<
                _,
                SpecDecodeError,
            >(slots_view(slots@)) && slots@.len() == keys@.len() && (forall|j: int|
                0 <= j < slots@.len() && slots@[j] is Some ==> exists|i: int|
                    0 <= i < old(entries)@.len() && old(entries)@[i].value == slots@[j]->0),
            Err(e) => spec_collect(entries_view(old(entries)@), strings_view(keys@)) == Err::<
                Seq<Option<SpecValue>>,
                _,
            >(e@),
        },
{
    let ghost gentries = entries@;
    let ghost kv = strings_view(keys@);
    let n = keys.len();
    let mut slots: Vec<Option<Value>> = Vec::new();
    let mut t: usize = 0;
    while t < n
        invariant
            t <= n,
            slots@.len() == t,
            forall|m: int| 0 <= m < t ==> slots@[m] is None,
        decreases n - t,
    {
        slots.push(None);
        t += 1;
    }
    proof {
        assert(slots_view(slots@) =~= Seq::new(kv.len(), |i: int| None));
    }
    let ghost mut processed: int = 0;
    while entries.len() > 0
        invariant
            gentries == old(entries)@,
            n == keys@.len(),
            kv == strings_view(keys@),
            slots@.len() == n,
            0 <= processed <= gentries.len(),
            entries@ == gentries.subrange(processed, gentries.len() as int),
            spec_collect_from(entries_view(entries@), kv, slots_view(slots@)) == spec_collect(
                entries_view(gentries),
                kv,
            ),
            forall|j: int|
                0 <= j < slots@.len() && #[trigger] slots@[j] is Some ==> exists|i: int|
                    0 <= i < gentries.len() && gentries[i].value == slots@[j]->0,
        decreases entries@.len(),
    {
        let ghost old_rest = entries@;
        let ghost old_slots = slots@;
        let e = entries.remove(0);
        proof {
            assert(entries@ =~= old_rest.drop_first());
            assert(entries@ =~= gentries.subrange(processed + 1, gentries.len() as int));
            lemma_entries_view(old_rest);
            assert(entries_view(old_rest)[0] == entry_view(e));
            assert(entries_view(old_rest).drop_first() =~= entries_view(entries@)) by {
                lemma_entries_view(entries@);
                lemma_entries_view(old_rest);
                assert forall|i: int| 0 <= i < entries@.len() implies entries_view(
                    old_rest,
                ).drop_first()[i] == entries_view(entries@)[i] by {
                    assert(entries_view(old_rest)[i + 1] == entry_view(old_rest[i + 1]));
                    assert(entries_view(entries@)[i] == entry_view(entries@[i]));
                }
            }
        }
        match find_key(keys, &e.key) {
            None => {
                proof {
                    assert(entries_view(old_rest).len() > 0);
                    assert(entries_view(old_rest)[0].key == e.key@);
                    assert(spec_collect_from(entries_view(old_rest), kv, slots_view(slots@))
                        == Err::<Seq<Option<SpecValue>>, _>(
                        SpecDecodeError::UnknownField {
                            key: e.key@,
                            expected: kv,
                        },
                    ));
                    assert(spec_collect(entries_view(gentries), kv) == Err::<
                        Seq<Option<SpecValue>>,
                        _,
                    >(SpecDecodeError::UnknownField { key: e.key@, expected: kv }));
                }
                return Err(
                    DecodeError::UnknownField { key: e.key, expected: clone_strings(keys) },
                );
            },
            Some(j) => {
                proof {
                    lemma_key_index(kv, e.key@);
                }
                let dup = match &slots[j] {
                    Some(_) => true,
                    None => false,
                };
                if dup {
                    proof {
                        assert(entries_view(old_rest)[0].key == e.key@);
                        assert(slots_view(slots@)[j as int] is Some);
                        assert(spec_collect(entries_view(gentries), kv) == Err::<
                            Seq<Option<SpecValue>>,
                            _,
                        >(SpecDecodeError::DuplicateField { field: kv[j as int] }));
                    }
                    return Err(DecodeError::DuplicateField { field: keys[j].clone() });
                }
                slots[j] = Some(e.value);
                proof {
                    assert(slots_view(slots@) =~= slots_view(old_slots).update(
                        j as int,
                        Some(entry_view(e).value),
                    ));
                    processed = processed + 1;
                    assert(gentries[processed - 1] == old_rest[0]);
                    assert forall|jj: int|
                        0 <= jj < slots@.len() && #[trigger] slots@[jj] is Some implies exists|
                        i: int,
                    |
                        0 <= i < gentries.len() && gentries[i].value == slots@[jj]->0 by {
                        if jj == j {
                            assert(gentries[processed - 1].value == slots@[jj]->0);
                        } else {
                            assert(old_slots[jj] == slots@[jj]);
                        }
                    }
                }
            },
        }
    }
    proof {
        assert(entries_view(entries@).len() == 0) by {
            lemma_entries_view(entries@);
        }
    }
    Ok(slots)
}

/// Law: an object whose entries carry pairwise distinct keys, one of them
/// outside the recognized set, is always rejected with an unknown-field
/// error, regardless of whether the mandatory fields are otherwise
/// satisfied.
pub proof fn lemma_unknown_key_rejection(entries: Seq<SpecEntry>, keys: Seq<Seq<char>>, i: int)
    requires
        0 <= i < entries.len(),
        key_index(keys, entries[i].key) == -1,
        forall|m: int, n: int|
            0 <= m < n < entries.len() ==> entries[m].key != entries[n].key,
    ensures
        spec_collect(entries, keys) matches Err(e) && e is UnknownField,
{
    let init = Seq::new(keys.len(), |j: int| None::<SpecValue>);
    assert forall|m: int|
        0 <= m < entries.len() && key_index(keys, (#[trigger] entries[m]).key) >= 0 implies (
    init[key_index(keys, entries[m].key)] is None) by {
        lemma_key_index(keys, entries[m].key);
    }
    lemma_collect_from_unknown(entries, keys, init, i);
}

proof fn lemma_collect_from_unknown(
    entries: Seq<SpecEntry>,
    keys: Seq<Seq<char>>,
    slots: Seq<Option<SpecValue>>,
    i: int,
)
    requires
        slots.len() == keys.len(),
        0 <= i < entries.len(),
        key_index(keys, entries[i].key) == -1,
        forall|m: int, n: int|
            0 <= m < n < entries.len() ==> entries[m].key != entries[n].key,
        forall|m: int|
            0 <= m < entries.len() && key_index(keys, (#[trigger] entries[m]).key) >= 0
                ==> slots[key_index(keys, entries[m].key)] is None,
    ensures
        spec_collect_from(entries, keys, slots) matches Err(e) && e is UnknownField,
    decreases entries.len(),
{
    let j0 = key_index(keys, entries[0].key);
    lemma_key_index(keys, entries[0].key);
    if j0 < 0 {
    } else {
        assert(slots[j0] is None);
        let slots2 = slots.update(j0, Some(entries[0].value));
        let rest = entries.drop_first();
        assert(key_index(keys, rest[i - 1].key) == -1);
        assert forall|m: int|
            0 <= m < rest.len() && key_index(keys, (#[trigger] rest[m]).key) >= 0 implies (
        slots2[key_index(keys, rest[m].key)] is None) by {
            assert(rest[m] == entries[m + 1]);
            let jm = key_index(keys, entries[m + 1].key);
            lemma_key_index(keys, entries[m + 1].key);
            if jm == j0 {
                assert(entries[m + 1].key == keys[j0]);
                assert(entries[0].key == keys[j0]);
                assert(false);
            }
        }
        lemma_collect_from_unknown(rest, keys, slots2, i - 1);
    }
}

/// Law: an object whose keys are all recognized but where one recognized
/// key appears twice is always rejected with a duplicate-field error, even
/// if both occurrences carry identical values.
pub proof fn lemma_duplicate_key_rejection(
    entries: Seq<SpecEntry>,
    keys: Seq<Seq<char>>,
    i: int,
    j: int,
)
    requires
        0 <= i < j < entries.len(),
        entries[i].key == entries[j].key,
        forall|m: int|
            0 <= m < entries.len() ==> key_index(keys, (#[trigger] entries[m]).key) >= 0,
    ensures
        spec_collect(entries, keys) matches Err(e) && e is DuplicateField,
{
    let init = Seq::new(keys.len(), |m: int| None::<SpecValue>);
    lemma_collect_from_dup(entries, keys, init);
}

proof fn lemma_collect_from_dup(
    entries: Seq<SpecEntry>,
    keys: Seq<Seq<char>>,
    slots: Seq<Option<SpecValue>>,
)
    requires
        slots.len() == keys.len(),
        forall|m: int|
            0 <= m < entries.len() ==> key_index(keys, (#[trigger] entries[m]).key) >= 0,
        (exists|m: int, n: int|
            0 <= m < n < entries.len() && entries[m].key == entries[n].key) || (exists|m: int|
            0 <= m < entries.len() && slots[key_index(keys, (#[trigger] entries[m]).key)] is Some),
    ensures
        spec_collect_from(entries, keys, slots) matches Err(e) && e is DuplicateField,
    decreases entries.len(),
{
    if entries.len() == 0 {
    } else {
        let j0 = key_index(keys, entries[0].key);
        lemma_key_index(keys, entries[0].key);
        if slots[j0] is Some {
        } else {
            let slots2 = slots.update(j0, Some(entries[0].value));
            let rest = entries.drop_first();
            assert forall|m: int|
                0 <= m < rest.len() implies key_index(keys, (#[trigger] rest[m]).key) >= 0 by {
                assert(rest[m] == entries[m + 1]);
            }
            if exists|m: int, n: int|
                0 <= m < n < entries.len() && entries[m].key == entries[n].key {
                let (m, n) = choose|m: int, n: int|
                    0 <= m < n < entries.len() && entries[m].key == entries[n].key;
                if m == 0 {
                    assert(rest[n - 1] == entries[n]);
                    assert(key_index(keys, rest[n - 1].key) == j0);
                    assert(slots2[key_index(keys, rest[n - 1].key)] is Some);
                } else {
                    assert(rest[m - 1] == entries[m] && rest[n - 1] == entries[n]);
                    assert(0 <= m - 1 < n - 1 < rest.len() && rest[m - 1].key == rest[n - 1].key);
                }
            } else {
                let m = choose|m: int|
                    0 <= m < entries.len() && slots[key_index(
                        keys,
                        (#[trigger] entries[m]).key,
                    )] is Some;
                assert(m != 0);
                assert(rest[m - 1] == entries[m]);
                let jm = key_index(keys, entries[m].key);
                lemma_key_index(keys, entries[m].key);
                assert(slots2[jm] is Some);
                assert(slots2[key_index(keys, rest[m - 1].key)] is Some);
            }
            lemma_collect_from_dup(rest, keys, slots2);
        }
    }
}

/// Law: an object containing any key outside the recognized set never
/// decodes, whatever else the input holds.
pub proof fn lemma_unknown_key_always_fails(entries: Seq<SpecEntry>, keys: Seq<Seq<char>>, i: int)
    requires
        0 <= i < entries.len(),
        key_index(keys, entries[i].key) == -1,
    ensures
        spec_collect(entries, keys) is Err,
{
    let init = Seq::new(keys.len(), |j: int| None::<SpecValue>);
    lemma_collect_from_unknown_any(entries, keys, init, i);
}

proof fn lemma_collect_from_unknown_any(
    entries: Seq<SpecEntry>,
    keys: Seq<Seq<char>>,
    slots: Seq<Option<SpecValue>>,
    i: int,
)
    requires
        slots.len() == keys.len(),
        0 <= i < entries.len(),
        key_index(keys, entries[i].key) == -1,
    ensures
        spec_collect_from(entries, keys, slots) is Err,
    decreases entries.len(),
{
    let j0 = key_index(keys, entries[0].key);
    lemma_key_index(keys, entries[0].key);
    if j0 >= 0 && !(slots[j0] is Some) {
        let rest = entries.drop_first();
        assert(rest[i - 1] == entries[i]);
        lemma_collect_from_unknown_any(
            rest,
            keys,
            slots.update(j0, Some(entries[0].value)),
            i - 1,
        );
    }
}

/// Law: an object in which a recognized key appears twice never decodes,
/// even if both occurrences carry identical values and whatever else the
/// input holds.
pub proof fn lemma_duplicate_key_always_fails(
    entries: Seq<SpecEntry>,
    keys: Seq<Seq<char>>,
    i: int,
    j: int,
)
    requires
        0 <= i < j < entries.len(),
        entries[i].key == entries[j].key,
        key_index(keys, entries[i].key) >= 0,
    ensures
        spec_collect(entries, keys) is Err,
{
    let init = Seq::new(keys.len(), |m: int| None::<SpecValue>);
    lemma_collect_from_pair(entries, keys, init, i, j);
}

proof fn lemma_collect_from_pair(
    entries: Seq<SpecEntry>,
    keys: Seq<Seq<char>>,
    slots: Seq<Option<SpecValue>>,
    i: int,
    j: int,
)
    requires
        slots.len() == keys.len(),
        0 <= i < j < entries.len(),
        entries[i].key == entries[j].key,
        key_index(keys, entries[i].key) >= 0,
    ensures
        spec_collect_from(entries, keys, slots) is Err,
    decreases entries.len(),
{
    let j0 = key_index(keys, entries[0].key);
    lemma_key_index(keys, entries[0].key);
    if j0 >= 0 && !(slots[j0] is Some) {
        let rest = entries.drop_first();
        let slots2 = slots.update(j0, Some(entries[0].value));
        if i == 0 {
            assert(rest[j - 1] == entries[j]);
            assert(key_index(keys, rest[j - 1].key) == j0);
            lemma_collect_from_filled(rest, keys, slots2, j - 1);
        } else {
            assert(rest[i - 1] == entries[i] && rest[j - 1] == entries[j]);
            lemma_collect_from_pair(rest, keys, slots2, i - 1, j - 1);
        }
    }
}

proof fn lemma_collect_from_filled(
    entries: Seq<SpecEntry>,
    keys: Seq<Seq<char>>,
    slots: Seq<Option<SpecValue>>,
    m: int,
)
    requires
        slots.len() == keys.len(),
        0 <= m < entries.len(),
        key_index(keys, entries[m].key) >= 0,
        slots[key_index(keys, entries[m].key)] is Some,
    ensures
        spec_collect_from(entries, keys, slots) is Err,
    decreases entries.len(),
{
    let j0 = key_index(keys, entries[0].key);
    lemma_key_index(keys, entries[0].key);
    lemma_key_index(keys, entries[m].key);
    if j0 >= 0 && !(slots[j0] is Some) {
        let rest = entries.drop_first();
        let slots2 = slots.update(j0, Some(entries[0].value));
        assert(m != 0);
        assert(rest[m - 1] == entries[m]);
        assert(slots2[key_index(keys, rest[m - 1].key)] is Some);
        lemma_collect_from_filled(rest, keys, slots2, m - 1);
    }
}

} // verus!
