//! What the record stores share: which files of a folder hold records, the
//! in-memory map a folder loads into, and the file name a record is saved
//! under. Each record lives in `<folder>/<uuid>.toml`.

use vstd::prelude::*;
use std::collections::HashMap;
use crate::ids::{hyphenated, parse_uuid, uuid_from_text, uuid_text};
use crate::text::{chars_of, push_str, string_of};

verus! {

broadcast use vstd::std_specs::hash::group_hash_axioms;

/// The index of the last `.` in `s`.
pub open spec fn last_dot(s: Seq<char>) -> Option<int>
    decreases s.len(),
{
    if s.len() == 0 {
        None
    } else if s.last() == '.' {
        Some(s.len() - 1)
    } else {
        last_dot(s.drop_last())
    }
}

/// The extension of a file name, as `Path::extension` gives it: the text
/// after the last `.`, except where that dot is the name's first character.
pub open spec fn extension_of(name: Seq<char>) -> Option<Seq<char>> {
    match last_dot(name) {
        Some(i) => if i > 0 {
            Some(name.skip(i + 1))
        } else {
            None
        },
        None => None,
    }
}

/// The stem of a file name, as `Path::file_stem` gives it: the text before
/// the last `.`, or the whole name where there is no extension.
pub open spec fn stem_of_name(name: Seq<char>) -> Seq<char> {
    match last_dot(name) {
        Some(i) => if i > 0 {
            name.take(i)
        } else {
            name
        },
        None => name,
    }
}

/// The identifier of the record a file name holds: names of the form
/// `<uuid>.toml` hold one.
pub open spec fn record_uuid(name: Seq<char>) -> Option<u128> {
    if extension_of(name) == Some(seq!['t', 'o', 'm', 'l']) {
        uuid_from_text(stem_of_name(name))
    } else {
        None
    }
}

/// The map that a folder's entries load into: each entry is a file name and
/// what its contents deserialized to (`None` where the file could not be
/// read or parsed). Entries that are not records, or whose contents failed,
/// are skipped; a later entry for an identifier replaces an earlier one.
pub open spec fn loaded<T>(entries: Seq<(Seq<char>, Option<T>)>) -> Map<u128, T>
    decreases entries.len(),
{
    if entries.len() == 0 {
        Map::empty()
    } else {
        let m = loaded(entries.drop_last());
        let (name, value) = entries.last();
        match (record_uuid(name), value) {
            (Some(u), Some(v)) => m.insert(u, v),
            _ => m,
        }
    }
}

/// The names and values of a list of folder entries.
pub open spec fn entries_view<T>(entries: Seq<(String, Option<T>)>) -> Seq<(Seq<char>, Option<T>)> {
    entries.map_values(|e: (String, Option<T>)| (e.0@, e.1))
}

/// The position of the last `.` in `v`, or `v.len()` if there is none.
fn find_last_dot(v: &Vec<char>) -> (r: usize)
    ensures
        r <= v@.len(),
        r < v@.len() ==> last_dot(v@) == Some(r as int),
        r == v@.len() ==> last_dot(v@) is None,
{
    let mut j = v.len();
    assert(v@.take(v@.len() as int) == v@);
    while j > 0 && v[j - 1] != '.'
        invariant
            j <= v@.len(),
            last_dot(v@) == last_dot(v@.take(j as int)),
        decreases j,
    {
        assert(v@.take(j - 1) == v@.take(j as int).drop_last());
        j -= 1;
    }
    if j == 0 {
        assert(v@.take(0).len() == 0);
        v.len()
    } else {
        assert(v@.take(j as int).last() == v@[j - 1]);
        j - 1
    }
}

/// The identifier of the record a file name holds, if it holds one.
pub fn record_uuid_of(name: &str) -> (r: Option<u128>)
    ensures
        r == record_uuid(name@),
{
    let v = chars_of(name);
    let i = find_last_dot(&v);
    if i == v.len() || i == 0 {
        return None;
    }
    let n = v.len();
    if !(n - i == 5 && v[i + 1] == 't' && v[i + 2] == 'o' && v[i + 3] == 'm' && v[i + 4] == 'l') {
        proof {
            if extension_of(v@) == Some(seq!['t', 'o', 'm', 'l']) {
                let ext = v@.skip(i + 1);
                assert(ext.len() == 4);
                assert(ext[0] == v@[i + 1] && ext[1] == v@[i + 2] && ext[2] == v@[i + 3] && ext[3]
                    == v@[i + 4]);
            }
        }
        return None;
    }
    assert(v@.skip(i + 1) =~= seq!['t', 'o', 'm', 'l']);
    let mut stem: Vec<char> = Vec::new();
    let mut k: usize = 0;
    while k < i
        invariant
            0 <= k <= i < v@.len(),
            stem@ == v@.take(k as int),
        decreases i - k,
    {
        stem.push(v[k]);
        assert(v@.take(k + 1) == v@.take(k as int).push(v@[k as int]));
        k += 1;
    }
    let s = string_of(&stem);
    parse_uuid(s.as_str())
}

/// Loads a folder's entries into a map from record identifier to record.
pub fn load_dir<T>(entries: Vec<(String, Option<T>)>) -> (r: HashMap<u128, T>)
    ensures
        r@ == loaded(entries_view(entries@)),
{
    let ghost all = entries_view(entries@);
    let mut map: HashMap<u128, T> = HashMap::new();
    let mut i: usize = 0;
    let n = entries.len();
    for e in it: entries.into_iter()
        invariant
            it.seq() == entries@,
            all == entries_view(entries@),
            n == entries@.len(),
            map@ == loaded(all.take(it.index() as int)),
    {
        let ghost k = it.index() as int;
        let (name, value) = e;
        assert(all.take(k + 1).drop_last() == all.take(k));
        assert(all.take(k + 1).last() == (name@, value));
        match (record_uuid_of(name.as_str()), value) {
            (Some(u), Some(v)) => {
                map.insert(u, v);
            },
            _ => {},
        }
    }
    assert(all.take(all.len() as int) == all);
    map
}

/// The file name a record is saved under: `<uuid>.toml`, with the UUID in
/// its hyphenated lower-case form.
pub fn file_name(uuid: u128) -> (s: String)
    ensures
        s@ == hyphenated(uuid) + seq!['.', 't', 'o', 'm', 'l'],
{
    let mut s = uuid_text(uuid);
    push_str(&mut s, ".toml");
    proof {
        reveal_strlit(".toml");
    }
    s
}

/// Whether a folder entry is skipped when the folder is loaded: its name is
/// not `<uuid>.toml`, or its contents could not be read or parsed.
pub open spec fn skipped<T>(e: (Seq<char>, Option<T>)) -> bool {
    record_uuid(e.0) is None || e.1 is None
}

/// A skipped entry, wherever it stands in a folder, leaves the loaded map
/// as it is without it: a bad file neither aborts loading nor drops or
/// changes any other record.
pub proof fn lemma_skipped_entry_changes_nothing<T>(
    before: Seq<(Seq<char>, Option<T>)>,
    e: (Seq<char>, Option<T>),
    after: Seq<(Seq<char>, Option<T>)>,
)
    requires
        skipped(e),
    ensures
        loaded(before.push(e) + after) == loaded(before + after),
    decreases after.len(),
{
    if after.len() == 0 {
        assert(before.push(e) + after == before.push(e));
        assert(before + after == before);
        assert(before.push(e).drop_last() == before);
    } else {
        lemma_skipped_entry_changes_nothing(before, e, after.drop_last());
        assert((before.push(e) + after).drop_last() == before.push(e) + after.drop_last());
        assert((before + after).drop_last() == before + after.drop_last());
        assert((before.push(e) + after).last() == after.last());
        assert((before + after).last() == after.last());
    }
}

/// Whether some entry of a folder that is not skipped names the identifier
/// `u`.
pub open spec fn carries<T>(entries: Seq<(Seq<char>, Option<T>)>, u: u128) -> bool {
    exists|i: int| 0 <= i < entries.len() && !skipped(#[trigger] entries[i]) && record_uuid(entries[i].0) == Some(u)
}

/// A loaded folder holds only the identifiers of its entries that are not
/// skipped.
pub proof fn lemma_loaded_keys<T>(entries: Seq<(Seq<char>, Option<T>)>, u: u128)
    requires
        !carries(entries, u),
    ensures
        !loaded(entries).contains_key(u),
    decreases entries.len(),
{
    if entries.len() > 0 {
        let prev = entries.drop_last();
        assert(!carries(prev, u)) by {
            if carries(prev, u) {
                let i = choose|i: int| 0 <= i < prev.len() && !skipped(#[trigger] prev[i]) && record_uuid(prev[i].0) == Some(u);
                assert(entries[i] == prev[i]);
            }
        }
        lemma_loaded_keys(prev, u);
        let k = entries.len() - 1;
        assert(entries.last() == entries[k]);
    }
}

/// A map after records were saved into it one after another, each under
/// its identifier.
pub open spec fn with_saved<T>(m: Map<u128, T>, saved: Seq<(u128, T)>) -> Map<u128, T>
    decreases saved.len(),
{
    if saved.len() == 0 {
        m
    } else {
        with_saved(m, saved.drop_last()).insert(saved.last().0, saved.last().1)
    }
}

/// An identifier that no entry of the loaded folder carries and under which
/// nothing was saved since is not in the map.
pub proof fn lemma_never_saved_absent<T>(
    entries: Seq<(Seq<char>, Option<T>)>,
    saved: Seq<(u128, T)>,
    u: u128,
)
    requires
        !carries(entries, u),
        forall|j: int| 0 <= j < saved.len() ==> (#[trigger] saved[j]).0 != u,
    ensures
        !with_saved(loaded(entries), saved).contains_key(u),
    decreases saved.len(),
{
    if saved.len() == 0 {
        lemma_loaded_keys(entries, u);
    } else {
        lemma_never_saved_absent(entries, saved.drop_last(), u);
        assert(saved.last() == saved[saved.len() - 1]);
    }
}

/// Saving one more record into a map built by `with_saved` is one more
/// insertion: what a store's `new` followed by its saves gives is
/// `with_saved` over the loaded folder.
pub proof fn lemma_with_saved_push<T>(m: Map<u128, T>, saved: Seq<(u128, T)>, x: (u128, T))
    ensures
        with_saved(m, saved.push(x)) == with_saved(m, saved).insert(x.0, x.1),
{
    assert(saved.push(x).drop_last() == saved);
}

} // verus!
