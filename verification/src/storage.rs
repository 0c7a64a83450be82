//! The payload store: an append-only list of JSON payloads whose total size
//! is kept under a cap by evicting the oldest entries.

use vstd::prelude::*;
use serde_json::Value;
use crate::clock::now_millis;
use crate::json::{
    estimate_payload_size,
    list_to_pretty,
    pair_views,
    parse_list,
    parse_sized_list,
    parsed_list,
    parsed_sized_list,
    payload_size,
    pretty_list_text,
    triple_views,
};
use crate::number::{decimal_of, decimal_string};

verus! {

/// The cap on the total recorded size of the stored payloads: 2 MiB.
pub const MAX_STORAGE_BYTES: u64 = 2 * 1024 * 1024;

/// One stored payload.
pub struct Entry {
    /// Its identifier: the time it was received, in milliseconds.
    pub id: String,
    /// The payload itself.
    pub value: Value,
    /// Its recorded size in bytes.
    pub size: u64,
}

/// The mathematical value of an [`Entry`].
pub struct EntryView {
    pub id: Seq<char>,
    pub value: Value,
    pub size: u64,
}

impl View for Entry {
    type V = EntryView;

    open spec fn view(&self) -> EntryView {
        EntryView { id: self.id@, value: self.value, size: self.size }
    }
}

/// The views of a vector of entries.
pub open spec fn entry_views(v: Seq<Entry>) -> Seq<EntryView> {
    v.map_values(|e: Entry| e@)
}

/// The mathematical value of a [`Storage`]: the stored payloads, oldest
/// first.
pub struct StorageView {
    pub entries: Seq<EntryView>,
}

impl StorageView {
    /// The total size of the stored payloads.
    pub open spec fn total_bytes(self) -> int {
        sum_sizes(self.entries)
    }
}

/// Why the store refused an operation.
#[derive(Clone, Copy, Debug, PartialEq, Eq, Structural)]
pub enum StorageError {
    /// The sizes of the payloads add up past `u64::MAX`.
    SizeOverflow,
}

/// The sum of the recorded sizes of some entries.
pub open spec fn sum_sizes(entries: Seq<EntryView>) -> int
    decreases entries.len(),
{
    if entries.len() == 0 {
        0
    } else {
        sum_sizes(entries.drop_last()) + entries.last().size
    }
}

/// Whether `incoming` bytes can join `entries` under the cap. Nothing stands
/// in the way where there are no entries, whatever the size.
pub open spec fn fits(entries: Seq<EntryView>, incoming: int) -> bool {
    entries.len() == 0 || sum_sizes(entries) + incoming <= MAX_STORAGE_BYTES
}

/// How many of the oldest entries leave to make room for `incoming` bytes:
/// as few as leave entries that the incoming bytes can join.
pub open spec fn evicted_count(entries: Seq<EntryView>, incoming: int) -> nat
    decreases entries.len(),
{
    if fits(entries, incoming) {
        0
    } else {
        1 + evicted_count(entries.drop_first(), incoming)
    }
}

/// The store after `entry` has been added: the oldest entries leave until
/// the new one fits, and the new one is the newest.
pub open spec fn after_add(st: StorageView, entry: EntryView) -> StorageView {
    StorageView {
        entries: st.entries.skip(evicted_count(st.entries, entry.size as int) as int).push(entry),
    }
}

/// Whether an entry with identifier `id` is stored.
pub open spec fn has_id(entries: Seq<EntryView>, id: Seq<char>) -> bool {
    exists|i: int| 0 <= i < entries.len() && (#[trigger] entries[i]).id == id
}

/// The entries whose identifier is not `id`, in order.
pub open spec fn without(entries: Seq<EntryView>, id: Seq<char>) -> Seq<EntryView>
    decreases entries.len(),
{
    if entries.len() == 0 {
        Seq::empty()
    } else if entries.last().id == id {
        without(entries.drop_last(), id)
    } else {
        without(entries.drop_last(), id).push(entries.last())
    }
}

/// The store after the entries with identifier `id` have been deleted.
pub open spec fn after_delete(st: StorageView, id: Seq<char>) -> StorageView {
    StorageView { entries: without(st.entries, id) }
}

/// The store after everything has been deleted.
pub open spec fn after_delete_all(st: StorageView) -> StorageView {
    StorageView { entries: Seq::empty() }
}

/// The identifier and the value of each entry.
pub open spec fn pairs_of(entries: Seq<EntryView>) -> Seq<(Seq<char>, Value)> {
    entries.map_values(|e: EntryView| (e.id, e.value))
}

/// Entries for payloads read without sizes: each gets its estimated size.
pub open spec fn sized(list: Seq<(Seq<char>, Value)>) -> Seq<EntryView> {
    list.map_values(
        |p: (Seq<char>, Value)| EntryView { id: p.0, value: p.1, size: payload_size(p.1) },
    )
}

/// Entries for payloads read with sizes.
pub open spec fn as_recorded(list: Seq<(Seq<char>, Value, u64)>) -> Seq<EntryView> {
    list.map_values(|p: (Seq<char>, Value, u64)| EntryView { id: p.0, value: p.1, size: p.2 })
}

/// The entries that the text of a data file holds. The file is a JSON array
/// of payloads, all without sizes or all with sizes; a text that is neither
/// holds nothing.
pub open spec fn file_entries(text: Seq<char>) -> Seq<EntryView> {
    match parsed_list(text) {
        Some(list) => sized(list),
        None => match parsed_sized_list(text) {
            Some(list) => as_recorded(list),
            None => Seq::empty(),
        },
    }
}

/// The characters of an optional text.
pub open spec fn text_of(contents: Option<&str>) -> Option<Seq<char>> {
    match contents {
        Some(text) => Some(text@),
        None => None,
    }
}

/// The entries that a store starts with, given the text of its data file if
/// there is one.
pub open spec fn initial_entries(contents: Option<Seq<char>>) -> Seq<EntryView> {
    match contents {
        Some(text) => file_entries(text),
        None => Seq::empty(),
    }
}

/// An entry more adds its size to the sum.
pub proof fn lemma_sum_sizes_push(entries: Seq<EntryView>, e: EntryView)
    ensures
        sum_sizes(entries.push(e)) == sum_sizes(entries) + e.size,
{
    assert(entries.push(e).drop_last() =~= entries);
}

/// A sum of sizes is not negative.
pub proof fn lemma_sum_sizes_nonnegative(entries: Seq<EntryView>)
    ensures
        sum_sizes(entries) >= 0,
    decreases entries.len(),
{
    if entries.len() > 0 {
        lemma_sum_sizes_nonnegative(entries.drop_last());
    }
}

/// The sum is the size of the first entry and the sum of the others.
pub proof fn lemma_sum_sizes_drop_first(entries: Seq<EntryView>)
    requires
        entries.len() > 0,
    ensures
        sum_sizes(entries) == entries[0].size + sum_sizes(entries.drop_first()),
    decreases entries.len(),
{
    if entries.len() == 1 {
        assert(entries.drop_last() =~= Seq::<EntryView>::empty());
        assert(entries.drop_first() =~= Seq::<EntryView>::empty());
    } else {
        lemma_sum_sizes_drop_first(entries.drop_last());
        assert(entries.drop_last().drop_first() =~= entries.drop_first().drop_last());
    }
}

/// The sizes of a prefix sum to at most the sum of all.
pub proof fn lemma_sum_sizes_take(entries: Seq<EntryView>, k: int)
    requires
        0 <= k <= entries.len(),
    ensures
        sum_sizes(entries.take(k)) <= sum_sizes(entries),
    decreases entries.len() - k,
{
    if k < entries.len() {
        lemma_sum_sizes_take(entries, k + 1);
        assert(entries.take(k + 1).drop_last() =~= entries.take(k));
    } else {
        assert(entries.take(k) =~= entries);
    }
}

/// The sizes of a suffix sum to at most the sum of all.
pub proof fn lemma_sum_sizes_skip(entries: Seq<EntryView>, k: int)
    requires
        0 <= k <= entries.len(),
    ensures
        0 <= sum_sizes(entries.skip(k)) <= sum_sizes(entries),
    decreases k,
{
    if k > 0 {
        lemma_sum_sizes_skip(entries, k - 1);
        lemma_sum_sizes_drop_first(entries.skip(k - 1));
        assert(entries.skip(k - 1).drop_first() =~= entries.skip(k));
        lemma_sum_sizes_nonnegative(entries.skip(k));
    } else {
        assert(entries.skip(0) =~= entries);
        lemma_sum_sizes_nonnegative(entries);
    }
}

/// An entry less takes its size off the sum.
pub proof fn lemma_sum_sizes_remove(entries: Seq<EntryView>, i: int)
    requires
        0 <= i < entries.len(),
    ensures
        sum_sizes(entries.remove(i)) == sum_sizes(entries) - entries[i].size,
    decreases entries.len(),
{
    if i == entries.len() - 1 {
        assert(entries.remove(i) =~= entries.drop_last());
    } else {
        lemma_sum_sizes_remove(entries.drop_last(), i);
        assert(entries.remove(i).drop_last() =~= entries.drop_last().remove(i));
        assert(entries.remove(i).last() == entries.last());
    }
}

/// What is kept when a payload is added is the longest run of the newest
/// entries that the payload can join under the cap: the kept entries fit
/// with it, and no longer run of the newest entries does.
pub proof fn lemma_eviction_keeps_longest_fit(entries: Seq<EntryView>, incoming: int)
    ensures
        evicted_count(entries, incoming) <= entries.len(),
        fits(entries.skip(evicted_count(entries, incoming) as int), incoming),
        forall|k: int|
            0 <= k < evicted_count(entries, incoming) ==> !fits(#[trigger] entries.skip(k), incoming),
    decreases entries.len(),
{
    if fits(entries, incoming) {
        assert(entries.skip(0) =~= entries);
    } else {
        let rest = entries.drop_first();
        lemma_eviction_keeps_longest_fit(rest, incoming);
        let gone = evicted_count(entries, incoming) as int;
        assert(rest.skip(gone - 1) =~= entries.skip(gone));
        assert forall|k: int| 0 <= k < gone implies !fits(#[trigger] entries.skip(k), incoming) by {
            if k == 0 {
                assert(entries.skip(0) =~= entries);
            } else {
                assert(rest.skip(k - 1) =~= entries.skip(k));
            }
        }
    }
}

/// After a payload has been added, it is stored alone or the stored sizes
/// sum to at most the cap.
pub proof fn lemma_add_keeps_cap(st: StorageView, entry: EntryView)
    ensures
        after_add(st, entry).entries.len() == 1 || after_add(st, entry).total_bytes()
            <= MAX_STORAGE_BYTES,
        after_add(st, entry).total_bytes() <= sum_sizes(st.entries) + entry.size,
{
    lemma_eviction_keeps_longest_fit(st.entries, entry.size as int);
    let gone = evicted_count(st.entries, entry.size as int) as int;
    lemma_sum_sizes_push(st.entries.skip(gone), entry);
    lemma_sum_sizes_skip(st.entries, gone);
}

/// No entry that is left after a deletion bears the deleted identifier.
pub proof fn lemma_without_removes_all(entries: Seq<EntryView>, id: Seq<char>)
    ensures
        !has_id(without(entries, id), id),
    decreases entries.len(),
{
    if entries.len() > 0 {
        let front = entries.drop_last();
        lemma_without_removes_all(front, id);
        let kept = without(entries, id);
        if has_id(kept, id) {
            let i = choose|i: int| 0 <= i < kept.len() && (#[trigger] kept[i]).id == id;
            if entries.last().id != id && i < kept.len() - 1 {
                assert(without(front, id)[i].id == id);
            }
        }
    }
}

/// Where no entry bears an identifier, deleting it changes nothing.
pub proof fn lemma_without_absent(entries: Seq<EntryView>, id: Seq<char>)
    requires
        !has_id(entries, id),
    ensures
        without(entries, id) == entries,
    decreases entries.len(),
{
    if entries.len() > 0 {
        let front = entries.drop_last();
        assert(entries[entries.len() - 1].id != id);
        assert forall|i: int| 0 <= i < front.len() implies (#[trigger] front[i]).id != id by {
            assert(entries[i].id != id);
        }
        lemma_without_absent(front, id);
        assert(without(entries, id) =~= entries);
    }
}

/// Deleting an identifier twice is deleting it once.
pub proof fn lemma_delete_twice(st: StorageView, id: Seq<char>)
    ensures
        after_delete(after_delete(st, id), id) == after_delete(st, id),
{
    lemma_without_removes_all(st.entries, id);
    lemma_without_absent(without(st.entries, id), id);
}

/// A deletion leaves at most the sizes that were stored.
pub proof fn lemma_delete_lowers_total(entries: Seq<EntryView>, id: Seq<char>)
    ensures
        0 <= sum_sizes(without(entries, id)) <= sum_sizes(entries),
    decreases entries.len(),
{
    if entries.len() > 0 {
        lemma_delete_lowers_total(entries.drop_last(), id);
        if entries.last().id != id {
            lemma_sum_sizes_push(without(entries.drop_last(), id), entries.last());
        }
    }
}

/// A list of JSON payloads with the total of their recorded sizes.
pub struct Storage {
    entries: Vec<Entry>,
    total_bytes: u64,
}

impl View for Storage {
    type V = StorageView;

    closed spec fn view(&self) -> StorageView {
        StorageView { entries: entry_views(self.entries@) }
    }
}

impl Storage {
    /// The total kept is the sum of the recorded sizes of the stored entries.
    #[verifier::type_invariant]
    spec fn totalled(self) -> bool {
        sum_sizes(entry_views(self.entries@)) == self.total_bytes
    }

    /// A store with the given entries, oldest first. Fails where their sizes
    /// add up past `u64::MAX`.
    pub fn from_entries(entries: Vec<Entry>) -> (out: Result<Storage, StorageError>)
        ensures
            match out {
                Ok(store) => store@.entries == entry_views(entries@),
                Err(e) => e == StorageError::SizeOverflow,
            },
            out is Ok <==> sum_sizes(entry_views(entries@)) <= u64::MAX,
    {
        let ghost all = entry_views(entries@);
        let mut total: u64 = 0;
        let mut i: usize = 0;
        assert(all.take(0) =~= Seq::<EntryView>::empty());
        while i < entries.len()
            invariant
                i <= entries.len(),
                all == entry_views(entries@),
                total == sum_sizes(all.take(i as int)),
            decreases entries.len() - i,
        {
            let size = entries[i].size;
            proof {
                assert(all.take(i + 1).drop_last() =~= all.take(i as int));
                assert(all.take(i + 1).last() == entries@[i as int]@);
            }
            if size > u64::MAX - total {
                proof {
                    lemma_sum_sizes_take(all, i + 1);
                }
                return Err(StorageError::SizeOverflow);
            }
            total = total + size;
            i += 1;
        }
        assert(all.take(entries.len() as int) =~= all);
        Ok(Storage { entries, total_bytes: total })
    }

    /// Reads the entries that the text of a data file holds.
    pub fn read_entries(text: &str) -> (entries: Vec<Entry>)
        ensures
            entry_views(entries@) == file_entries(text@),
    {
        let mut entries: Vec<Entry> = Vec::new();
        assert(entry_views(entries@) =~= Seq::<EntryView>::empty());
        match parse_list(text) {
            Some(list) => {
                let ghost all = list@;
                let ghost want = sized(pair_views(all));
                assert(entry_views(entries@) =~= want.take(0));
                for pair in it: list
                    invariant
                        it.seq() == all,
                        want == sized(pair_views(all)),
                        entry_views(entries@) == want.take(it.index()),
                {
                    let ghost k = it.index();
                    let (id, value) = pair;
                    let size = estimate_payload_size(&value);
                    let entry = Entry { id, value, size };
                    proof {
                        assert(entry@ == want[k]);
                        assert(entry_views(entries@.push(entry)) =~= entry_views(entries@).push(
                            entry@,
                        ));
                        assert(want.take(k + 1) =~= want.take(k).push(want[k]));
                    }
                    entries.push(entry);
                }
                assert(want.take(all.len() as int) =~= want);
            },
            None => match parse_sized_list(text) {
                Some(list) => {
                    let ghost all = list@;
                    let ghost want = as_recorded(triple_views(all));
                    assert(entry_views(entries@) =~= want.take(0));
                    for triple in it: list
                        invariant
                            it.seq() == all,
                            want == as_recorded(triple_views(all)),
                            entry_views(entries@) == want.take(it.index()),
                    {
                        let ghost k = it.index();
                        let (id, value, size) = triple;
                        let entry = Entry { id, value, size };
                        proof {
                            assert(entry@ == want[k]);
                            assert(entry_views(entries@.push(entry)) =~= entry_views(
                                entries@,
                            ).push(entry@));
                            assert(want.take(k + 1) =~= want.take(k).push(want[k]));
                        }
                        entries.push(entry);
                    }
                    assert(want.take(all.len() as int) =~= want);
                },
                None => {},
            },
        }
        entries
    }

    /// A store with the entries of its data file, if there is one. Fails
    /// where the sizes of the entries add up past `u64::MAX`.
    pub fn new(contents: Option<&str>) -> (out: Result<Storage, StorageError>)
        ensures
            match out {
                Ok(store) => store@.entries == initial_entries(text_of(contents)),
                Err(e) => e == StorageError::SizeOverflow,
            },
            out is Ok <==> sum_sizes(initial_entries(text_of(contents))) <= u64::MAX,
    {
        match contents {
            Some(text) => Storage::from_entries(Storage::read_entries(text)),
            None => {
                let entries: Vec<Entry> = Vec::new();
                assert(entry_views(entries@) =~= Seq::<EntryView>::empty());
                Ok(Storage { entries, total_bytes: 0 })
            },
        }
    }

    /// Number of stored payloads.
    pub fn len(&self) -> (n: usize)
        ensures
            n == self@.entries.len(),
    {
        self.entries.len()
    }

    /// The total of the recorded sizes of the stored payloads.
    pub fn total_bytes(&self) -> (n: u64)
        ensures
            n == self@.total_bytes(),
    {
        proof {
            use_type_invariant(self);
        }
        self.total_bytes
    }

    /// Adds a payload under the identifier `id`, after evicting the oldest
    /// entries until the payload fits under the cap or nothing is left.
    pub fn add_json_as(&mut self, id: String, json: &Value)
        ensures
            final(self)@ == after_add(
                old(self)@,
                EntryView { id: id@, value: *json, size: payload_size(*json) },
            ),
            final(self)@.entries.len() == 1 || final(self)@.total_bytes() <= MAX_STORAGE_BYTES,
    {
        proof {
            use_type_invariant(&*self);
        }
        let size = estimate_payload_size(json);
        let ghost before = entry_views(self.entries@);
        let ghost entry_view = EntryView { id: id@, value: *json, size };
        let mut taken = Storage { entries: Vec::new(), total_bytes: 0 };
        assert(entry_views(taken.entries@) =~= Seq::<EntryView>::empty());
        core::mem::swap(self, &mut taken);
        let Storage { entries, total_bytes } = taken;
        let mut entries = entries;
        let mut total: u64 = total_bytes;
        let ghost mut gone: int = 0;
        assert(before.skip(0) =~= before);
        while entries.len() > 0 && (size > MAX_STORAGE_BYTES || total > MAX_STORAGE_BYTES - size)
            invariant
                0 <= gone <= before.len(),
                entry_views(entries@) == before.skip(gone),
                total == sum_sizes(before.skip(gone)),
                evicted_count(before, size as int) == gone + evicted_count(
                    before.skip(gone),
                    size as int,
                ),
            decreases entries.len(),
        {
            proof {
                let rest = before.skip(gone);
                lemma_sum_sizes_drop_first(rest);
                lemma_sum_sizes_nonnegative(rest.drop_first());
                assert(rest[0] == entries@[0]@);
                assert(rest.drop_first() =~= before.skip(gone + 1));
                assert(entry_views(entries@.remove(0)) =~= rest.drop_first());
            }
            let first = entries.remove(0);
            total = total - first.size;
            proof {
                gone = gone + 1;
            }
        }
        let entry = Entry { id, value: json.clone(), size };
        proof {
            let kept = before.skip(gone);
            assert(fits(kept, size as int));
            assert(entry_views(entries@.push(entry)) =~= kept.push(entry@));
            lemma_sum_sizes_push(kept, entry@);
            lemma_add_keeps_cap(StorageView { entries: before }, entry_view);
            if kept.len() == 0 {
                assert(total == 0);
            }
        }
        entries.push(entry);
        *self = Storage { entries, total_bytes: total + size };
    }

    /// Adds a payload under the current time in milliseconds as its
    /// identifier, as [`Storage::add_json_as`] does under a given one.
    pub fn add_json(&mut self, json: &Value)
        ensures
            exists|millis: i64|
                final(self)@ == #[trigger] after_add(
                    old(self)@,
                    EntryView {
                        id: decimal_of(millis as int),
                        value: *json,
                        size: payload_size(*json),
                    },
                ),
            final(self)@.entries.len() == 1 || final(self)@.total_bytes() <= MAX_STORAGE_BYTES,
    {
        let millis = now_millis();
        let id = decimal_string(millis);
        self.add_json_as(id, json)
    }

    /// All stored payloads without their sizes, newest first.
    pub fn get_all(&self) -> (out: Vec<(String, Value)>)
        ensures
            pair_views(out@) == pairs_of(self@.entries).reverse(),
    {
        let mut out: Vec<(String, Value)> = Vec::new();
        let ghost want = pairs_of(entry_views(self.entries@)).reverse();
        let n = self.entries.len();
        let mut i: usize = n;
        assert(pair_views(out@) =~= want.take(0));
        while i > 0
            invariant
                i <= n == self.entries.len(),
                want == pairs_of(entry_views(self.entries@)).reverse(),
                pair_views(out@) == want.take(n - i),
            decreases i,
        {
            i -= 1;
            let pair = (self.entries[i].id.clone(), self.entries[i].value.clone());
            proof {
                assert(want[n - i - 1] == (pair.0@, pair.1));
                assert(pair_views(out@.push(pair)) =~= pair_views(out@).push((pair.0@, pair.1)));
                assert(want.take(n - i) =~= want.take(n - i - 1).push(want[n - i - 1]));
            }
            out.push(pair);
        }
        assert(want.take(n as int) =~= want);
        out
    }

    /// All stored payloads without their sizes, oldest first.
    pub fn payloads(&self) -> (out: Vec<(String, Value)>)
        ensures
            pair_views(out@) == pairs_of(self@.entries),
    {
        let mut out: Vec<(String, Value)> = Vec::new();
        let ghost want = pairs_of(entry_views(self.entries@));
        let mut i: usize = 0;
        assert(pair_views(out@) =~= want.take(0));
        while i < self.entries.len()
            invariant
                i <= self.entries.len(),
                want == pairs_of(entry_views(self.entries@)),
                pair_views(out@) == want.take(i as int),
            decreases self.entries.len() - i,
        {
            let pair = (self.entries[i].id.clone(), self.entries[i].value.clone());
            proof {
                assert(want[i as int] == (pair.0@, pair.1));
                assert(pair_views(out@.push(pair)) =~= pair_views(out@).push((pair.0@, pair.1)));
                assert(want.take(i + 1) =~= want.take(i as int).push(want[i as int]));
            }
            out.push(pair);
            i += 1;
        }
        assert(want.take(self.entries.len() as int) =~= want);
        out
    }

    /// Deletes the entries with identifier `id`, and tells whether there was
    /// one.
    pub fn delete(&mut self, id: &str) -> (deleted: bool)
        ensures
            deleted == has_id(old(self)@.entries, id@),
            final(self)@ == after_delete(old(self)@, id@),
    {
        proof {
            use_type_invariant(&*self);
        }
        let wanted = id.to_owned();
        let ghost before = entry_views(self.entries@);
        let mut taken = Storage { entries: Vec::new(), total_bytes: 0 };
        assert(entry_views(taken.entries@) =~= Seq::<EntryView>::empty());
        core::mem::swap(self, &mut taken);
        let Storage { entries, total_bytes } = taken;
        let mut entries = entries;
        let mut total: u64 = total_bytes;
        let mut deleted = false;
        // Entries before `i` stay; `seen` counts the entries looked at.
        let mut i: usize = 0;
        let ghost mut seen: int = 0;
        proof {
            assert(before.take(0) =~= Seq::<EntryView>::empty());
            assert(before.skip(0) =~= before);
            assert(Seq::<EntryView>::empty() + before =~= before);
        }
        while i < entries.len()
            invariant
                i <= entries.len(),
                0 <= seen <= before.len(),
                entries.len() - i == before.len() - seen,
                wanted@ == id@,
                entry_views(entries@) == without(before.take(seen), id@) + before.skip(seen),
                i == without(before.take(seen), id@).len(),
                total == sum_sizes(entry_views(entries@)),
                deleted == has_id(before.take(seen), id@),
            decreases entries.len() - i,
        {
            let ghost now = entry_views(entries@);
            let ghost kept = without(before.take(seen), id@);
            proof {
                assert(now[i as int] == before.skip(seen)[0]);
                assert(now[i as int] == entries@[i as int]@);
                assert(before.take(seen + 1).drop_last() =~= before.take(seen));
                assert(before.take(seen + 1).last() == before[seen]);
                if has_id(before.take(seen), id@) {
                    let j = choose|j: int|
                        0 <= j < before.take(seen).len() && (#[trigger] before.take(seen)[j]).id
                            == id@;
                    assert(before.take(seen + 1)[j].id == id@);
                }
                if has_id(before.take(seen + 1), id@) && before[seen].id != id@ {
                    let j = choose|j: int|
                        0 <= j < before.take(seen + 1).len() && (#[trigger] before.take(
                            seen + 1,
                        )[j]).id == id@;
                    assert(before.take(seen)[j].id == id@);
                }
            }
            if entries[i].id == wanted {
                proof {
                    assert(before.take(seen + 1)[seen].id == id@);
                    assert(entry_views(entries@.remove(i as int)) =~= now.remove(i as int));
                    assert(now.remove(i as int) =~= kept + before.skip(seen + 1));
                    lemma_sum_sizes_remove(now, i as int);
                    lemma_sum_sizes_nonnegative(now.remove(i as int));
                }
                let gone = entries.remove(i);
                total = total - gone.size;
                deleted = true;
            } else {
                proof {
                    assert(now =~= kept.push(before[seen]) + before.skip(seen + 1));
                }
                i += 1;
            }
            proof {
                seen = seen + 1;
            }
        }
        proof {
            assert(before.take(seen) =~= before);
            assert(before.skip(seen) =~= Seq::<EntryView>::empty());
            assert(entry_views(entries@) =~= without(before, id@));
        }
        *self = Storage { entries, total_bytes: total };
        deleted
    }

    /// Deletes all stored payloads.
    pub fn delete_all(&mut self)
        ensures
            final(self)@ == after_delete_all(old(self)@),
    {
        let entries: Vec<Entry> = Vec::new();
        assert(entry_views(entries@) =~= Seq::<EntryView>::empty());
        *self = Storage { entries, total_bytes: 0 };
    }

    /// The text of the data file for the stored payloads: an indented JSON
    /// array of payloads without sizes, oldest first. An error holds the
    /// serialiser's message.
    pub fn to_file_text(&self) -> (out: Result<String, String>)
        ensures
            match out {
                Ok(s) => pretty_list_text(pairs_of(self@.entries)) == Ok::<Seq<char>, Seq<char>>(
                    s@,
                ),
                Err(e) => pretty_list_text(pairs_of(self@.entries)) == Err::<
                    Seq<char>,
                    Seq<char>,
                >(e@),
            },
    {
        let list = self.payloads();
        list_to_pretty(&list)
    }
}

} // verus!
