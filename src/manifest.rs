//! Conversion of merged records into the runtime item table.
use bevy::platform::collections::HashMap;
use vstd::prelude::*;

use crate::identifier::{id_of, identifier_for, ItemId};
use crate::raw::{RawItem, RawItemManifest};
use crate::slot_table::{slot_table_get, slot_table_insert, slot_table_new, slots_of};

verus! {

/// An item ready for play. `S` is the ticket for its sprite that the asset
/// loader handed out; the loader owns the image itself.
#[derive(Debug, Clone, PartialEq)]
pub struct Item<S> {
    pub name: String,
    pub description: String,
    pub value: i32,
    /// The weight, as the bit pattern of an IEEE-754 single-precision number.
    pub weight_bits: u32,
    pub max_stack: u8,
    pub sprite: S,
}

/// What conversion does when two records have the same identifier.
#[derive(Debug, Clone, Copy, PartialEq, Eq, Structural)]
pub enum CollisionPolicy {
    /// The whole conversion fails.
    FailOnDuplicate,
    /// The record that comes first in merge order is kept.
    FirstWins,
    /// The record that comes last in merge order is kept.
    LastWins,
}

/// Why a merged manifest could not be converted. A maximum stack size of zero is
/// not an error: whether such items are allowed is left to the content's authors.
#[derive(Debug, Clone, PartialEq)]
pub enum ConversionError {
    /// A record's weight is negative; this is its name.
    InvalidWeight(String),
    /// A record has the identifier of an earlier one; this is its name.
    DuplicateName(String),
}

/// The runtime item built from a record and the ticket of its sprite.
pub open spec fn item_of<S>(r: RawItem, sprite: S) -> Item<S> {
    Item {
        name: r.name,
        description: r.description,
        value: r.value,
        weight_bits: r.weight_bits,
        max_stack: r.max_stack,
        sprite: sprite,
    }
}

/// The bits are those of a negative single-precision number: negative infinity
/// included, negative zero and every NaN left out.
pub open spec fn is_negative_weight(bits: u32) -> bool {
    0x8000_0001 <= bits <= 0xFF80_0000
}

/// Some record of the list has a negative weight.
pub open spec fn has_negative_weight(recs: Seq<RawItem>) -> bool {
    exists|j: int| 0 <= j < recs.len() && #[trigger] is_negative_weight(recs[j].weight_bits)
}

/// The position of the first record with a negative weight, if there is one.
fn first_negative_weight(items: &Vec<RawItem>) -> (r: Option<usize>)
    ensures
        match r {
            Some(j) => j < items@.len() && is_negative_weight(items@[j as int].weight_bits) && (
            forall|j2: int| 0 <= j2 < j ==> !is_negative_weight(#[trigger] items@[j2].weight_bits)),
            None => !has_negative_weight(items@),
        },
{
    let mut j: usize = 0;
    while j < items.len()
        invariant
            j <= items@.len(),
            forall|j2: int| 0 <= j2 < j ==> !is_negative_weight(#[trigger] items@[j2].weight_bits),
        decreases items@.len() - j,
    {
        let bits = items[j].weight_bits;
        if 0x8000_0001 <= bits && bits <= 0xFF80_0000 {
            return Some(j);
        }
        j = j + 1;
    }
    None
}

/// The identifier of the record at position `i`.
pub open spec fn record_id(recs: Seq<RawItem>, i: int) -> u64 {
    id_of(recs[i].name@)
}

/// The record at position `j` has the identifier of an earlier record.
pub open spec fn repeats_earlier(recs: Seq<RawItem>, j: int) -> bool {
    exists|i: int| 0 <= i < j && #[trigger] record_id(recs, i) == record_id(recs, j)
}

/// Two records of the list have the same identifier.
pub open spec fn has_duplicate(recs: Seq<RawItem>) -> bool {
    exists|j: int| 0 <= j < recs.len() && #[trigger] repeats_earlier(recs, j)
}

/// The table built from the first `n` records, the collision policy deciding
/// which record an identifier keeps.
pub open spec fn table_upto<S>(
    recs: Seq<RawItem>,
    sprites: Seq<S>,
    policy: CollisionPolicy,
    n: nat,
) -> Map<u64, Item<S>>
    decreases n,
{
    if n == 0 {
        Map::empty()
    } else {
        let prev = table_upto(recs, sprites, policy, (n - 1) as nat);
        let k = record_id(recs, n - 1);
        if policy is FirstWins && prev.contains_key(k) {
            prev
        } else {
            prev.insert(k, item_of(recs[n - 1], sprites[n - 1]))
        }
    }
}

/// The table built from all records.
pub open spec fn table_of<S>(recs: Seq<RawItem>, sprites: Seq<S>, policy: CollisionPolicy) -> Map<
    u64,
    Item<S>,
> {
    table_upto(recs, sprites, policy, recs.len())
}

/// The runtime items, keyed by identifier. Built once by conversion, then only read.
pub struct ItemManifest<S> {
    slots: HashMap<u64, usize>,
    entries: Vec<(u64, Item<S>)>,
}

/// Slots and entries agree: each identifier's slot holds an entry with that
/// identifier, and each entry's identifier points back at it.
pub open spec fn slots_agree<S>(slots: Map<u64, usize>, entries: Seq<(u64, Item<S>)>) -> bool {
    &&& forall|k: u64| #[trigger]
        slots.contains_key(k) ==> slots[k] < entries.len() && entries[slots[k] as int].0 == k
    &&& forall|i: int|
        0 <= i < entries.len() ==> slots.contains_key(#[trigger] entries[i].0) && slots[entries[i].0]
            == i
}

/// The items that slots and entries hold, by identifier.
pub open spec fn table_view<S>(slots: Map<u64, usize>, entries: Seq<(u64, Item<S>)>) -> Map<
    u64,
    Item<S>,
> {
    Map::new(|k: u64| slots.contains_key(k), |k: u64| entries[slots[k] as int].1)
}

/// The table up to `n` has exactly the identifiers of the first `n` records.
proof fn lemma_table_keys<S>(
    recs: Seq<RawItem>,
    sprites: Seq<S>,
    policy: CollisionPolicy,
    n: nat,
    k: u64,
)
    requires
        n <= recs.len(),
    ensures
        table_upto(recs, sprites, policy, n).contains_key(k) <==> exists|i: int|
            0 <= i < n && #[trigger] record_id(recs, i) == k,
    decreases n,
{
    if n > 0 {
        lemma_table_keys(recs, sprites, policy, (n - 1) as nat, k);
        if table_upto(recs, sprites, policy, (n - 1) as nat).contains_key(k) {
            let i = choose|i: int| 0 <= i < n - 1 && #[trigger] record_id(recs, i) == k;
            assert(0 <= i < n && record_id(recs, i) == k);
        }
        if exists|i: int| 0 <= i < n && #[trigger] record_id(recs, i) == k {
            let i = choose|i: int| 0 <= i < n && #[trigger] record_id(recs, i) == k;
            if i < n - 1 {
                assert(0 <= i < n - 1 && record_id(recs, i) == k);
            }
        }
    }
}

/// Records whose names are pairwise different and whose identifiers are pairwise
/// different: the prefix of length `n` gives one entry per record, each under its
/// record's identifier.
proof fn lemma_distinct_prefix<S>(
    recs: Seq<RawItem>,
    sprites: Seq<S>,
    policy: CollisionPolicy,
    n: nat,
)
    requires
        n <= recs.len(),
        recs.len() == sprites.len(),
        forall|i: int, j: int|
            0 <= i < j < recs.len() ==> record_id(recs, i) != record_id(recs, j),
    ensures
        table_upto(recs, sprites, policy, n).dom().finite(),
        table_upto(recs, sprites, policy, n).dom().len() == n,
        forall|i: int|
            0 <= i < n ==> table_upto(recs, sprites, policy, n).contains_key(record_id(recs, i))
                && table_upto(recs, sprites, policy, n)[record_id(recs, i)] == item_of(
                recs[i],
                sprites[i],
            ),
    decreases n,
{
    if n > 0 {
        let m = (n - 1) as nat;
        lemma_distinct_prefix(recs, sprites, policy, m);
        let k = record_id(recs, m as int);
        lemma_table_keys(recs, sprites, policy, m, k);
        assert(!table_upto(recs, sprites, policy, m).contains_key(k));
    }
}

/// Under `FailOnDuplicate`, records of which two share a name are refused: two
/// records with the same name have the same identifier, so conversion returns the
/// duplicate-name error and no manifest.
pub proof fn lemma_duplicate_name_refused(recs: Seq<RawItem>, i: int, j: int)
    requires
        0 <= i < j < recs.len(),
        recs[i].name@ == recs[j].name@,
    ensures
        has_duplicate(recs),
{
    assert(record_id(recs, i) == record_id(recs, j));
    assert(repeats_earlier(recs, j));
}

/// Records with pairwise different names convert into a table with exactly one
/// entry per record, each under the identifier of its record's name, whatever the
/// policy. Distinct names whose identifiers collide are left out: the table is
/// keyed by identifier and cannot hold both.
pub proof fn lemma_unique_names_one_entry_each<S>(
    recs: Seq<RawItem>,
    sprites: Seq<S>,
    policy: CollisionPolicy,
)
    requires
        recs.len() == sprites.len(),
        forall|i: int, j: int| 0 <= i < j < recs.len() ==> recs[i].name@ != recs[j].name@,
        forall|i: int, j: int|
            0 <= i < j < recs.len() ==> id_of(recs[i].name@) != id_of(recs[j].name@),
    ensures
        !has_duplicate(recs),
        table_of(recs, sprites, policy).dom().len() == recs.len(),
        forall|i: int|
            0 <= i < recs.len() ==> table_of(recs, sprites, policy).contains_key(
                id_of(recs[i].name@),
            ) && table_of(recs, sprites, policy)[id_of(recs[i].name@)] == item_of(
                recs[i],
                sprites[i],
            ),
{
    assert forall|i: int, j: int|
        0 <= i < j < recs.len() implies record_id(recs, i) != record_id(recs, j) by {
        assert(id_of(recs[i].name@) != id_of(recs[j].name@));
    }
    lemma_distinct_prefix(recs, sprites, policy, recs.len());
    if has_duplicate(recs) {
        let j = choose|j: int| 0 <= j < recs.len() && #[trigger] repeats_earlier(recs, j);
        let i = choose|i: int| 0 <= i < j && #[trigger] record_id(recs, i) == record_id(recs, j);
        assert(false);
    }
}

/// The identifiers of a converted table depend on the records' names alone: two
/// record lists with the same names, position by position, converted under the same
/// policy, give tables with the same identifiers, each of them the identifier of one
/// of the names, and either both lists or neither hold a repeated identifier.
pub proof fn lemma_conversion_keys_depend_on_names<S>(
    recs1: Seq<RawItem>,
    sprites1: Seq<S>,
    recs2: Seq<RawItem>,
    sprites2: Seq<S>,
    policy: CollisionPolicy,
)
    requires
        recs1.len() == recs2.len(),
        forall|i: int| 0 <= i < recs1.len() ==> recs1[i].name@ == recs2[i].name@,
    ensures
        has_duplicate(recs1) == has_duplicate(recs2),
        table_of(recs1, sprites1, policy).dom() == table_of(recs2, sprites2, policy).dom(),
        forall|k: u64| #[trigger]
            table_of(recs1, sprites1, policy).contains_key(k) ==> exists|i: int|
                0 <= i < recs1.len() && id_of(recs1[i].name@) == k,
{
    assert forall|i: int| 0 <= i < recs1.len() implies #[trigger] record_id(recs1, i) == record_id(
        recs2,
        i,
    ) by {
        assert(recs1[i].name@ == recs2[i].name@);
    }
    assert forall|j: int| 0 <= j < recs1.len() implies #[trigger] repeats_earlier(recs1, j)
        == repeats_earlier(recs2, j) by {
        if repeats_earlier(recs1, j) {
            let i = choose|i: int| 0 <= i < j && #[trigger] record_id(recs1, i) == record_id(recs1, j);
            assert(record_id(recs2, i) == record_id(recs2, j));
        }
        if repeats_earlier(recs2, j) {
            let i = choose|i: int| 0 <= i < j && #[trigger] record_id(recs2, i) == record_id(recs2, j);
            assert(record_id(recs1, i) == record_id(recs1, j));
        }
    }
    if has_duplicate(recs1) {
        let j = choose|j: int| 0 <= j < recs1.len() && #[trigger] repeats_earlier(recs1, j);
        assert(repeats_earlier(recs2, j));
    }
    if has_duplicate(recs2) {
        let j = choose|j: int| 0 <= j < recs2.len() && #[trigger] repeats_earlier(recs2, j);
        assert(repeats_earlier(recs1, j));
    }
    assert forall|k: u64| #[trigger]
        table_of(recs1, sprites1, policy).contains_key(k) == table_of(
            recs2,
            sprites2,
            policy,
        ).contains_key(k) by {
        lemma_table_keys(recs1, sprites1, policy, recs1.len(), k);
        lemma_table_keys(recs2, sprites2, policy, recs2.len(), k);
        if exists|i: int| 0 <= i < recs1.len() && #[trigger] record_id(recs1, i) == k {
            let i = choose|i: int| 0 <= i < recs1.len() && #[trigger] record_id(recs1, i) == k;
            assert(record_id(recs2, i) == k);
        }
        if exists|i: int| 0 <= i < recs2.len() && #[trigger] record_id(recs2, i) == k {
            let i = choose|i: int| 0 <= i < recs2.len() && #[trigger] record_id(recs2, i) == k;
            assert(record_id(recs1, i) == k);
        }
    }
    assert(table_of(recs1, sprites1, policy).dom() =~= table_of(recs2, sprites2, policy).dom());
    assert forall|k: u64| #[trigger]
        table_of(recs1, sprites1, policy).contains_key(k) implies exists|i: int|
            0 <= i < recs1.len() && id_of(recs1[i].name@) == k by {
        lemma_table_keys(recs1, sprites1, policy, recs1.len(), k);
        let i = choose|i: int| 0 <= i < recs1.len() && #[trigger] record_id(recs1, i) == k;
        assert(id_of(recs1[i].name@) == k);
    }
}

impl<S> View for ItemManifest<S> {
    type V = Map<u64, Item<S>>;

    closed spec fn view(&self) -> Map<u64, Item<S>> {
        table_view(slots_of(self.slots), self.entries@)
    }
}

impl<S> ItemManifest<S> {
    /// The manifest's slots and entries agree.
    pub closed spec fn wf(&self) -> bool {
        slots_agree(slots_of(self.slots), self.entries@)
    }

    /// Converts merged records into runtime items. `sprites[i]` is the ticket for the
    /// sprite of record `i`. A record with a negative weight fails the conversion,
    /// naming the first such record; otherwise, under `FailOnDuplicate`, it fails
    /// exactly when two records share an identifier, naming the first record that
    /// repeats an earlier one.
    pub fn from_raw_manifest(
        raw_manifest: RawItemManifest,
        sprites: Vec<S>,
        policy: CollisionPolicy,
    ) -> (r: Result<Self, ConversionError>)
        requires
            raw_manifest.items@.len() == sprites@.len(),
        ensures
            r is Err <==> (has_negative_weight(raw_manifest.items@) || (policy is FailOnDuplicate
                && has_duplicate(raw_manifest.items@))),
            has_negative_weight(raw_manifest.items@) ==> r matches Err(
                ConversionError::InvalidWeight(_),
            ),
            r matches Err(ConversionError::InvalidWeight(name)) ==> exists|j: int|
                0 <= j < raw_manifest.items@.len() && #[trigger] is_negative_weight(
                    raw_manifest.items@[j].weight_bits,
                ) && (forall|j2: int|
                    0 <= j2 < j ==> !is_negative_weight(raw_manifest.items@[j2].weight_bits))
                    && name@ == raw_manifest.items@[j].name@,
            r matches Ok(m) ==> m.wf() && m@ == table_of(raw_manifest.items@, sprites@, policy),
            r matches Err(ConversionError::DuplicateName(name)) ==> exists|j: int|
                0 <= j < raw_manifest.items@.len() && #[trigger] repeats_earlier(
                    raw_manifest.items@,
                    j,
                ) && (forall|j2: int| 0 <= j2 < j ==> !repeats_earlier(raw_manifest.items@, j2))
                    && name@ == raw_manifest.items@[j].name@,
    {
        if let Some(bad) = first_negative_weight(&raw_manifest.items) {
            return Err(ConversionError::InvalidWeight(raw_manifest.items[bad].name.clone()));
        }
        let ghost recs = raw_manifest.items@;
        let ghost sps = sprites@;
        let mut records = raw_manifest.items;
        let mut tickets = sprites;
        let n = records.len();
        let mut slots = slot_table_new();
        let mut entries: Vec<(u64, Item<S>)> = Vec::new();
        let mut j: usize = 0;
        while j < n
            invariant
                j <= n,
                n == recs.len(),
                n == sps.len(),
                recs == raw_manifest.items@,
                sps == sprites@,
                !has_negative_weight(recs),
                records@ == recs.skip(j as int),
                tickets@ == sps.skip(j as int),
                slots_agree(slots_of(slots), entries@),
                table_view(slots_of(slots), entries@) == table_upto(recs, sps, policy, j as nat),
                policy is FailOnDuplicate ==> forall|j2: int|
                    0 <= j2 < j ==> !repeats_earlier(recs, j2),
            decreases n - j,
        {
            let ghost old_entries = entries@;
            let ghost old_slots = slots_of(slots);
            let ghost prev = table_upto(recs, sps, policy, j as nat);
            let rec = records.remove(0);
            let ticket = tickets.remove(0);
            assert(rec == recs[j as int]);
            assert(ticket == sps[j as int]);
            assert(records@ =~= recs.skip(j + 1));
            assert(tickets@ =~= sps.skip(j + 1));
            let id = identifier_for(rec.name.as_str());
            let k = id.raw;
            assert(k == record_id(recs, j as int));
            proof {
                lemma_table_keys(recs, sps, policy, j as nat, k);
            }
            let item = Item {
                name: rec.name,
                description: rec.description,
                value: rec.value,
                weight_bits: rec.weight_bits,
                max_stack: rec.max_stack,
                sprite: ticket,
            };
            assert(item == item_of(recs[j as int], sps[j as int]));
            match slot_table_get(&slots, k) {
                Some(slot) => {
                    assert(prev.contains_key(k));
                    assert(repeats_earlier(recs, j as int));
                    match policy {
                        CollisionPolicy::FailOnDuplicate => {
                            assert(has_duplicate(recs));
                            return Err(ConversionError::DuplicateName(item.name));
                        },
                        CollisionPolicy::FirstWins => {},
                        CollisionPolicy::LastWins => {
                            entries.set(slot, (k, item));
                            assert(table_view(slots_of(slots), entries@) =~= prev.insert(
                                k,
                                item_of(recs[j as int], sps[j as int]),
                            ));
                        },
                    }
                },
                None => {
                    let at = entries.len();
                    slot_table_insert(&mut slots, k, at);
                    entries.push((k, item));
                    assert forall|i: int| 0 <= i < old_entries.len() implies old_entries[i].0 != k by {
                        assert(old_slots.contains_key(old_entries[i].0));
                    }
                    assert(table_view(slots_of(slots), entries@) =~= prev.insert(
                        k,
                        item_of(recs[j as int], sps[j as int]),
                    ));
                    assert(!repeats_earlier(recs, j as int));
                },
            }
            j = j + 1;
        }
        proof {
            if policy is FailOnDuplicate {
                assert(!has_duplicate(recs));
            }
        }
        Ok(ItemManifest { slots, entries })
    }

    /// The item with identifier `id`, if the manifest has one.
    pub fn get(&self, id: ItemId) -> (r: Option<&Item<S>>)
        requires
            self.wf(),
        ensures
            match r {
                Some(item) => self@.contains_key(id.raw) && *item == self@[id.raw],
                None => !self@.contains_key(id.raw),
            },
    {
        match slot_table_get(&self.slots, id.raw) {
            Some(slot) => Some(&self.entries[slot].1),
            None => None,
        }
    }
    /// The identifiers of the manifest, each once.
    pub fn ids(&self) -> (r: Vec<ItemId>)
        requires
            self.wf(),
        ensures
            forall|i: int| 0 <= i < r@.len() ==> self@.contains_key(#[trigger] r@[i].raw),
            forall|k: u64| self@.contains_key(k) ==> exists|i: int|
                0 <= i < r@.len() && #[trigger] r@[i].raw == k,
            forall|i: int, j: int| 0 <= i < j < r@.len() ==> r@[i].raw != r@[j].raw,
    {
        let ghost slots = slots_of(self.slots);
        let mut r: Vec<ItemId> = Vec::new();
        let mut i: usize = 0;
        while i < self.entries.len()
            invariant
                i <= self.entries@.len(),
                slots_agree(slots, self.entries@),
                slots == slots_of(self.slots),
                r@.len() == i,
                forall|t: int| 0 <= t < i ==> #[trigger] r@[t].raw == self.entries@[t].0,
            decreases self.entries@.len() - i,
        {
            r.push(ItemId { raw: self.entries[i].0 });
            i = i + 1;
        }
        proof {
            assert forall|t: int| 0 <= t < r@.len() implies self@.contains_key(
                #[trigger] r@[t].raw,
            ) by {
                assert(slots.contains_key(self.entries@[t].0));
            }
            assert forall|k: u64| self@.contains_key(k) implies exists|t: int|
                0 <= t < r@.len() && #[trigger] r@[t].raw == k by {
                let t = slots[k] as int;
                assert(r@[t].raw == k);
            }
            assert forall|a: int, b: int| 0 <= a < b < r@.len() implies r@[a].raw != r@[b].raw by {
                assert(slots[self.entries@[a].0] == a);
                assert(slots[self.entries@[b].0] == b);
            }
        }
        r
    }
}

} // verus!
