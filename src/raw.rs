//! Author-facing item records and the merging of record lists from several files.
use vstd::prelude::*;

verus! {

/// One item as an author wrote it in a source file.
#[derive(Debug, Clone, PartialEq)]
pub struct RawItem {
    pub name: String,
    pub description: String,
    /// May be negative for worthless or cursed items.
    pub value: i32,
    /// The weight, as the bit pattern of an IEEE-754 single-precision number.
    pub weight_bits: u32,
    pub max_stack: u8,
    /// Path of the sprite asset; it is requested when the record is converted.
    pub sprite: String,
}

/// The records of one source file, or of several once merged.
#[derive(Debug, Clone, PartialEq)]
pub struct RawItemManifest {
    pub items: Vec<RawItem>,
}

/// Merging two record lists: the first, then the second, nothing dropped.
pub open spec fn merged(a: Seq<RawItem>, b: Seq<RawItem>) -> Seq<RawItem> {
    a + b
}

/// The records of a list of files merged from left to right.
pub open spec fn merged_all(files: Seq<Seq<RawItem>>) -> Seq<RawItem>
    decreases files.len(),
{
    if files.len() == 0 {
        Seq::empty()
    } else {
        merged(merged_all(files.drop_last()), files.last())
    }
}

impl RawItemManifest {
    /// A manifest with no records.
    pub fn new() -> (r: Self)
        ensures
            r.items@.len() == 0,
    {
        RawItemManifest { items: Vec::new() }
    }

    /// Appends the records of `other` after those of `self`.
    pub fn merge_from(&mut self, other: RawItemManifest)
        ensures
            final(self).items@ == merged(old(self).items@, other.items@),
    {
        let mut other = other;
        self.items.append(&mut other.items);
    }
}

impl Default for RawItemManifest {
    fn default() -> (r: Self)
        ensures
            r.items@.len() == 0,
    {
        RawItemManifest::new()
    }
}

/// Merges the manifests of several files, in the order given.
pub fn merge_all(manifests: Vec<RawItemManifest>) -> (r: RawItemManifest)
    ensures
        r.items@ == merged_all(manifests@.map_values(|m: RawItemManifest| m.items@)),
{
    let ghost files = manifests@.map_values(|m: RawItemManifest| m.items@);
    let mut rest = manifests;
    let mut acc = RawItemManifest::new();
    let n = rest.len();
    let mut k: usize = 0;
    while k < n
        invariant
            k <= n,
            n == files.len(),
            rest@.len() == n - k,
            rest@.map_values(|m: RawItemManifest| m.items@) == files.skip(k as int),
            acc.items@ == merged_all(files.take(k as int)),
        decreases n - k,
    {
        let ghost before = rest@;
        let m = rest.remove(0);
        proof {
            assert(m == before[0]);
            assert(before.map_values(|m: RawItemManifest| m.items@)[0] == files.skip(k as int)[0]);
            assert(m.items@ == files[k as int]);
            assert forall|i: int| 0 <= i < rest@.len() implies rest@[i].items@ == files[k + 1 + i] by {
                assert(rest@[i] == before[i + 1]);
                assert(before.map_values(|m: RawItemManifest| m.items@)[i + 1] == files.skip(
                    k as int,
                )[i + 1]);
            }
            assert(rest@.map_values(|m: RawItemManifest| m.items@) =~= files.skip(k + 1));
            assert(files.take(k + 1).drop_last() =~= files.take(k as int));
        }
        acc.merge_from(m);
        k = k + 1;
    }
    proof {
        assert(files.take(n as int) =~= files);
    }
    acc
}

/// Merging is associative: merging A with B and then C gives the same records as
/// merging A with the merge of B and C.
pub proof fn lemma_merge_associative(a: Seq<RawItem>, b: Seq<RawItem>, c: Seq<RawItem>)
    ensures
        merged(merged(a, b), c) == merged(a, merged(b, c)),
{
    assert(merged(merged(a, b), c) =~= merged(a, merged(b, c)));
}

/// Merging a list of files does not depend on how it is grouped: merging the files
/// of `f` followed by those of `g` gives the merge of `f`'s result with `g`'s.
pub proof fn lemma_merge_all_grouping(f: Seq<Seq<RawItem>>, g: Seq<Seq<RawItem>>)
    ensures
        merged_all(f + g) == merged(merged_all(f), merged_all(g)),
    decreases g.len(),
{
    if g.len() == 0 {
        assert(f + g =~= f);
        assert(merged(merged_all(f), merged_all(g)) =~= merged_all(f));
    } else {
        assert((f + g).drop_last() =~= f + g.drop_last());
        assert((f + g).last() == g.last());
        lemma_merge_all_grouping(f, g.drop_last());
        lemma_merge_associative(merged_all(f), merged_all(g.drop_last()), g.last());
    }
}

} // verus!
