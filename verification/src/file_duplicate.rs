//! Whole-file duplicate counting.
//!
//! Every analyzed file contributes one content hash; the table maps each
//! distinct hash to how often it occurred. The duplicate rate reported
//! from these counts is `1 - unique/total`, which always lies in
//! `[0, 1)` for a non-empty file list.
use vstd::prelude::*;

use std::collections::HashMap;

verus! {

/// How often a hash occurs in a sequence of content hashes.
pub open spec fn count_of(s: Seq<u64>, h: u64) -> nat
    decreases s.len(),
{
    if s.len() == 0 {
        0
    } else {
        count_of(s.drop_last(), h) + if s.last() == h {
            1nat
        } else {
            0nat
        }
    }
}

/// A hash occurs no more often than there are hashes.
pub proof fn lemma_count_of_le_len(s: Seq<u64>, h: u64)
    ensures
        count_of(s, h) <= s.len(),
    decreases s.len(),
{
    if s.len() > 0 {
        lemma_count_of_le_len(s.drop_last(), h);
    }
}

/// A hash occurs at least once exactly when the sequence holds it.
pub proof fn lemma_count_of_contains(s: Seq<u64>, h: u64)
    ensures
        count_of(s, h) > 0 <==> s.contains(h),
    decreases s.len(),
{
    if s.len() > 0 {
        lemma_count_of_contains(s.drop_last(), h);
        if s.last() == h {
            assert(s.contains(h));
        } else {
            assert(s.drop_last().contains(h) ==> s.contains(h));
            if s.contains(h) {
                let i = choose|i: int| 0 <= i < s.len() && s[i] == h;
                assert(s.drop_last()[i] == h);
                assert(s.drop_last().contains(h));
            }
        }
    }
}

/// There are never more distinct hashes than files, and a non-empty
/// file list has at least one distinct hash — so the duplicate rate
/// `1 - unique/total` lies in `[0, 1)`.
pub proof fn lemma_unique_counts(hashes: Seq<u64>)
    ensures
        hashes.to_set().len() <= hashes.len(),
        hashes.len() > 0 ==> hashes.to_set().len() >= 1,
{
    hashes.lemma_cardinality_of_set();
    if hashes.len() > 0 {
        assert(hashes.to_set().contains(hashes[0]));
        broadcast use vstd::set_lib::group_set_properties;

        hashes.lemma_cardinality_of_empty_set_is_0();
    }
}

/// The duplicate-rate bookkeeping for a set of files: their paths, and —
/// once built from their content hashes — the occurrence count of each
/// distinct hash.
pub struct FileDuplicateStats {
    files: Vec<String>,
    file_hashs: HashMap<u64, usize>,
    is_build: bool,
}

impl FileDuplicateStats {
    /// The analyzed file paths.
    pub closed spec fn files_spec(&self) -> Seq<String> {
        self.files@
    }

    /// The built hash table: each distinct content hash with its count.
    pub closed spec fn hash_counts(&self) -> Map<u64, usize> {
        self.file_hashs@
    }

    /// Whether the hash table was built.
    pub closed spec fn built_spec(&self) -> bool {
        self.is_build
    }

    /// Before the build the table is empty; only the build fills it.
    pub open spec fn inv(&self) -> bool {
        !self.built_spec() ==> self.hash_counts() == Map::<u64, usize>::empty()
    }

    pub fn new() -> (r: Self)
        ensures
            r.files_spec() == Seq::<String>::empty(),
            r.hash_counts() == Map::<u64, usize>::empty(),
            !r.built_spec(),
            r.inv(),
    {
        FileDuplicateStats { files: Vec::new(), file_hashs: HashMap::new(), is_build: false }
    }

    /// Registers one more file path.
    pub fn add_file(&mut self, file_fpath: String)
        ensures
            final(self).files_spec() == old(self).files_spec().push(file_fpath),
            final(self).hash_counts() == old(self).hash_counts(),
            final(self).built_spec() == old(self).built_spec(),
            old(self).inv() ==> final(self).inv(),
    {
        self.files.push(file_fpath)
    }

    /// Builds the occurrence table from the files' content hashes, one
    /// hash per registered file; a second build is a no-op.
    pub fn build_hashmap(&mut self, hashes: &Vec<u64>)
        requires
            hashes@.len() == old(self).files_spec().len(),
            old(self).inv(),
        ensures
            final(self).inv(),
            final(self).files_spec() == old(self).files_spec(),
            final(self).built_spec(),
            old(self).built_spec() ==> final(self).hash_counts() == old(self).hash_counts(),
            !old(self).built_spec() ==> {
                &&& final(self).hash_counts().dom() == hashes@.to_set()
                &&& forall|h: u64|
                    hashes@.to_set().contains(h) ==> #[trigger] final(self).hash_counts()[h]
                        == count_of(hashes@, h)
            },
    {
        proof {
            broadcast use vstd::std_specs::hash::group_hash_axioms;

        }
        if self.is_build {
            return ;
        }
        let ghost all = hashes@;
        let mut i: usize = 0;
        let n = hashes.len();
        proof {
            assert(n == all.len());
            assert(all.take(0) =~= Seq::<u64>::empty());
            assert(self.file_hashs@ == Map::<u64, usize>::empty());
            assert(self.file_hashs@.dom() =~= all.take(0).to_set());
        }
        while i < hashes.len()
            invariant
                0 <= i <= all.len(),
                hashes@ == all,
                self.file_hashs@.dom() == all.take(i as int).to_set(),
                forall|h: u64|
                    all.take(i as int).to_set().contains(h) ==> #[trigger] self.file_hashs@[h]
                        == count_of(all.take(i as int), h),
                self.files@ == old(self).files@,
                self.is_build == false,
                all.len() <= usize::MAX,
            decreases all.len() - i,
        {
            proof {
                broadcast use vstd::std_specs::hash::group_hash_axioms;

            }
            let ghost pre = all.take(i as int);
            let ghost post = all.take(i as int + 1);
            let h = hashes[i];
            proof {
                assert(post.drop_last() =~= pre);
                assert(post.last() == h);
                lemma_count_of_le_len(pre, h);
                lemma_count_of_contains(pre, h);
                assert forall|x: u64| post.to_set().contains(x) implies pre.to_set().insert(
                    h,
                ).contains(x) by {
                    let idx = choose|idx: int| 0 <= idx < post.len() && post[idx] == x;
                    if idx < i {
                        assert(pre[idx] == x);
                        assert(pre.contains(x));
                    }
                }
                assert forall|x: u64| pre.to_set().insert(h).contains(x) implies post.to_set()
                    .contains(x) by {
                    if x == h {
                        assert(post[i as int] == x);
                        assert(post.contains(x));
                    } else {
                        let idx = choose|idx: int| 0 <= idx < pre.len() && pre[idx] == x;
                        assert(post[idx] == x);
                        assert(post.contains(x));
                    }
                }
                assert(post.to_set() =~= pre.to_set().insert(h));
            }
            let cur: usize = if self.file_hashs.contains_key(&h) {
                *self.file_hashs.get(&h).unwrap()
            } else {
                0
            };
            proof {
                assert(cur == count_of(pre, h));
            }
            self.file_hashs.insert(h, cur + 1);
            proof {
                assert(count_of(post, h) == count_of(pre, h) + 1);
                assert forall|x: u64| post.to_set().contains(x) implies #[trigger] self.file_hashs@[x]
                    == count_of(post, x) by {
                    if x != h {
                        assert(count_of(post, x) == count_of(pre, x));
                        assert(pre.to_set().contains(x));
                    }
                }
                assert(self.file_hashs@.dom() =~= post.to_set());
            }
            i = i + 1;
        }
        proof {
            assert(all.take(all.len() as int) =~= all);
        }
        self.is_build = true;
    }

    /// How many distinct content hashes the build found.
    pub fn unique_count(&self) -> (r: usize)
        ensures
            r == self.hash_counts().dom().len(),
    {
        proof {
            broadcast use vstd::std_specs::hash::group_hash_axioms;

        }
        self.file_hashs.len()
    }

    /// How many files were registered.
    pub fn total_count(&self) -> (r: usize)
        ensures
            r == self.files_spec().len(),
    {
        self.files.len()
    }
}

} // verus!
