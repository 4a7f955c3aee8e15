//! The block index: which dblock archive holds each block, and the block
//! parameters of the snapshot.
use vstd::prelude::*;
use vstd::hash_map::StringHashMap;
use std::collections::BTreeMap;
use crate::codec::{base64_url_to_plain, url_to_std};

verus! {

/// Bytes in one block hash (SHA-256).
pub const HASH_SIZE: usize = 32;

/// Why a manifest's block size is refused.
#[derive(PartialEq, Eq, Structural, Clone, Copy, Debug)]
pub enum ManifestError {
    /// The block size is zero or negative.
    NonPositiveBlockSize,
    /// The block size is not a whole number of hashes.
    NotMultipleOfHashSize,
    /// The range one block-list covers does not fit in a machine word.
    BlockSizeTooLarge,
}

/// The member names of one dblock archive, with the archive's number.
pub struct ArchiveMembers {
    pub number: usize,
    pub names: Vec<String>,
}

/// `key` is the canonical id of a member of an archive numbered `num`.
pub open spec fn observed(archives: Seq<ArchiveMembers>, key: Seq<char>, num: usize) -> bool {
    exists|a: int, k: int|
        0 <= a < archives.len() && 0 <= k < archives[a].names@.len() && archives[a].number == num
            && #[trigger] url_to_std(archives[a].names@[k]@) == key
}

/// Every member of every archive has its canonical id in `index`, and each
/// key of `index` maps to an archive that has a member with that id.
pub open spec fn indexes_exactly(index: Map<Seq<char>, usize>, archives: Seq<ArchiveMembers>) -> bool {
    &&& forall|a: int, k: int|
        0 <= a < archives.len() && 0 <= k < archives[a].names@.len() ==> index.contains_key(
            #[trigger] url_to_std(archives[a].names@[k]@),
        )
    &&& forall|key: Seq<char>| #[trigger]
        index.contains_key(key) ==> observed(archives, key, index[key])
}

/// After the index is built over some archives, the canonical id of every
/// member seen in them resolves to an archive that has a member with that id.
pub proof fn lemma_index_coverage(index: Map<Seq<char>, usize>, archives: Seq<ArchiveMembers>)
    requires
        indexes_exactly(index, archives),
    ensures
        forall|a: int, k: int|
            0 <= a < archives.len() && 0 <= k < archives[a].names@.len() ==> index.contains_key(
                #[trigger] url_to_std(archives[a].names@[k]@),
            ) && observed(
                archives,
                url_to_std(archives[a].names@[k]@),
                index[url_to_std(archives[a].names@[k]@)],
            ),
{
}

/// `(block_size / 32) * block_size`: the bytes of a file that one full
/// block-list describes.
pub open spec fn offset_size_of(block_size: int) -> int {
    (block_size / 32) * block_size
}

/// A block size that is positive, a whole number of hashes, and small
/// enough that one block-list's range fits in a machine word.
struct BlockSize {
    bytes: usize,
}

impl BlockSize {
    #[verifier::type_invariant]
    spec fn inv(&self) -> bool {
        &&& self.bytes > 0
        &&& self.bytes % 32 == 0
        &&& offset_size_of(self.bytes as int) <= usize::MAX
    }
}

/// The block index together with the snapshot's block size.
pub struct DB {
    index: StringHashMap<usize>,
    block_size: BlockSize,
}

impl DB {
    /// The index: canonical (standard-alphabet) block id to archive number.
    pub closed spec fn index_map(&self) -> Map<Seq<char>, usize> {
        self.index@
    }

    pub closed spec fn spec_block_size(&self) -> int {
        self.block_size.bytes as int
    }

    /// An empty index for a snapshot whose manifest gives `block_size`.
    pub fn new(block_size: i64) -> (r: Result<DB, ManifestError>)
        ensures
            block_size <= 0 <==> r == Err::<DB, ManifestError>(ManifestError::NonPositiveBlockSize),
            (block_size > 0 && block_size % 32 != 0) <==> r == Err::<DB, ManifestError>(
                ManifestError::NotMultipleOfHashSize,
            ),
            (block_size > 0 && block_size % 32 == 0 && offset_size_of(block_size as int)
                > usize::MAX) <==> r == Err::<DB, ManifestError>(ManifestError::BlockSizeTooLarge),
            r is Ok ==> r->Ok_0.spec_block_size() == block_size as int
                && r->Ok_0.index_map() == Map::<Seq<char>, usize>::empty(),
    {
        if block_size <= 0 {
            return Err(ManifestError::NonPositiveBlockSize);
        }
        if block_size % 32 != 0 {
            return Err(ManifestError::NotMultipleOfHashSize);
        }
        let bs = block_size as u64;
        match (bs / 32).checked_mul(bs) {
            Some(os) => {
                assert(os == offset_size_of(block_size as int));
                if os > usize::MAX as u64 {
                    return Err(ManifestError::BlockSizeTooLarge);
                }
                assert(bs <= os) by (nonlinear_arith)
                    requires
                        os == (bs / 32) * bs,
                        bs >= 32,
                ;
            },
            None => {
                return Err(ManifestError::BlockSizeTooLarge);
            },
        }
        Ok(DB { index: StringHashMap::new(), block_size: BlockSize { bytes: bs as usize } })
    }

    /// Records every member of one archive under its canonical id.
    pub fn add_archive(&mut self, archive: &ArchiveMembers)
        ensures
            final(self).spec_block_size() == old(self).spec_block_size(),
            forall|key: Seq<char>|
                old(self).index_map().contains_key(key) ==> #[trigger] final(self).index_map().contains_key(
                    key,
                ),
            forall|k: int|
                0 <= k < archive.names@.len() ==> final(self).index_map().contains_key(
                    #[trigger] url_to_std(archive.names@[k]@),
                ) && final(self).index_map()[url_to_std(archive.names@[k]@)] == archive.number,
            forall|key: Seq<char>| #[trigger]
                final(self).index_map().contains_key(key) ==> {
                    ||| (exists|k: int|
                        0 <= k < archive.names@.len() && #[trigger] url_to_std(archive.names@[k]@)
                            == key) && final(self).index_map()[key] == archive.number
                    ||| old(self).index_map().contains_key(key) && final(self).index_map()[key]
                        == old(self).index_map()[key]
                },
    {
        let n = archive.names.len();
        let mut i: usize = 0;
        while i < n
            invariant
                n == archive.names@.len(),
                i <= n,
                self.spec_block_size() == old(self).spec_block_size(),
                forall|key: Seq<char>|
                    old(self).index_map().contains_key(key) ==> #[trigger] self.index_map().contains_key(
                        key,
                    ),
                forall|k: int|
                    0 <= k < i ==> self.index_map().contains_key(
                        #[trigger] url_to_std(archive.names@[k]@),
                    ) && self.index_map()[url_to_std(archive.names@[k]@)] == archive.number,
                forall|key: Seq<char>| #[trigger]
                    self.index_map().contains_key(key) ==> {
                        ||| (exists|k: int|
                            0 <= k < i && #[trigger] url_to_std(archive.names@[k]@) == key)
                            && self.index_map()[key] == archive.number
                        ||| old(self).index_map().contains_key(key) && self.index_map()[key]
                            == old(self).index_map()[key]
                    },
            decreases n - i,
        {
            let ghost prev = self.index_map();
            let id = base64_url_to_plain(archive.names[i].as_str());
            self.index.insert(id, archive.number);
            proof {
                assert(self.index_map() == prev.insert(id@, archive.number));
                assert(url_to_std(archive.names@[i as int]@) == id@);
                assert forall|key: Seq<char>| #[trigger]
                    self.index_map().contains_key(key) implies {
                        ||| (exists|k: int|
                            0 <= k < i + 1 && #[trigger] url_to_std(archive.names@[k]@) == key)
                            && self.index_map()[key] == archive.number
                        ||| old(self).index_map().contains_key(key) && self.index_map()[key]
                            == old(self).index_map()[key]
                    } by {
                    if key == id@ {
                        assert(url_to_std(archive.names@[i as int]@) == key);
                    } else {
                        assert(prev.contains_key(key));
                    }
                }
            }
            i = i + 1;
        }
    }

    /// Builds the index over the member names of the given archives.
    pub fn create_block_id_to_filenames(self, archives: &Vec<ArchiveMembers>) -> (r: Self)
        ensures
            r.spec_block_size() == self.spec_block_size(),
            self.index_map() == Map::<Seq<char>, usize>::empty() ==> indexes_exactly(
                r.index_map(),
                archives@,
            ),
    {
        let ghost start = self.index_map();
        let ghost bs = self.spec_block_size();
        let mut db = self;
        let mut i: usize = 0;
        while i < archives.len()
            invariant
                i <= archives@.len(),
                db.spec_block_size() == bs,
                start == Map::<Seq<char>, usize>::empty() ==> indexes_exactly(
                    db.index_map(),
                    archives@.subrange(0, i as int),
                ),
            decreases archives@.len() - i,
        {
            let ghost prev = db.index_map();
            db.add_archive(&archives[i]);
            proof {
                if start == Map::<Seq<char>, usize>::empty() {
                    let done = archives@.subrange(0, i as int);
                    let now = archives@.subrange(0, i + 1);
                    assert forall|a: int, k: int|
                        0 <= a < now.len() && 0 <= k < now[a].names@.len() implies db.index_map().contains_key(
                        #[trigger] url_to_std(now[a].names@[k]@),
                    ) by {
                        if a < i {
                            assert(done[a] == now[a]);
                            assert(prev.contains_key(url_to_std(done[a].names@[k]@)));
                        }
                    }
                    assert forall|key: Seq<char>| #[trigger]
                        db.index_map().contains_key(key) implies observed(now, key, db.index_map()[key]) by {
                        if prev.contains_key(key) && db.index_map()[key] == prev[key] {
                            let (a, k) = choose|a: int, k: int|
                                0 <= a < done.len() && 0 <= k < done[a].names@.len()
                                    && done[a].number == prev[key]
                                    && #[trigger] url_to_std(done[a].names@[k]@) == key;
                            assert(now[a] == done[a]);
                        } else {
                            let k = choose|k: int|
                                0 <= k < archives@[i as int].names@.len() && #[trigger] url_to_std(
                                    archives@[i as int].names@[k]@,
                                ) == key;
                            assert(now[i as int] == archives@[i as int]);
                            assert(url_to_std(now[i as int].names@[k]@) == key);
                        }
                    }
                }
            }
            i = i + 1;
        }
        proof {
            assert(archives@.subrange(0, archives@.len() as int) =~= archives@);
        }
        db
    }

    /// The number of the archive that the index records for `block_id`
    /// (standard alphabet), if any.
    pub fn locate(&self, block_id: &str) -> (r: Option<usize>)
        ensures
            match r {
                Some(n) => self.index_map().contains_key(block_id@) && self.index_map()[block_id@]
                    == n,
                None => !self.index_map().contains_key(block_id@),
            },
    {
        match self.index.get(block_id) {
            Some(n) => Some(*n),
            None => None,
        }
    }

    /// The path of the archive that holds `block_id` (standard alphabet):
    /// `None` when the index has no such block or the archive number has no
    /// path in `number_to_name`.
    pub fn get_filename_from_block_id(
        &self,
        block_id: &str,
        number_to_name: &BTreeMap<usize, String>,
    ) -> (r: Option<String>)
        ensures
            match r {
                Some(p) => self.index_map().contains_key(block_id@) && number_to_name@.contains_key(
                    self.index_map()[block_id@],
                ) && p@ == number_to_name@[self.index_map()[block_id@]]@,
                None => !self.index_map().contains_key(block_id@) || !number_to_name@.contains_key(
                    self.index_map()[block_id@],
                ),
            },
    {
        match self.locate(block_id) {
            Some(n) => match number_to_name.get(&n) {
                Some(p) => Some(p.clone()),
                None => None,
            },
            None => None,
        }
    }

    /// Bytes in one content block.
    pub fn block_size(&self) -> (r: usize)
        ensures
            r == self.spec_block_size(),
            r > 0,
            r % 32 == 0,
            offset_size_of(r as int) <= usize::MAX,
    {
        proof {
            use_type_invariant(&self.block_size);
        }
        self.block_size.bytes
    }

    /// Bytes of a file that one full block-list describes.
    pub fn offset_size(&self) -> (r: usize)
        ensures
            r == offset_size_of(self.spec_block_size()),
    {
        let bs = self.block_size();
        (bs / HASH_SIZE) * bs
    }

    /// Bytes in one block hash.
    pub fn hash_size(&self) -> (r: usize)
        ensures
            r == HASH_SIZE,
    {
        HASH_SIZE
    }
}

} // verus!
