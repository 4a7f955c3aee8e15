//! Planning a restore: what to do for each entry, in which order, and where
//! each content block of a large file is written.
use vstd::prelude::*;
use vstd::slice::slice_subrange;
use crate::blockid::{FileEntry, FileType};
use crate::codec::{encode_standard, std_base64_of};
use crate::database::{DB, HASH_SIZE, offset_size_of};

verus! {

/// One content block to fetch and the file offset its bytes belong at.
pub struct BlockWrite {
    pub offset: u64,
    /// The block's id in the standard alphabet.
    pub block_id: String,
}

/// Number of hashes in a block-list payload of `len` bytes (a short tail
/// counts as one more).
pub open spec fn hash_count(len: int) -> int {
    (len + 31) / 32
}

/// The bytes of the `j`-th hash in a block-list payload.
pub open spec fn hash_at(payload: Seq<u8>, j: int) -> Seq<u8> {
    let end = if 32 * j + 32 <= payload.len() {
        32 * j + 32
    } else {
        payload.len() as int
    };
    payload.subrange(32 * j, end)
}

/// Where the `j`-th block of the `i`-th block-list goes in the file.
pub open spec fn block_offset(block_size: int, i: int, j: int) -> int {
    i * offset_size_of(block_size) + j * block_size
}

/// The content blocks that the `list_index`-th block-list of a file names,
/// in order, each with the offset where its bytes are written.
pub fn block_list_writes(db: &DB, list_index: usize, payload: &[u8]) -> (r: Vec<BlockWrite>)
    requires
        block_offset(db.spec_block_size(), list_index as int, hash_count(payload@.len() as int))
            <= u64::MAX,
    ensures
        r@.len() == hash_count(payload@.len() as int),
        forall|j: int|
            0 <= j < r@.len() ==> (#[trigger] r@[j]).offset == block_offset(
                db.spec_block_size(),
                list_index as int,
                j,
            ) && r@[j].block_id@ == std_base64_of(hash_at(payload@, j)),
{
    let bs = db.block_size();
    let os = db.offset_size();
    let n = payload.len();
    let count = n / HASH_SIZE + if n % HASH_SIZE == 0 {
        0
    } else {
        1
    };
    assert(count == hash_count(n as int));
    let ghost limit = block_offset(bs as int, list_index as int, count as int);
    assert(list_index as int * os as int <= limit) by (nonlinear_arith)
        requires
            limit == list_index as int * os as int + count as int * bs as int,
            count >= 0,
            bs > 0,
    ;
    let base: u64 = list_index as u64 * os as u64;
    let mut r: Vec<BlockWrite> = Vec::new();
    let mut j: usize = 0;
    while j < count
        invariant
            bs == db.spec_block_size(),
            bs > 0,
            os == offset_size_of(bs as int),
            n == payload@.len(),
            count == hash_count(n as int),
            limit == block_offset(bs as int, list_index as int, count as int),
            limit <= u64::MAX,
            base == list_index as int * os as int,
            j <= count,
            r@.len() == j,
            forall|k: int|
                0 <= k < j ==> (#[trigger] r@[k]).offset == block_offset(
                    bs as int,
                    list_index as int,
                    k,
                ) && r@[k].block_id@ == std_base64_of(hash_at(payload@, k)),
        decreases count - j,
    {
        assert(32 * j < n) by (nonlinear_arith)
            requires
                j < count,
                count == (n + 31) / 32,
        ;
        let start: usize = j * HASH_SIZE;
        let end: usize = if n - start >= HASH_SIZE {
            start + HASH_SIZE
        } else {
            n
        };
        let id = encode_standard(slice_subrange(payload, start, end));
        assert(j as int * bs as int <= count as int * bs as int) by (nonlinear_arith)
            requires
                j < count,
                bs > 0,
        ;
        let offset: u64 = base + j as u64 * bs as u64;
        r.push(BlockWrite { offset, block_id: id });
        j = j + 1;
    }
    r
}

/// What restoring one entry does.
pub enum RestoreAction {
    /// Create the directory and its missing parents.
    CreateDir,
    /// Create the file and write the one block named `block_id` at offset 0;
    /// if the block is absent, report it only when `report_if_absent`.
    WriteBlock { block_id: String, report_if_absent: bool },
    /// Create the file and write the blocks that its block-lists name.
    WriteBlockLists,
    /// Nothing to do.
    Skip,
}

impl FileEntry {
    /// The action that restores this entry.
    pub fn restore_action(&self) -> (r: RestoreAction)
        ensures
            match self.file_type {
                FileType::Folder { .. } => r is CreateDir,
                FileType::SymLink => r is Skip,
                FileType::File { hash, size, .. } => if self.block_lists@.len() == 0 {
                    match r {
                        RestoreAction::WriteBlock { block_id, report_if_absent } => block_id@
                            == hash@ && report_if_absent == (size > 0),
                        _ => false,
                    }
                } else {
                    r is WriteBlockLists
                },
            },
    {
        match &self.file_type {
            FileType::Folder { .. } => RestoreAction::CreateDir,
            FileType::SymLink => RestoreAction::Skip,
            FileType::File { hash, size, .. } => {
                if self.block_lists.len() == 0 {
                    RestoreAction::WriteBlock { block_id: hash.clone(), report_if_absent: *size > 0 }
                } else {
                    RestoreAction::WriteBlockLists
                }
            },
        }
    }

    /// The entry's path relative to the restore root: its path without the
    /// leading separator.
    pub fn relative_path(&self) -> (r: String)
        ensures
            self.path@.len() > 0 && self.path@[0] == '/' ==> r@ == self.path@.drop_first(),
            !(self.path@.len() > 0 && self.path@[0] == '/') ==> r@ == self.path@,
    {
        let n = self.path.as_str().unicode_len();
        if n > 0 && self.path.as_str().get_char(0) == '/' {
            self.path.as_str().substring_char(1, n).to_owned()
        } else {
            self.path.clone()
        }
    }
}

/// The positions, in order, among the first `n` entries, of the folders
/// (`folders`) or of the files (`!folders`).
pub open spec fn positions_of(entries: Seq<FileEntry>, n: int, folders: bool) -> Seq<usize>
    decreases n,
{
    if n <= 0 {
        Seq::empty()
    } else {
        let rest = positions_of(entries, n - 1, folders);
        let hit = if folders {
            entries[n - 1].file_type is Folder
        } else {
            entries[n - 1].file_type is File
        };
        if hit {
            rest.push((n - 1) as usize)
        } else {
            rest
        }
    }
}

/// The two passes of a restore: the folders, which are created first and in
/// listing order, then the files. Symlinks are in neither.
pub struct RestorePasses {
    pub folders: Vec<usize>,
    pub files: Vec<usize>,
}

/// Splits a listing into its folder pass and its file pass.
pub fn restore_passes(entries: &Vec<FileEntry>) -> (r: RestorePasses)
    ensures
        r.folders@ == positions_of(entries@, entries@.len() as int, true),
        r.files@ == positions_of(entries@, entries@.len() as int, false),
{
    let mut folders: Vec<usize> = Vec::new();
    let mut files: Vec<usize> = Vec::new();
    let mut i: usize = 0;
    while i < entries.len()
        invariant
            i <= entries@.len(),
            folders@ == positions_of(entries@, i as int, true),
            files@ == positions_of(entries@, i as int, false),
        decreases entries@.len() - i,
    {
        if entries[i].is_folder() {
            folders.push(i);
        } else if entries[i].is_file() {
            files.push(i);
        }
        i = i + 1;
    }
    RestorePasses { folders, files }
}

} // verus!
