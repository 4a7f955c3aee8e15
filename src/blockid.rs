//! File entries of a snapshot listing.
use vstd::prelude::*;

verus! {

/// What a listing entry describes, with the fields its kind requires.
pub enum FileType {
    File { hash: String, size: i64, time: String },
    Folder { metablockhash: String },
    SymLink,
}

/// One entry of a snapshot listing.
///
/// `path` starts with a separator and is taken relative to the restore root.
/// For a file that fits in one block `block_lists` is empty and the `hash` of
/// its `FileType::File` names that block; for a larger file each element of
/// `block_lists` names a block that holds the hashes of its content blocks.
pub struct FileEntry {
    pub path: String,
    pub metahash: String,
    pub metasize: i64,
    pub file_type: FileType,
    pub block_lists: Vec<String>,
}

/// An entry as the listing's JSON writes it, before its kind is checked.
pub struct IEntry {
    pub hash: Option<String>,
    pub metablockhash: Option<String>,
    pub metahash: String,
    pub metasize: i64,
    pub path: String,
    pub filetype: String,
    pub size: Option<i64>,
    pub time: Option<String>,
    pub blocklists: Option<Vec<String>>,
}

/// A field that an entry's kind requires.
#[derive(PartialEq, Eq, Structural, Clone, Copy, Debug)]
pub enum Field {
    Hash,
    Size,
    Time,
    MetaBlockHash,
}

/// A listing entry lacks a field that its kind requires.
#[derive(PartialEq, Eq, Structural, Clone, Copy, Debug)]
pub struct MalformedListing {
    /// Position of the entry in the listing.
    pub entry: usize,
    pub field: Field,
}

pub open spec fn file_tag() -> Seq<char> {
    seq!['F', 'i', 'l', 'e']
}

pub open spec fn folder_tag() -> Seq<char> {
    seq!['F', 'o', 'l', 'd', 'e', 'r']
}

pub open spec fn strings_view(v: Seq<String>) -> Seq<Seq<char>> {
    v.map_values(|s: String| s@)
}

/// The first field that `e`'s kind requires and `e` lacks, if any.
pub open spec fn missing_field(e: IEntry) -> Option<Field> {
    if e.filetype@ == file_tag() {
        if e.hash is None {
            Some(Field::Hash)
        } else if e.size is None {
            Some(Field::Size)
        } else if e.time is None {
            Some(Field::Time)
        } else {
            None
        }
    } else if e.filetype@ == folder_tag() {
        if e.metablockhash is None {
            Some(Field::MetaBlockHash)
        } else {
            None
        }
    } else {
        None
    }
}

/// `f` is the entry that the well-formed raw entry `e` describes.
pub open spec fn describes(e: IEntry, f: FileEntry) -> bool {
    &&& f.path@ == e.path@
    &&& f.metahash@ == e.metahash@
    &&& f.metasize == e.metasize
    &&& strings_view(f.block_lists@) == match e.blocklists {
        Some(b) => strings_view(b@),
        None => Seq::empty(),
    }
    &&& if e.filetype@ == file_tag() {
        match f.file_type {
            FileType::File { hash, size, time } => hash@ == e.hash->0@ && size == e.size->0
                && time@ == e.time->0@,
            _ => false,
        }
    } else if e.filetype@ == folder_tag() {
        match f.file_type {
            FileType::Folder { metablockhash } => metablockhash@ == e.metablockhash->0@,
            _ => false,
        }
    } else {
        f.file_type is SymLink
    }
}

fn copy_strings(v: &Vec<String>) -> (r: Vec<String>)
    ensures
        strings_view(r@) == strings_view(v@),
{
    let mut r: Vec<String> = Vec::new();
    let mut i: usize = 0;
    while i < v.len()
        invariant
            i <= v@.len(),
            strings_view(r@) == strings_view(v@.subrange(0, i as int)),
        decreases v@.len() - i,
    {
        r.push(v[i].clone());
        assert(strings_view(v@.subrange(0, i + 1)) =~= strings_view(v@.subrange(0, i as int)).push(
            v@[i as int]@,
        ));
        assert(strings_view(r@) =~= strings_view(v@.subrange(0, i as int)).push(v@[i as int]@));
        i = i + 1;
    }
    assert(v@.subrange(0, v@.len() as int) =~= v@);
    r
}

impl FileEntry {
    /// Checks a raw entry against its kind: `Err` names the first required
    /// field that is missing.
    pub fn from_ientry(ientry: &IEntry) -> (r: Result<FileEntry, Field>)
        ensures
            match r {
                Ok(f) => missing_field(*ientry) is None && describes(*ientry, f),
                Err(field) => missing_field(*ientry) == Some(field),
            },
    {
        let path = ientry.path.clone();
        let metahash = ientry.metahash.clone();
        let metasize = ientry.metasize;
        let block_lists = match &ientry.blocklists {
            Some(blocks) => copy_strings(blocks),
            None => Vec::new(),
        };
        proof {
            reveal_strlit("File");
            reveal_strlit("Folder");
            assert("File"@ =~= file_tag());
            assert("Folder"@ =~= folder_tag());
            assert(strings_view(Seq::<String>::empty()) =~= Seq::empty());
        }
        let file_tag_s = "File".to_owned();
        let folder_tag_s = "Folder".to_owned();
        let file_type = if ientry.filetype == file_tag_s {
            let hash = match &ientry.hash {
                Some(h) => h.clone(),
                None => {
                    return Err(Field::Hash);
                },
            };
            let size = match ientry.size {
                Some(s) => s,
                None => {
                    return Err(Field::Size);
                },
            };
            let time = match &ientry.time {
                Some(t) => t.clone(),
                None => {
                    return Err(Field::Time);
                },
            };
            FileType::File { hash, size, time }
        } else if ientry.filetype == folder_tag_s {
            match &ientry.metablockhash {
                Some(m) => FileType::Folder { metablockhash: m.clone() },
                None => {
                    return Err(Field::MetaBlockHash);
                },
            }
        } else {
            FileType::SymLink
        };
        Ok(FileEntry { path, metahash, metasize, file_type, block_lists })
    }

    pub fn is_file(&self) -> (r: bool)
        ensures
            r == (self.file_type is File),
    {
        match self.file_type {
            FileType::File { .. } => true,
            _ => false,
        }
    }

    pub fn is_folder(&self) -> (r: bool)
        ensures
            r == (self.file_type is Folder),
    {
        match self.file_type {
            FileType::Folder { .. } => true,
            _ => false,
        }
    }
}

/// Turns the raw entries of a listing into file entries, in listing order.
/// Fails on the first entry that lacks a field its kind requires.
pub fn parse_dlist(entries: &Vec<IEntry>) -> (r: Result<Vec<FileEntry>, MalformedListing>)
    ensures
        match r {
            Ok(v) => {
                &&& v@.len() == entries@.len()
                &&& forall|i: int|
                    0 <= i < v@.len() ==> missing_field(#[trigger] entries@[i]) is None
                        && describes(entries@[i], v@[i])
            },
            Err(e) => {
                &&& e.entry < entries@.len()
                &&& missing_field(entries@[e.entry as int]) == Some(e.field)
                &&& forall|i: int| 0 <= i < e.entry ==> missing_field(#[trigger] entries@[i]) is None
            },
        },
{
    let mut file_entries: Vec<FileEntry> = Vec::new();
    let mut i: usize = 0;
    while i < entries.len()
        invariant
            i <= entries@.len(),
            file_entries@.len() == i,
            forall|k: int|
                0 <= k < i ==> missing_field(#[trigger] entries@[k]) is None && describes(
                    entries@[k],
                    file_entries@[k],
                ),
        decreases entries@.len() - i,
    {
        match FileEntry::from_ientry(&entries[i]) {
            Ok(f) => file_entries.push(f),
            Err(field) => {
                return Err(MalformedListing { entry: i, field });
            },
        }
        i = i + 1;
    }
    Ok(file_entries)
}

} // verus!
