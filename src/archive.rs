use vstd::prelude::*;
use vstd::string::*;

use crate::error::{Error, ErrorKind};
use crate::filter::after_prefix;
use crate::format::{
    contents_bytes, contents_len, copy_range, decode_lossy, get_le64, header_len, image,
    image_len, lemma_lens_monotone, lossy_text, offset_of, parse_entries, parse_image,
    prelude_bytes, push_bytes, push_u64, read_le64, saved_file, table_bytes, table_len,
    time_field, time_from, time_or_zero, version_bytes, le64,
};
use crate::location::Location;
use crate::path::{extension, extension_of, file_name, final_component};

pub use crate::format::{ARCHIVE_MAGIC_NUMBER, ARCHIVE_VERSION};

verus! {

/// What an `ArchiveFile` holds.
pub struct FileView {
    pub path: Seq<char>,
    pub content: Seq<u8>,
    pub offset: u64,
    pub created_at: Option<u64>,
    pub modified_at: Option<u64>,
    pub archived_at: Option<u64>,
}

/// What an `Archive` holds.
pub struct ArchiveView {
    pub path: Option<Seq<char>>,
    pub files: Seq<FileView>,
}

/// One packed file: its path, its bytes, where the bytes sit in the saved
/// archive, and its timestamps in seconds since the Unix epoch.
#[derive(Debug)]
pub struct ArchiveFile {
    path: String,
    offset: u64,
    created_at: Option<u64>,
    modified_at: Option<u64>,
    archived_at: Option<u64>,
    content: Vec<u8>,
}

/// An ordered collection of packed files, and the file it was saved to or
/// loaded from.
#[derive(Debug)]
pub struct Archive {
    path: Option<String>,
    files: Vec<ArchiveFile>,
}

impl View for ArchiveFile {
    type V = FileView;

    closed spec fn view(&self) -> FileView {
        FileView {
            path: self.path@,
            content: self.content@,
            offset: self.offset,
            created_at: self.created_at,
            modified_at: self.modified_at,
            archived_at: self.archived_at,
        }
    }
}

/// An optional string, seen as an optional sequence of characters.
pub open spec fn opt_view(p: Option<String>) -> Option<Seq<char>> {
    match p {
        Some(s) => Some(s@),
        None => None,
    }
}

/// The views of a sequence of files.
pub open spec fn file_views(fs: Seq<ArchiveFile>) -> Seq<FileView> {
    fs.map_values(|f: ArchiveFile| f@)
}

impl View for Archive {
    type V = ArchiveView;

    closed spec fn view(&self) -> ArchiveView {
        ArchiveView { path: opt_view(self.path), files: file_views(self.files@) }
    }
}

/// Whether an entry stored under `stored` answers to `query`: the same path,
/// or the same final component.
pub open spec fn same_entry(stored: Seq<char>, query: Seq<char>) -> bool {
    stored == query || (file_name(stored) is Some && file_name(stored) == file_name(query))
}

/// Whether some entry of `fs` answers to `q`.
pub open spec fn has_match(fs: Seq<FileView>, q: Seq<char>) -> bool {
    exists|i: int| 0 <= i < fs.len() && same_entry(#[trigger] fs[i].path, q)
}

/// Whether `i` is the first entry of `fs` that answers to `q`.
pub open spec fn is_first_match(fs: Seq<FileView>, q: Seq<char>, i: int) -> bool {
    &&& 0 <= i < fs.len()
    &&& same_entry(fs[i].path, q)
    &&& forall|j: int| 0 <= j < i ==> !same_entry(#[trigger] fs[j].path, q)
}

/// No two entries answer to each other.
pub open spec fn distinct_entries(fs: Seq<FileView>) -> bool {
    forall|i: int, j: int|
        0 <= i < j < fs.len() ==> !same_entry(#[trigger] fs[i].path, #[trigger] fs[j].path)
}

/// An entry answers to its own path and to any path with the same final
/// component, and never to a path whose final component differs from its own.
pub proof fn lemma_identity_matching(stored: Seq<char>, query: Seq<char>)
    ensures
        same_entry(stored, stored),
        file_name(stored) is Some && file_name(stored) == file_name(query) ==> same_entry(
            stored,
            query,
        ),
        file_name(stored) != file_name(query) ==> !same_entry(stored, query),
{
}

/// A path whose final component an entry already has answers to that entry,
/// so `Archive::add` and `Archive::add_file` refuse it and leave the archive
/// as it was.
pub proof fn lemma_duplicate_name_found(fs: Seq<FileView>, path: Seq<char>, i: int)
    requires
        0 <= i < fs.len(),
        file_name(fs[i].path) is Some,
        file_name(fs[i].path) == file_name(path),
    ensures
        has_match(fs, path),
{
    assert(same_entry(fs[i].path, path));
}

/// Entries stay distinct when `Archive::add` appends one that no entry
/// answers to (the only case in which it appends).
pub proof fn lemma_add_keeps_distinct(fs: Seq<FileView>, f: FileView)
    requires
        distinct_entries(fs),
        !has_match(fs, f.path),
    ensures
        distinct_entries(fs.push(f)),
{
    let gs = fs.push(f);
    assert forall|i: int, j: int| 0 <= i < j < gs.len() implies !same_entry(
        #[trigger] gs[i].path,
        #[trigger] gs[j].path,
    ) by {
        if j == fs.len() {
            assert(!same_entry(fs[i].path, f.path));
        } else {
            assert(gs[i] == fs[i] && gs[j] == fs[j]);
        }
    }
}

/// Entries stay distinct when one of them is removed.
pub proof fn lemma_remove_keeps_distinct(fs: Seq<FileView>, k: int)
    requires
        distinct_entries(fs),
        0 <= k < fs.len(),
    ensures
        distinct_entries(fs.remove(k)),
{
    let gs = fs.remove(k);
    assert forall|i: int, j: int| 0 <= i < j < gs.len() implies !same_entry(
        #[trigger] gs[i].path,
        #[trigger] gs[j].path,
    ) by {
        let i0 = if i < k { i } else { i + 1 };
        let j0 = if j < k { j } else { j + 1 };
        assert(gs[i] == fs[i0] && gs[j] == fs[j0]);
        assert(!same_entry(fs[i0].path, fs[j0].path));
    }
}

impl ArchiveFile {
    /// A file with the given path and content, not yet saved and without
    /// timestamps.
    pub fn new(path: &str, content: &[u8]) -> (r: ArchiveFile)
        ensures
            r@ == (FileView {
                path: path@,
                content: content@,
                offset: 0,
                created_at: None,
                modified_at: None,
                archived_at: None,
            }),
    {
        ArchiveFile::with_times(path, content, None, None)
    }

    /// A file with the given path, content and source timestamps, not yet
    /// saved.
    pub fn with_times(path: &str, content: &[u8], created_at: Option<u64>, modified_at: Option<u64>) -> (r:
        ArchiveFile)
        ensures
            r@ == (FileView {
                path: path@,
                content: content@,
                offset: 0,
                created_at,
                modified_at,
                archived_at: None,
            }),
    {
        let bytes = copy_range(content, 0, content.len());
        proof {
            assert(bytes@ =~= content@);
        }
        ArchiveFile {
            path: path.to_owned(),
            content: bytes,
            created_at,
            modified_at,
            archived_at: None,
            offset: 0,
        }
    }

    pub fn path(&self) -> (r: &String)
        ensures
            r@ == self@.path,
    {
        &self.path
    }

    pub fn path_mut(&mut self) -> (r: &mut String)
        ensures
            r@ == old(self)@.path,
            final(self)@ == (FileView { path: final(r)@, ..old(self)@ }),
    {
        &mut self.path
    }

    pub fn content_len(&self) -> (r: usize)
        ensures
            r == self@.content.len(),
    {
        self.content.len()
    }

    pub fn content(&self) -> (r: &Vec<u8>)
        ensures
            r@ == self@.content,
    {
        &self.content
    }

    pub fn content_mut(&mut self) -> (r: &mut Vec<u8>)
        ensures
            r@ == old(self)@.content,
            final(self)@ == (FileView { content: final(r)@, ..old(self)@ }),
    {
        &mut self.content
    }

    pub fn offset_mut(&mut self) -> (r: &mut u64)
        ensures
            *r == old(self)@.offset,
            final(self)@ == (FileView { offset: *final(r), ..old(self)@ }),
    {
        &mut self.offset
    }

    pub fn offset(&self) -> (r: u64)
        ensures
            r == self@.offset,
    {
        self.offset
    }

    pub fn created_at(&self) -> (r: Option<u64>)
        ensures
            r == self@.created_at,
    {
        self.created_at
    }

    pub fn modified_at(&self) -> (r: Option<u64>)
        ensures
            r == self@.modified_at,
    {
        self.modified_at
    }

    pub fn archived_at(&self) -> (r: Option<u64>)
        ensures
            r == self@.archived_at,
    {
        self.archived_at
    }

    /// The final component of the file's path: its display name.
    pub fn name(&self) -> (r: Option<String>)
        ensures
            opt_view(r) == file_name(self@.path),
    {
        final_component(self.path.as_str())
    }

    /// The extension of the file's name.
    pub fn extension(&self) -> (r: Option<String>)
        ensures
            opt_view(r) == extension(self@.path),
    {
        extension_of(self.path.as_str())
    }

    /// Whether this entry answers to `path`: the same path, or the same final
    /// component.
    pub fn matches(&self, path: &str) -> (r: bool)
        ensures
            r == same_entry(self@.path, path@),
    {
        if self.path == path.to_owned() {
            return true;
        }
        let f_name = final_component(self.path.as_str());
        let i_name = final_component(path);
        match (f_name, i_name) {
            (Some(f), Some(i)) => f == i,
            _ => false,
        }
    }
}

impl Default for ArchiveFile {
    /// A file with an empty path and no content, not yet saved and without
    /// timestamps.
    fn default() -> (r: ArchiveFile)
        ensures
            r@ == (FileView {
                path: Seq::empty(),
                content: Seq::empty(),
                offset: 0,
                created_at: None,
                modified_at: None,
                archived_at: None,
            }),
    {
        ArchiveFile {
            path: String::new(),
            offset: 0,
            created_at: None,
            modified_at: None,
            archived_at: None,
            content: Vec::new(),
        }
    }
}

impl Default for Archive {
    /// An empty archive, not tied to any file.
    fn default() -> (r: Archive)
        ensures
            r@.path is None,
            r@.files.len() == 0,
    {
        Archive { path: None, files: Vec::new() }
    }
}

impl Archive {
    /// An empty archive, not tied to any file.
    pub fn new() -> (r: Archive)
        ensures
            r@.path is None,
            r@.files.len() == 0,
    {
        Archive { path: None, files: Vec::new() }
    }

    /// The index of the first entry that answers to `path`, if any.
    fn find(&self, path: &str) -> (r: Option<usize>)
        ensures
            match r {
                Some(i) => is_first_match(self@.files, path@, i as int),
                None => !has_match(self@.files, path@),
            },
    {
        let mut i: usize = 0;
        while i < self.files.len()
            invariant
                i <= self.files@.len(),
                forall|j: int| 0 <= j < i ==> !same_entry(#[trigger] self@.files[j].path, path@),
            decreases self.files@.len() - i,
        {
            if self.files[i].matches(path) {
                return Some(i);
            }
            i = i + 1;
        }
        None
    }

    /// Whether some entry answers to `path`.
    pub fn contains_file(&self, path: &str) -> (r: bool)
        ensures
            r == has_match(self@.files, path@),
    {
        self.find(path).is_some()
    }

    /// The first entry that answers to `path`, if any.
    pub fn get_file(&self, path: &str) -> (r: Option<&ArchiveFile>)
        ensures
            match r {
                Some(f) => exists|i: int| is_first_match(self@.files, path@, i) && f@ == self@.files[i],
                None => !has_match(self@.files, path@),
            },
    {
        match self.find(path) {
            Some(i) => Some(&self.files[i]),
            None => None,
        }
    }

    /// Appends `f`, unless an entry already answers to its path; then the
    /// archive is left as it was and the error says so.
    pub fn add(&mut self, f: ArchiveFile) -> (r: Result<&mut ArchiveFile, Error>)
        ensures
            has_match(old(self)@.files, f@.path) ==> {
                &&& r matches Err(e)
                &&& e.spec_kind() == ErrorKind::IO
                &&& final(self)@ == old(self)@
            },
            !has_match(old(self)@.files, f@.path) ==> {
                &&& r matches Ok(g)
                &&& g@ == f@
                &&& final(self)@ == (ArchiveView {
                    files: old(self)@.files.push(final(g)@),
                    ..old(self)@
                })
            },
    {
        if self.find(f.path.as_str()).is_some() {
            let message = "file '".to_owned().concat(f.path.as_str()).concat("' already exists");
            return Err(Error::new(ErrorKind::IO, message, None, Location::new("src/archive.rs", 447, 65)));
        }
        self.files.push(f);
        let k = self.files.len() - 1;
        proof {
            let fs = self.files@;
            assert forall|x: ArchiveFile| #[trigger] file_views(fs.update(k as int, x)) == old(self)@.files.push(x@) by {
                assert(file_views(fs.update(k as int, x)) =~= old(self)@.files.push(x@));
            }
        }
        Ok(&mut self.files[k])
    }

    /// Appends a new file with the given path and content; see `add`.
    pub fn add_file(&mut self, path: &str, content: &[u8]) -> (r: Result<&mut ArchiveFile, Error>)
        ensures
            has_match(old(self)@.files, path@) ==> {
                &&& r matches Err(e)
                &&& e.spec_kind() == ErrorKind::IO
                &&& final(self)@ == old(self)@
            },
            !has_match(old(self)@.files, path@) ==> {
                &&& r matches Ok(g)
                &&& g@ == (FileView {
                    path: path@,
                    content: content@,
                    offset: 0,
                    created_at: None,
                    modified_at: None,
                    archived_at: None,
                })
                &&& final(self)@ == (ArchiveView {
                    files: old(self)@.files.push(final(g)@),
                    ..old(self)@
                })
            },
    {
        self.add(ArchiveFile::new(path, content))
    }

    /// Takes out the first entry that answers to `path`, if any.
    pub fn remove_file(&mut self, path: &str) -> (r: Option<ArchiveFile>)
        ensures
            match r {
                Some(g) => exists|i: int|
                    {
                        &&& is_first_match(old(self)@.files, path@, i)
                        &&& g@ == old(self)@.files[i]
                        &&& final(self)@ == (ArchiveView {
                            files: old(self)@.files.remove(i),
                            ..old(self)@
                        })
                    },
                None => !has_match(old(self)@.files, path@) && final(self)@ == old(self)@,
            },
    {
        match self.find(path) {
            Some(i) => {
                let g = self.files.remove(i);
                proof {
                    assert(file_views(self.files@) =~= old(self)@.files.remove(i as int));
                }
                Some(g)
            },
            None => None,
        }
    }

    /// The entries, in order.
    pub fn files(&self) -> (r: &Vec<ArchiveFile>)
        ensures
            file_views(r@) == self@.files,
    {
        &self.files
    }

    /// The entries, to change in place.
    pub fn files_mut(&mut self) -> (r: &mut Vec<ArchiveFile>)
        ensures
            file_views(r@) == old(self)@.files,
            final(self)@ == (ArchiveView { files: file_views(final(r)@), ..old(self)@ }),
    {
        &mut self.files
    }

    /// The saved form of the archive, written at time `now` (seconds since
    /// the epoch). Each entry records where its content lands and `now` as
    /// its archiving time; `path`, when given, becomes the archive's path.
    /// Fails, changing nothing, when the archive would exceed what its 64-bit
    /// offsets can address.
    pub fn save(&mut self, path: Option<String>, now: u64) -> (r: Result<Vec<u8>, Error>)
        ensures
            image_len(old(self)@.files) <= u64::MAX ==> {
                &&& r matches Ok(bytes)
                &&& bytes@ == image(old(self)@.files, now)
                &&& final(self)@.path == (match path {
                    Some(p) => Some(p@),
                    None => old(self)@.path,
                })
                &&& final(self)@.files.len() == old(self)@.files.len()
                &&& forall|i: int|
                    0 <= i < old(self)@.files.len() ==> #[trigger] final(self)@.files[i]
                        == saved_file(old(self)@.files[i], offset_of(old(self)@.files, i), now)
            },
            image_len(old(self)@.files) > u64::MAX ==> {
                &&& r matches Err(e)
                &&& e.spec_kind() == ErrorKind::IO
                &&& final(self)@ == old(self)@
            },
    {
        let ghost fs = self@.files;
        let n = self.files.len();
        let version = ARCHIVE_VERSION.as_bytes();
        // the size of the header, entry by entry
        if version.len() as u64 > u64::MAX - 24 {
            return Err(too_large());
        }
        let mut header: u64 = 24 + version.len() as u64;
        let mut i: usize = 0;
        while i < n
            invariant
                n == fs.len(),
                fs == self@.files,
                i <= n,
                header == 24 + version_bytes().len() + table_len(fs.take(i as int)),
            decreases n - i,
        {
            let len = self.files[i].path.as_str().as_bytes().len() as u64;
            proof {
                assert(fs.take(i + 1).drop_last() =~= fs.take(i as int));
                assert(fs[i as int].path == self.files@[i as int].path@);
                lemma_lens_monotone(fs, i + 1);
            }
            if len > u64::MAX - 48 || header > u64::MAX - 48 - len {
                return Err(too_large());
            }
            header = header + 48 + len;
            i = i + 1;
        }
        proof {
            assert(fs.take(n as int) =~= fs);
        }
        // the size of the whole archive
        let mut total: u64 = header;
        let mut i: usize = 0;
        while i < n
            invariant
                n == fs.len(),
                fs == self@.files,
                i <= n,
                header == header_len(fs),
                total == header_len(fs) + contents_len(fs.take(i as int)),
            decreases n - i,
        {
            let len = self.files[i].content.len() as u64;
            proof {
                assert(fs.take(i + 1).drop_last() =~= fs.take(i as int));
                lemma_lens_monotone(fs, i + 1);
            }
            if total > u64::MAX - len {
                return Err(too_large());
            }
            total = total + len;
            i = i + 1;
        }
        proof {
            assert(fs.take(n as int) =~= fs);
        }
        if let Some(p) = path {
            self.path = Some(p);
        }
        let mut out: Vec<u8> = Vec::new();
        push_u64(&mut out, ARCHIVE_MAGIC_NUMBER);
        push_u64(&mut out, version.len() as u64);
        push_bytes(&mut out, version);
        push_u64(&mut out, n as u64);
        let ghost lead = out@;
        let mut contents: Vec<u8> = Vec::new();
        let mut offset: u64 = header;
        let mut i: usize = 0;
        proof {
            assert(fs.take(0) =~= Seq::<FileView>::empty());
            assert(lead =~= prelude_bytes() + le64(n as u64));
            assert(out@ =~= lead + table_bytes(fs.take(0), header as nat, now));
        }
        while i < n
            invariant
                n == fs.len(),
                n == self.files@.len(),
                i <= n,
                header == header_len(fs),
                total == image_len(fs),
                total <= u64::MAX,
                offset == header_len(fs) + contents_len(fs.take(i as int)),
                lead == prelude_bytes() + le64(n as u64),
                out@ == lead + table_bytes(fs.take(i as int), header as nat, now),
                contents@ == contents_bytes(fs.take(i as int)),
                forall|j: int|
                    0 <= j < i ==>
                        #[trigger] self@.files[j] == saved_file(fs[j], offset_of(fs, j), now),
                forall|j: int| i <= j < n ==> #[trigger] self@.files[j] == fs[j],
                self@.path == (match path {
                    Some(p) => Some(p@),
                    None => old(self)@.path,
                }),
            decreases n - i,
        {
            let ghost f = fs[i as int];
            proof {
                assert(self@.files[i as int] == f);
                assert(fs.take(i + 1).drop_last() =~= fs.take(i as int));
                assert(fs.take(i + 1).last() == f);
                lemma_lens_monotone(fs, i + 1);
            }
            let pb = self.files[i].path.as_str().as_bytes();
            push_u64(&mut out, pb.len() as u64);
            push_bytes(&mut out, pb);
            push_u64(&mut out, self.files[i].content.len() as u64);
            push_u64(&mut out, offset);
            push_u64(&mut out, time_or_zero(self.files[i].created_at));
            push_u64(&mut out, time_or_zero(self.files[i].modified_at));
            push_u64(&mut out, now);
            push_bytes(&mut contents, self.files[i].content.as_slice());
            let len = self.files[i].content.len() as u64;
            let ghost before = self.files@;
            self.files[i].offset = offset;
            self.files[i].archived_at = Some(now);
            proof {
                assert forall|j: int| 0 <= j < n && j != i implies #[trigger] self.files@[j] == before[j] by {}
                assert forall|j: int| 0 <= j < n && j != i implies #[trigger] self@.files[j] == file_views(before)[j] by {}
                assert(out@ =~= lead + table_bytes(fs.take(i + 1), header as nat, now));
                assert(contents@ =~= contents_bytes(fs.take(i + 1)));
                assert(self@.files[i as int] == saved_file(fs[i as int], offset_of(fs, i as int), now));
            }
            offset = offset + len;
            i = i + 1;
        }
        proof {
            assert(fs.take(n as int) =~= fs);
        }
        push_bytes(&mut out, contents.as_slice());
        proof {
            assert(out@ =~= image(fs, now));
        }
        Ok(out)
    }

    /// Reads a saved archive from `bytes`, `path` being where they come from.
    /// Fails when the bytes do not start with the magic number, or when a
    /// field or a content is cut short; the version tag is not checked.
    pub fn load(path: &str, bytes: &[u8]) -> (r: Result<Archive, Error>)
        ensures
            match parse_image(bytes@) {
                Some(fs) => r matches Ok(a) && a@ == (ArchiveView { path: Some(path@), files: fs }),
                None => r matches Err(e) && e.spec_kind() == ErrorKind::IO,
            },
            read_le64(bytes@, 0) != Some(ARCHIVE_MAGIC_NUMBER) ==> r is Err,
    {
        let ghost b = bytes@;
        let n = bytes.len();
        if n < 16 {
            return Err(corrupted());
        }
        let magic = get_le64(bytes, 0);
        let vlen = get_le64(bytes, 8);
        if magic != ARCHIVE_MAGIC_NUMBER || n < 24 || vlen > (n - 24) as u64 {
            return Err(corrupted());
        }
        let mut p: usize = 24 + vlen as usize;
        let count = get_le64(bytes, p - 8);
        let mut k: u64 = count;
        let mut files: Vec<ArchiveFile> = Vec::new();
        proof {
            assert(file_views(files@) =~= Seq::<FileView>::empty());
            match parse_image(b) {
                Some(m) => {
                    assert(Seq::<FileView>::empty() + m =~= m);
                },
                None => {},
            }
        }
        while k > 0
            invariant
                b == bytes@,
                n == b.len(),
                p <= n,
                parse_image(b) == after_prefix(file_views(files@), parse_entries(b, p as int, k as nat)),
            decreases k,
        {
            if n - p < 8 {
                return Err(corrupted());
            }
            let plen = get_le64(bytes, p);
            if plen > (n - p - 8) as u64 || (n - p - 8 - plen as usize) < 40 {
                return Err(corrupted());
            }
            let q = p + 8 + plen as usize;
            let clen = get_le64(bytes, q);
            let off = get_le64(bytes, q + 8);
            let created = get_le64(bytes, q + 16);
            let modified = get_le64(bytes, q + 24);
            let archived = get_le64(bytes, q + 32);
            if off > n as u64 || clen > n as u64 - off {
                return Err(corrupted());
            }
            let path_raw = copy_range(bytes, p + 8, q);
            let name = decode_lossy(path_raw.as_slice());
            let content = copy_range(bytes, off as usize, (off + clen) as usize);
            let f = ArchiveFile {
                path: name,
                content,
                offset: off,
                created_at: time_from(created),
                modified_at: time_from(modified),
                archived_at: Some(archived),
            };
            let ghost before = file_views(files@);
            files.push(f);
            proof {
                assert(file_views(files@) =~= before + seq![f@]);
                match parse_entries(b, q + 40, (k - 1) as nat) {
                    Some(m) => {
                        assert(before + (seq![f@] + m) =~= file_views(files@) + m);
                    },
                    None => {},
                }
            }
            p = q + 40;
            k = k - 1;
        }
        proof {
            assert(file_views(files@) + Seq::<FileView>::empty() =~= file_views(files@));
        }
        Ok(Archive { path: Some(path.to_owned()), files })
    }

    /// The version tag stored in the saved archive `bytes`, when they hold
    /// one, as text.
    pub fn stored_version(bytes: &[u8]) -> (r: Option<String>)
        ensures
            match read_le64(bytes@, 8) {
                Some(v) => if 16 + v <= bytes@.len() {
                    r matches Some(t) && t@ == lossy_text(bytes@.subrange(16, 16 + v))
                } else {
                    r is None
                },
                None => r is None,
            },
    {
        let n = bytes.len();
        if n < 16 {
            return None;
        }
        let v = get_le64(bytes, 8);
        if v > (n - 16) as u64 {
            return None;
        }
        let raw = copy_range(bytes, 16, 16 + v as usize);
        Some(decode_lossy(raw.as_slice()))
    }

}

impl Clone for ArchiveFile {
    fn clone(&self) -> (r: ArchiveFile)
        ensures
            r@ == self@,
    {
        ArchiveFile {
            path: self.path.clone(),
            offset: self.offset,
            created_at: self.created_at,
            modified_at: self.modified_at,
            archived_at: self.archived_at,
            content: self.content.clone(),
        }
    }
}

/// The error for an archive too large for 64-bit offsets.
fn too_large() -> (e: Error)
    ensures
        e.spec_kind() == ErrorKind::IO,
{
    Error::new(
        ErrorKind::IO,
        "archive too large for 64-bit offsets".to_owned(),
        None,
        Location::new("src/archive.rs", 835, 9),
    )
}

/// The error for bytes that are not a saved archive.
fn corrupted() -> (e: Error)
    ensures
        e.spec_kind() == ErrorKind::IO,
{
    Error::new(ErrorKind::IO, "corrupted archive".to_owned(), None, Location::new("src/archive.rs", 844, 69))
}

} // verus!
