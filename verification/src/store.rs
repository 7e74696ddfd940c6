//! The directory that holds downloaded and decompressed images.
//!
//! The directory is flat: a file is known by its name.  The functions that
//! download and decompress are written against [`ImageStore`], so that they
//! run the same on a directory on disk and on [`MemoryStore`], a directory
//! held in memory.

use crate::decompress::bz2_decode;
use crate::decompress::decoded;
use crate::decompress::gz_decode;
use crate::decompress::xz_decode;
use crate::decompress::xz_decoded;
use crate::decompress::zstd_decode;
use crate::decompress::CompressionFormat;
use crate::flash::verify::MemoryReader;
use crate::flash::verify::VerificationReader;
use crate::text::same_text;
use vstd::prelude::*;

verus! {

/// The two directories hold the same files, except perhaps for `name`.
pub open spec fn same_except(
    before: Map<Seq<char>, Seq<u8>>,
    after: Map<Seq<char>, Seq<u8>>,
    name: Seq<char>,
) -> bool {
    forall|other: Seq<char>|
        #![trigger before.contains_key(other)]
        #![trigger after.contains_key(other)]
        other != name ==> (before.contains_key(other) == after.contains_key(other) && (
        before.contains_key(other) ==> before[other] == after[other]))
}

/// Two changes in a row that each leave every file but `name` alone leave
/// every file but `name` alone.
pub proof fn lemma_same_except_twice(
    before: Map<Seq<char>, Seq<u8>>,
    between: Map<Seq<char>, Seq<u8>>,
    after: Map<Seq<char>, Seq<u8>>,
    name: Seq<char>,
)
    requires
        same_except(before, between, name),
        same_except(between, after, name),
    ensures
        same_except(before, after, name),
{
    assert forall|other: Seq<char>| other != name implies (#[trigger] before.contains_key(other)
        == after.contains_key(other) && (before.contains_key(other) ==> before[other]
        == after[other])) by {
        assert(between.contains_key(other) == before.contains_key(other));
        assert(between.contains_key(other) == after.contains_key(other));
    }
}

/// What noting a use of the file `name` does to the record of uses: the
/// name is added at its end.  Only for a file that is not there, or in a
/// directory that fails, may the record stay as it is.
pub open spec fn is_noted(
    before: Seq<Seq<char>>,
    after: Seq<Seq<char>>,
    name: Seq<char>,
    present: bool,
    can_fail: bool,
) -> bool {
    if present && !can_fail {
        after == before.push(name)
    } else if present {
        after == before.push(name) || after == before
    } else {
        after == before
    }
}

/// A flat directory of files.
pub trait ImageStore {
    /// What reading a file of the directory goes through.
    type Reader: VerificationReader;

    /// The files of the directory: content by name.  A directory that does
    /// not say what it holds holds something, and nothing is known of it.
    open spec fn files(&self) -> Map<Seq<char>, Seq<u8>> {
        arbitrary()
    }

    /// Can an operation on this directory end in an I/O error?  Unless a
    /// directory says otherwise, it can.
    open spec fn can_fail(&self) -> bool {
        true
    }

    /// Has the system a tool to decompress with that does its work without
    /// fail?  Unless a directory says so, there is none to count on.
    open spec fn has_sound_tool(&self) -> bool {
        false
    }

    /// What the system's own tool puts out for the xz file `name`, if there
    /// is such a tool and it ends well on the file.  The tool is the
    /// system's, and what it makes of a file is for it to say: nothing here
    /// takes it to be what the library decodes.
    open spec fn tool_output(&self, name: Seq<char>) -> Option<Seq<u8>> {
        arbitrary()
    }

    /// The names of the files that were noted as used, first to last: the
    /// order in which the cache takes its files for used.  Of a directory
    /// that does not say, nothing is known.
    open spec fn used(&self) -> Seq<Seq<char>> {
        arbitrary()
    }

    /// Is there a file of this name?
    fn contains(&self, name: &str) -> (found: bool)
        ensures
            found == self.files().contains_key(name@),
    ;

    /// Size of the file in bytes, if it can be told.
    fn size(&self, name: &str) -> (size: Option<u64>)
        ensures
            match size {
                Some(n) => self.files().contains_key(name@) && n == self.files()[name@].len(),
                None => !self.files().contains_key(name@) || self.can_fail()
                    || self.files()[name@].len() > u64::MAX,
            },
    ;

    /// Notes that the file was used just now.  Does nothing to the content
    /// of any file, and nothing at all if it cannot be done: if the file is
    /// not there, or the directory fails.
    fn touch(&mut self, name: &str)
        ensures
            final(self).files() == old(self).files(),
            final(self).can_fail() == old(self).can_fail(),
            final(self).has_sound_tool() == old(self).has_sound_tool(),
            is_noted(
                old(self).used(),
                final(self).used(),
                name@,
                old(self).files().contains_key(name@),
                old(self).can_fail(),
            ),
    ;

    /// Opens the file for reading from its first byte.
    fn open(&self, name: &str) -> (result: Result<Self::Reader, String>)
        ensures
            match result {
                Ok(reader) => {
                    &&& self.files().contains_key(name@)
                    &&& reader.passed() == Seq::<u8>::empty()
                    &&& reader.remaining() == self.files()[name@]
                    &&& reader.intact()
                    &&& reader.can_fail() ==> self.can_fail()
                },
                Err(_) => !self.files().contains_key(name@) || self.can_fail(),
            },
    ;

    /// Opens the file for reading its decoded content.  Over damaged data
    /// the reader is not intact: it fails before it ends.
    fn open_decoder(&self, name: &str, format: CompressionFormat) -> (result: Result<
        Self::Reader,
        String,
    >)
        ensures
            match result {
                Ok(reader) => {
                    &&& self.files().contains_key(name@)
                    &&& reader.passed() == Seq::<u8>::empty()
                    &&& reader.can_fail() ==> self.can_fail()
                    &&& match decoded(format, self.files()[name@]) {
                        Some(content) => reader.remaining() == content && reader.intact(),
                        None => !reader.intact(),
                    }
                },
                Err(_) => !self.files().contains_key(name@) || self.can_fail() || decoded(
                    format,
                    self.files()[name@],
                ) is None,
            },
    ;

    /// Starts the system's own multi-threaded tool on the xz file `name`, with
    /// `threads` threads, and gives what the tool puts out as a reader.
    /// Whether there is such a tool, and whether it ends well, is for the
    /// system to say; what is known is that output which comes to its end
    /// without an error is what the tool puts out for the file.  Only a
    /// tool that is sound is sure to start on a file that it ends well on,
    /// and to put out all of it.
    fn open_external_xz(&self, name: &str, threads: usize) -> (result: Result<
        Self::Reader,
        String,
    >)
        ensures
            match result {
                Ok(reader) => {
                    &&& self.files().contains_key(name@)
                    &&& reader.passed() == Seq::<u8>::empty()
                    &&& reader.intact() ==> self.tool_output(name@) == Some(reader.remaining())
                    &&& self.has_sound_tool() ==> reader.intact() && !reader.can_fail()
                },
                Err(_) => !self.has_sound_tool() || !self.files().contains_key(name@)
                    || self.tool_output(name@) is None,
            },
    ;

    /// Creates the file empty, or empties it if it is there.
    fn create(&mut self, name: &str) -> (result: Result<(), String>)
        ensures
            final(self).can_fail() == old(self).can_fail(),
            final(self).has_sound_tool() == old(self).has_sound_tool(),
            final(self).used() == old(self).used(),
            match result {
                Ok(_) => final(self).files() == old(self).files().insert(
                    name@,
                    Seq::<u8>::empty(),
                ),
                Err(_) => old(self).can_fail() && same_except(
                    old(self).files(),
                    final(self).files(),
                    name@,
                ),
            },
    ;

    /// Writes `data` behind the end of the file.
    fn append(&mut self, name: &str, data: &[u8]) -> (result: Result<(), String>)
        ensures
            final(self).can_fail() == old(self).can_fail(),
            final(self).has_sound_tool() == old(self).has_sound_tool(),
            final(self).used() == old(self).used(),
            match result {
                Ok(_) => {
                    &&& old(self).files().contains_key(name@)
                    &&& final(self).files() == old(self).files().insert(
                        name@,
                        old(self).files()[name@] + data@,
                    )
                },
                Err(_) => {
                    &&& old(self).can_fail() || !old(self).files().contains_key(name@)
                    &&& same_except(old(self).files(), final(self).files(), name@)
                },
            },
    ;

    /// Removes the file and says whether it is gone.
    fn remove(&mut self, name: &str) -> (gone: bool)
        ensures
            final(self).can_fail() == old(self).can_fail(),
            final(self).has_sound_tool() == old(self).has_sound_tool(),
            final(self).used() == old(self).used(),
            final(self).files() == if gone {
                old(self).files().remove(name@)
            } else {
                old(self).files()
            },
            !gone ==> old(self).can_fail() || !old(self).files().contains_key(name@),
    ;

    /// Gives the file `from` the name `to`, replacing a file of that name.
    fn rename(&mut self, from: &str, to: &str) -> (result: Result<(), String>)
        ensures
            final(self).can_fail() == old(self).can_fail(),
            final(self).has_sound_tool() == old(self).has_sound_tool(),
            final(self).used() == old(self).used(),
            match result {
                Ok(_) => {
                    &&& old(self).files().contains_key(from@)
                    &&& final(self).files() == old(self).files().remove(from@).insert(
                        to@,
                        old(self).files()[from@],
                    )
                },
                Err(_) => {
                    &&& final(self).files() == old(self).files()
                    &&& old(self).can_fail() || !old(self).files().contains_key(from@)
                },
            },
    ;
}

/// One file of a [`MemoryStore`].
#[derive(Debug)]
pub struct StoredFile {
    pub name: String,
    pub data: Vec<u8>,
}

/// No two of the files have the same name.
pub open spec fn distinct_names(entries: Seq<StoredFile>) -> bool {
    forall|i: int, j: int|
        0 <= i < entries.len() && 0 <= j < entries.len() && i != j ==> entries[i].name@
            != entries[j].name@
}

/// Some file of `entries` is called `name`.
pub open spec fn has_name(entries: Seq<StoredFile>, name: Seq<char>) -> bool {
    exists|i: int| 0 <= i < entries.len() && entries[i].name@ == name
}

/// Content by name of the listed files.
pub open spec fn directory(entries: Seq<StoredFile>) -> Map<Seq<char>, Seq<u8>> {
    Map::new(
        |name: Seq<char>| has_name(entries, name),
        |name: Seq<char>|
            entries[choose|i: int| 0 <= i < entries.len() && entries[i].name@ == name].data@,
    )
}

/// The directory holds each listed file under its name.
pub proof fn lemma_directory_at(entries: Seq<StoredFile>, i: int)
    requires
        distinct_names(entries),
        0 <= i < entries.len(),
    ensures
        directory(entries).contains_key(entries[i].name@),
        directory(entries)[entries[i].name@] == entries[i].data@,
{
    let name = entries[i].name@;
    assert(has_name(entries, name));
    let k = choose|k: int| 0 <= k < entries.len() && entries[k].name@ == name;
    assert(k == i);
}

/// A directory held in memory.  None of its operations fails for a reason
/// other than a missing file.  Whether there is a system tool to decompress
/// with is settled when the directory is made; where there is one, it
/// stands for a tool that puts out what the library decodes.
#[derive(Debug)]
pub struct MemoryStore {
    entries: Vec<StoredFile>,
    system_tool: bool,
    used: Vec<String>,
}

impl MemoryStore {
    #[verifier::type_invariant]
    spec fn well_formed(self) -> bool {
        distinct_names(self.entries@)
    }

    /// The files of the directory, content by name.
    pub closed spec fn view(&self) -> Map<Seq<char>, Seq<u8>> {
        directory(self.entries@)
    }

    /// An empty directory on a system without a tool to decompress with.
    pub fn new() -> (store: MemoryStore)
        ensures
            store@ == Map::<Seq<char>, Seq<u8>>::empty(),
            store.files() == store@,
            !store.has_sound_tool(),
            store.used() == Seq::<Seq<char>>::empty(),
    {
        let store = MemoryStore { entries: Vec::new(), system_tool: false, used: Vec::new() };
        proof {
            assert(store.used() =~= Seq::<Seq<char>>::empty());
            assert(store@ =~= Map::<Seq<char>, Seq<u8>>::empty());
        }
        store
    }

    /// An empty directory on a system that has a tool to decompress with.
    pub fn with_system_tool() -> (store: MemoryStore)
        ensures
            store@ == Map::<Seq<char>, Seq<u8>>::empty(),
            store.files() == store@,
            store.has_sound_tool(),
            store.used() == Seq::<Seq<char>>::empty(),
    {
        let store = MemoryStore { entries: Vec::new(), system_tool: true, used: Vec::new() };
        proof {
            assert(store.used() =~= Seq::<Seq<char>>::empty());
            assert(store@ =~= Map::<Seq<char>, Seq<u8>>::empty());
        }
        store
    }

    /// Stores `data` under `name`, replacing what was there.
    pub fn put(&mut self, name: &str, data: Vec<u8>)
        ensures
            final(self).files() == old(self).files().insert(name@, data@),
            final(self).has_sound_tool() == old(self).has_sound_tool(),
            final(self).used() == old(self).used(),
    {
        proof {
            use_type_invariant(&*self);
        }
        let mut entries: Vec<StoredFile> = Vec::new();
        std::mem::swap(&mut self.entries, &mut entries);
        let ghost before = entries@;
        let file = StoredFile { name: name.to_owned(), data };
        match find_entry(&entries, name) {
            Some(i) => {
                entries.set(i, file);
                proof {
                    lemma_replace(before, i as int, file);
                }
            },
            None => {
                entries.push(file);
                proof {
                    lemma_add(before, file);
                }
            },
        }
        std::mem::swap(&mut self.entries, &mut entries);
    }

    /// The names of the files that were noted as used, first to last.
    pub fn uses(&self) -> (names: &Vec<String>)
        ensures
            names@.len() == self.used().len(),
            forall|i: int| 0 <= i < names@.len() ==> (#[trigger] names@[i])@ == self.used()[i],
    {
        &self.used
    }

    /// The content of the file, if it is there.
    pub fn get(&self, name: &str) -> (data: Option<Vec<u8>>)
        ensures
            match data {
                Some(bytes) => self.files().contains_key(name@) && bytes@ == self.files()[name@],
                None => !self.files().contains_key(name@),
            },
    {
        proof {
            use_type_invariant(self);
        }
        match find_entry(&self.entries, name) {
            Some(i) => {
                proof {
                    lemma_directory_at(self.entries@, i as int);
                }
                Some(copy_bytes(&self.entries[i].data))
            },
            None => None,
        }
    }
}

/// A copy of `bytes`.
pub fn copy_bytes(bytes: &Vec<u8>) -> (copy: Vec<u8>)
    ensures
        copy@ == bytes@,
{
    let mut copy: Vec<u8> = Vec::new();
    let mut i: usize = 0;
    while i < bytes.len()
        invariant
            0 <= i <= bytes.len(),
            copy@ == bytes@.take(i as int),
        decreases bytes.len() - i,
    {
        copy.push(bytes[i]);
        proof {
            assert(copy@ =~= bytes@.take(i + 1));
        }
        i += 1;
    }
    proof {
        assert(bytes@.take(bytes.len() as int) =~= bytes@);
    }
    copy
}

/// Position of the file called `name`.
fn find_entry(entries: &Vec<StoredFile>, name: &str) -> (at: Option<usize>)
    ensures
        match at {
            Some(i) => i < entries.len() && entries[i as int].name@ == name@,
            None => !has_name(entries@, name@),
        },
{
    let mut i: usize = 0;
    while i < entries.len()
        invariant
            0 <= i <= entries.len(),
            forall|j: int| 0 <= j < i ==> entries[j].name@ != name@,
        decreases entries.len() - i,
    {
        if same_text(entries[i].name.as_str(), name) {
            return Some(i);
        }
        i += 1;
    }
    None
}

/// Replacing a file by one of the same name replaces its content.
proof fn lemma_replace(entries: Seq<StoredFile>, i: int, file: StoredFile)
    requires
        distinct_names(entries),
        0 <= i < entries.len(),
        file.name@ == entries[i].name@,
    ensures
        distinct_names(entries.update(i, file)),
        directory(entries.update(i, file)) == directory(entries).insert(file.name@, file.data@),
{
    let after = entries.update(i, file);
    assert forall|a: int, b: int|
        0 <= a < after.len() && 0 <= b < after.len() && a != b implies after[a].name@
        != after[b].name@ by {
        assert(after[a].name@ == entries[a].name@);
        assert(after[b].name@ == entries[b].name@);
    }
    assert forall|name: Seq<char>| has_name(after, name) == has_name(entries, name) by {
        if has_name(after, name) {
            let k = choose|k: int| 0 <= k < after.len() && after[k].name@ == name;
            assert(entries[k].name@ == name);
        }
        if has_name(entries, name) {
            let k = choose|k: int| 0 <= k < entries.len() && entries[k].name@ == name;
            assert(after[k].name@ == name);
        }
    }
    assert forall|name: Seq<char>| has_name(after, name) implies directory(after)[name]
        == directory(entries).insert(file.name@, file.data@)[name] by {
        let k = choose|k: int| 0 <= k < after.len() && after[k].name@ == name;
        lemma_directory_at(after, k);
        if k != i {
            assert(after[k] == entries[k]);
            lemma_directory_at(entries, k);
        }
    }
    lemma_directory_at(entries, i);
    assert(directory(after) =~= directory(entries).insert(file.name@, file.data@));
}

/// Adding a file under a new name adds it to the directory.
proof fn lemma_add(entries: Seq<StoredFile>, file: StoredFile)
    requires
        distinct_names(entries),
        !has_name(entries, file.name@),
    ensures
        distinct_names(entries.push(file)),
        directory(entries.push(file)) == directory(entries).insert(file.name@, file.data@),
{
    let after = entries.push(file);
    assert forall|a: int, b: int|
        0 <= a < after.len() && 0 <= b < after.len() && a != b implies after[a].name@
        != after[b].name@ by {
        if a < entries.len() {
            assert(after[a] == entries[a]);
        }
        if b < entries.len() {
            assert(after[b] == entries[b]);
        }
    }
    assert forall|name: Seq<char>|
        has_name(after, name) == (has_name(entries, name) || name == file.name@) by {
        if has_name(after, name) {
            let k = choose|k: int| 0 <= k < after.len() && after[k].name@ == name;
            if k < entries.len() {
                assert(entries[k].name@ == name);
            }
        }
        if has_name(entries, name) {
            let k = choose|k: int| 0 <= k < entries.len() && entries[k].name@ == name;
            assert(after[k].name@ == name);
        }
        if name == file.name@ {
            assert(after[entries.len() as int].name@ == name);
        }
    }
    assert forall|name: Seq<char>| has_name(after, name) implies directory(after)[name]
        == directory(entries).insert(file.name@, file.data@)[name] by {
        let k = choose|k: int| 0 <= k < after.len() && after[k].name@ == name;
        lemma_directory_at(after, k);
        if k < entries.len() {
            assert(after[k] == entries[k]);
            lemma_directory_at(entries, k);
        }
    }
    assert(directory(after) =~= directory(entries).insert(file.name@, file.data@));
}

/// Taking a file out of the listing takes it out of the directory.
proof fn lemma_take_out(entries: Seq<StoredFile>, i: int)
    requires
        distinct_names(entries),
        0 <= i < entries.len(),
    ensures
        distinct_names(entries.remove(i)),
        directory(entries.remove(i)) == directory(entries).remove(entries[i].name@),
{
    let after = entries.remove(i);
    let gone = entries[i].name@;
    assert forall|a: int, b: int|
        0 <= a < after.len() && 0 <= b < after.len() && a != b implies after[a].name@
        != after[b].name@ by {
        let a0 = if a < i { a } else { a + 1 };
        let b0 = if b < i { b } else { b + 1 };
        assert(after[a] == entries[a0]);
        assert(after[b] == entries[b0]);
    }
    assert forall|name: Seq<char>|
        has_name(after, name) == (has_name(entries, name) && name != gone) by {
        if has_name(after, name) {
            let k = choose|k: int| 0 <= k < after.len() && after[k].name@ == name;
            let k0 = if k < i { k } else { k + 1 };
            assert(after[k] == entries[k0]);
            assert(entries[k0].name@ == name);
        }
        if has_name(entries, name) && name != gone {
            let k = choose|k: int| 0 <= k < entries.len() && entries[k].name@ == name;
            let k1 = if k < i { k } else { k - 1 };
            assert(after[k1] == entries[k]);
        }
    }
    assert forall|name: Seq<char>| has_name(after, name) implies directory(after)[name]
        == directory(entries)[name] by {
        let k = choose|k: int| 0 <= k < after.len() && after[k].name@ == name;
        let k0 = if k < i { k } else { k + 1 };
        assert(after[k] == entries[k0]);
        lemma_directory_at(after, k);
        lemma_directory_at(entries, k0);
    }
    assert(directory(after) =~= directory(entries).remove(gone));
}

impl ImageStore for MemoryStore {
    type Reader = MemoryReader;

    closed spec fn files(&self) -> Map<Seq<char>, Seq<u8>> {
        directory(self.entries@)
    }

    open spec fn can_fail(&self) -> bool {
        false
    }

    closed spec fn has_sound_tool(&self) -> bool {
        self.system_tool
    }

    open spec fn tool_output(&self, name: Seq<char>) -> Option<Seq<u8>> {
        if self.has_sound_tool() && self.files().contains_key(name) {
            xz_decoded(self.files()[name])
        } else {
            None
        }
    }

    closed spec fn used(&self) -> Seq<Seq<char>> {
        Seq::new(self.used@.len(), |i: int| self.used@[i]@)
    }

    fn contains(&self, name: &str) -> (found: bool) {
        find_entry(&self.entries, name).is_some()
    }

    fn size(&self, name: &str) -> (size: Option<u64>) {
        proof {
            use_type_invariant(self);
        }
        match find_entry(&self.entries, name) {
            Some(i) => {
                proof {
                    lemma_directory_at(self.entries@, i as int);
                }
                let n: usize = self.entries[i].data.len();
                if n as u128 <= u64::MAX as u128 {
                    Some(n as u64)
                } else {
                    None
                }
            },
            None => None,
        }
    }

    fn touch(&mut self, name: &str)
        ensures
            final(self).used() == if old(self).files().contains_key(name@) {
                old(self).used().push(name@)
            } else {
                old(self).used()
            },
    {
        proof {
            use_type_invariant(&*self);
        }
        if self.contains(name) {
            let mut used: Vec<String> = Vec::new();
            std::mem::swap(&mut self.used, &mut used);
            used.push(name.to_owned());
            std::mem::swap(&mut self.used, &mut used);
            proof {
                assert(self.used() =~= old(self).used().push(name@));
            }
        }
    }

    fn open(&self, name: &str) -> (result: Result<MemoryReader, String>) {
        proof {
            use_type_invariant(self);
        }
        match find_entry(&self.entries, name) {
            Some(i) => {
                proof {
                    lemma_directory_at(self.entries@, i as int);
                }
                Ok(MemoryReader::new(copy_bytes(&self.entries[i].data)))
            },
            None => Err("file not found".to_owned()),
        }
    }

    fn open_decoder(&self, name: &str, format: CompressionFormat) -> (result: Result<
        MemoryReader,
        String,
    >)
        ensures
            result is Ok <==> self.files().contains_key(name@) && decoded(
                format,
                self.files()[name@],
            ) is Some,
    {
        proof {
            use_type_invariant(self);
        }
        match find_entry(&self.entries, name) {
            Some(i) => {
                proof {
                    lemma_directory_at(self.entries@, i as int);
                }
                let input = self.entries[i].data.as_slice();
                let output = match format {
                    CompressionFormat::Xz => xz_decode(input),
                    CompressionFormat::Gz => gz_decode(input),
                    CompressionFormat::Bz2 => bz2_decode(input),
                    CompressionFormat::Zstd => zstd_decode(input),
                };
                match output {
                    Ok(content) => Ok(MemoryReader::new(content)),
                    Err(detail) => Err(detail),
                }
            },
            None => Err("file not found".to_owned()),
        }
    }

    fn open_external_xz(&self, name: &str, threads: usize) -> (result: Result<
        MemoryReader,
        String,
    >)
        ensures
            result is Ok <==> self.has_sound_tool() && self.files().contains_key(name@)
                && xz_decoded(self.files()[name@]) is Some,
    {
        if self.system_tool {
            self.open_decoder(name, CompressionFormat::Xz)
        } else {
            Err("xz command not found".to_owned())
        }
    }

    fn create(&mut self, name: &str) -> (result: Result<(), String>)
        ensures
            result is Ok,
    {
        self.put(name, Vec::new());
        Ok(())
    }

    fn append(&mut self, name: &str, data: &[u8]) -> (result: Result<(), String>)
        ensures
            result is Ok <==> old(self).files().contains_key(name@),
    {
        proof {
            use_type_invariant(&*self);
        }
        let mut entries: Vec<StoredFile> = Vec::new();
        std::mem::swap(&mut self.entries, &mut entries);
        let ghost before = entries@;
        let result = match find_entry(&entries, name) {
            Some(i) => {
                proof {
                    lemma_directory_at(before, i as int);
                }
                let old_file = entries.remove(i);
                let mut bytes = old_file.data;
                let mut k: usize = 0;
                while k < data.len()
                    invariant
                        0 <= k <= data.len(),
                        bytes@ == old_file.data@ + data@.take(k as int),
                    decreases data.len() - k,
                {
                    bytes.push(data[k]);
                    proof {
                        assert(bytes@ =~= old_file.data@ + data@.take(k + 1));
                    }
                    k += 1;
                }
                proof {
                    assert(data@.take(data@.len() as int) =~= data@);
                }
                let file = StoredFile { name: old_file.name, data: bytes };
                entries.insert(i, file);
                proof {
                    assert(entries@ =~= before.update(i as int, file));
                    lemma_replace(before, i as int, file);
                }
                Ok(())
            },
            None => Err("file not found".to_owned()),
        };
        std::mem::swap(&mut self.entries, &mut entries);
        result
    }

    fn remove(&mut self, name: &str) -> (gone: bool)
        ensures
            gone == old(self).files().contains_key(name@),
    {
        proof {
            use_type_invariant(&*self);
        }
        let mut entries: Vec<StoredFile> = Vec::new();
        std::mem::swap(&mut self.entries, &mut entries);
        let ghost before = entries@;
        let gone = match find_entry(&entries, name) {
            Some(i) => {
                entries.remove(i);
                proof {
                    lemma_take_out(before, i as int);
                }
                true
            },
            None => false,
        };
        std::mem::swap(&mut self.entries, &mut entries);
        gone
    }

    fn rename(&mut self, from: &str, to: &str) -> (result: Result<(), String>)
        ensures
            result is Ok <==> old(self).files().contains_key(from@),
    {
        proof {
            use_type_invariant(&*self);
        }
        let mut entries: Vec<StoredFile> = Vec::new();
        std::mem::swap(&mut self.entries, &mut entries);
        let ghost before = entries@;
        let result = match find_entry(&entries, from) {
            Some(i) => {
                proof {
                    lemma_directory_at(before, i as int);
                    lemma_take_out(before, i as int);
                }
                let moved = entries.remove(i);
                let ghost without = entries@;
                let file = StoredFile { name: to.to_owned(), data: moved.data };
                match find_entry(&entries, to) {
                    Some(j) => {
                        entries.set(j, file);
                        proof {
                            lemma_replace(without, j as int, file);
                        }
                    },
                    None => {
                        entries.push(file);
                        proof {
                            lemma_add(without, file);
                        }
                    },
                }
                Ok(())
            },
            None => Err("file not found".to_owned()),
        };
        std::mem::swap(&mut self.entries, &mut entries);
        result
    }
}

} // verus!
