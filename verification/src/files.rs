//! The registry of files.
//!
//! One record per stored file and an index from names to identifiers. The two
//! are kept in step: every record's name is in the index and points back to
//! the record, and every name of the index belongs to a record. No two files
//! bear the same name.

use crate::fileid::fileid_text;
use crate::fileid::fileid_to_string;
use crate::fileid::new_fileid;
use crate::fileid::parse_fileid;
use crate::fileid::parsed_fileid;
use crate::fileid::RANDOM_VERSION;
use crate::fileid::VERSION_MASK;
use crate::storage::Ring;
use crate::storage::BUCKET_SIZE;
use crate::storage::DUPLICATE;
use crate::storage::Storage;
use std::collections::HashMap;
use vstd::hash_map::StringHashMap;
use vstd::prelude::*;
use vstd::std_specs::hash::spec_hash_map_iter;
use vstd::std_specs::iter::IteratorSpec;

verus! {

/// The largest upload that is accepted, in bytes.
pub const MAXIMUM_FILE_SIZE: usize = 1024 * 1024 * 1024;

/// One of the two content types that are accepted.
pub const MP4: &'static str = "video/mp4";

/// The other content type that is accepted.
pub const MPEG: &'static str = "video/mpeg";

/// Where the location of an uploaded file begins; its identifier follows.
pub const LOCATION: &'static str = "./storage/";

/// The record of a stored file.
#[derive(Debug)]
pub struct File {
    pub content_type: String,
    pub name: String,
    pub size: usize,
    pub created_at: String,
    pub download_cnt: u64,
}

/// A record as a mathematical value.
pub struct FileView {
    pub content_type: Seq<char>,
    pub name: Seq<char>,
    pub size: nat,
    pub created_at: Seq<char>,
    pub download_cnt: nat,
}

impl View for File {
    type V = FileView;

    open spec fn view(&self) -> FileView {
        FileView {
            content_type: self.content_type@,
            name: self.name@,
            size: self.size as nat,
            created_at: self.created_at@,
            download_cnt: self.download_cnt as nat,
        }
    }
}

impl FileView {
    /// The record of a file that was just uploaded: nobody has downloaded it
    /// yet.
    pub open spec fn fresh(
        name: Seq<char>,
        content_type: Seq<char>,
        size: nat,
        created_at: Seq<char>,
    ) -> FileView {
        FileView { content_type, name, size, created_at, download_cnt: 0 }
    }

    /// The record after one more download. The counter stops at the largest
    /// value that it can hold.
    pub open spec fn downloaded(self) -> FileView {
        FileView {
            download_cnt: if self.download_cnt < u64::MAX {
                self.download_cnt + 1
            } else {
                self.download_cnt
            },
            ..self
        }
    }
}

/// What a listing shows of a file.
#[derive(Debug)]
pub struct UploadedFile {
    pub fileid: String,
    /// filename
    pub name: String,
    /// file size(bytes)
    pub size: usize,
    /// Time when the data was saved on the server side
    pub created_at: String,
}

/// `entry` is what a listing shows of the file `id` with the record `file`.
pub open spec fn lists(id: u128, file: FileView, entry: UploadedFile) -> bool {
    &&& entry.fileid@ == fileid_text(id)
    &&& parsed_fileid(entry.fileid@) == Some(id)
    &&& entry.name@ == file.name
    &&& entry.size == file.size
    &&& entry.created_at@ == file.created_at
}

/// Why an upload is refused.
#[derive(Clone, Copy, Debug, PartialEq, Eq, Structural)]
pub enum UploadErrorResponse {
    /// A file of that name is registered already.
    FileExists,
    /// The content type is not one of those that are accepted.
    UnsupportedMediaType,
    /// The upload bears no file name, or its identifier is taken.
    InternalError,
}

/// Why a download is refused.
#[derive(Clone, Copy, Debug, PartialEq, Eq, Structural)]
pub enum DownloadErrorResponse {
    /// No such file, or none of its replicas can be read.
    NotFound,
    /// The record bears a content type that is not one of those accepted.
    InternalError,
}

/// Why a deletion is refused.
#[derive(Clone, Copy, Debug, PartialEq, Eq, Structural)]
pub enum DeleteErrorResponse {
    /// No such file.
    NotFound,
}

/// Whether a content type is one of those that are accepted.
pub open spec fn is_supported(content_type: Seq<char>) -> bool {
    content_type == MP4@ || content_type == MPEG@
}

/// The location that is reported for an uploaded file.
pub open spec fn location_text(id: u128) -> Seq<char> {
    LOCATION@ + fileid_text(id)
}

/// The text that an optional string holds.
pub open spec fn text_of(s: Option<&str>) -> Option<Seq<char>> {
    match s {
        Some(s) => Some(s@),
        None => None,
    }
}

/// The registry as a mathematical value: the records by identifier, and the
/// identifiers by name.
pub struct Registry {
    pub files: Map<u128, FileView>,
    pub name: Map<Seq<char>, u128>,
}

impl Registry {
    /// The registry of a store that holds nothing.
    pub open spec fn empty() -> Registry {
        Registry { files: Map::empty(), name: Map::empty() }
    }

    /// Records and index are in step, and every record bears an accepted
    /// content type.
    pub open spec fn wf(self) -> bool {
        &&& forall|id: u128| #[trigger]
            self.files.contains_key(id) ==> self.name.contains_key(self.files[id].name)
                && self.name[self.files[id].name] == id
        &&& forall|name: Seq<char>| #[trigger]
            self.name.contains_key(name) ==> self.files.contains_key(self.name[name])
                && self.files[self.name[name]].name == name
        &&& forall|id: u128| #[trigger]
            self.files.contains_key(id) ==> is_supported(self.files[id].content_type)
    }

    /// The registry with one more file.
    pub open spec fn register(self, id: u128, file: FileView) -> Registry {
        Registry { files: self.files.insert(id, file), name: self.name.insert(file.name, id) }
    }

    /// The registry without the file `id`: its record and its name leave
    /// together.
    pub open spec fn remove(self, id: u128) -> Registry {
        Registry {
            files: self.files.remove(id),
            name: self.name.remove(self.files[id].name),
        }
    }

    /// The registry after one more download of the file `id`.
    pub open spec fn record_download(self, id: u128) -> Registry {
        Registry { files: self.files.insert(id, self.files[id].downloaded()), name: self.name }
    }

    /// `listing` shows the files of the registry, each of them once: its
    /// `i`-th entry is that of the file `ids[i]`.
    pub open spec fn is_listing(self, ids: Seq<u128>, listing: Seq<UploadedFile>) -> bool {
        &&& ids.no_duplicates()
        &&& ids.to_set() == self.files.dom()
        &&& listing.len() == ids.len()
        &&& forall|i: int|
            0 <= i < ids.len() ==> lists(ids[i], self.files[ids[i]], #[trigger] listing[i])
    }

    /// What the first look at an upload finds wrong with it, before its bytes
    /// are stored: no file name, a content type that is missing or not
    /// accepted, a name that is taken, in this order. The request is
    /// validated first, and only a valid one is held against the registry.
    pub open spec fn upload_verdict(
        self,
        filename: Option<Seq<char>>,
        content_type: Option<Seq<char>>,
    ) -> Option<UploadErrorResponse> {
        match filename {
            None => Some(UploadErrorResponse::InternalError),
            Some(name) => match content_type {
                None => Some(UploadErrorResponse::UnsupportedMediaType),
                Some(content_type) => if !is_supported(content_type) {
                    Some(UploadErrorResponse::UnsupportedMediaType)
                } else if self.name.contains_key(name) {
                    Some(UploadErrorResponse::FileExists)
                } else {
                    None
                },
            },
        }
    }

    /// What the second look finds wrong, when the record is about to be
    /// inserted: a content type that is not accepted, a name that is taken,
    /// an identifier that is taken, in this order.
    pub open spec fn register_verdict(
        self,
        id: u128,
        name: Seq<char>,
        content_type: Seq<char>,
    ) -> Option<UploadErrorResponse> {
        if !is_supported(content_type) {
            Some(UploadErrorResponse::UnsupportedMediaType)
        } else if self.name.contains_key(name) {
            Some(UploadErrorResponse::FileExists)
        } else if self.files.contains_key(id) {
            Some(UploadErrorResponse::InternalError)
        } else {
            None
        }
    }
}

/// One operation on the registry.
pub enum Operation {
    /// The registration of a file under an identifier.
    Register { id: u128, file: FileView },
    /// The removal of a file.
    Remove { id: u128 },
    /// One more download of a file.
    Download { id: u128 },
}

impl Registry {
    /// The registry after an attempt to register a file: with the file where
    /// it is accepted, unchanged where it is refused.
    pub open spec fn try_register(self, id: u128, file: FileView) -> Registry {
        if self.register_verdict(id, file.name, file.content_type) is None {
            self.register(id, file)
        } else {
            self
        }
    }

    /// The registry after an attempt to remove a file: unchanged where there
    /// is no such file.
    pub open spec fn try_remove(self, id: u128) -> Registry {
        if self.files.contains_key(id) {
            self.remove(id)
        } else {
            self
        }
    }

    /// The registry after an attempt to count a download: unchanged where
    /// there is no such file.
    pub open spec fn try_record_download(self, id: u128) -> Registry {
        if self.files.contains_key(id) {
            self.record_download(id)
        } else {
            self
        }
    }

    /// The registry after one operation.
    pub open spec fn apply(self, operation: Operation) -> Registry {
        match operation {
            Operation::Register { id, file } => self.try_register(id, file),
            Operation::Remove { id } => self.try_remove(id),
            Operation::Download { id } => self.try_record_download(id),
        }
    }

    /// The registry after a sequence of operations.
    pub open spec fn apply_all(self, operations: Seq<Operation>) -> Registry
        decreases operations.len(),
    {
        if operations.len() == 0 {
            self
        } else {
            self.apply_all(operations.drop_last()).apply(operations.last())
        }
    }

    /// The registry after the first `n` of a sequence of attempts to register
    /// a file.
    pub open spec fn after_attempts(self, attempts: Seq<(u128, FileView)>, n: nat) -> Registry
        decreases n,
    {
        if n == 0 {
            self
        } else {
            let before = self.after_attempts(attempts, (n - 1) as nat);
            before.try_register(attempts[n - 1].0, attempts[n - 1].1)
        }
    }

    /// What the `k`-th of a sequence of attempts to register a file is
    /// answered, `None` standing for success.
    pub open spec fn attempt_verdict(self, attempts: Seq<(u128, FileView)>, k: nat) -> Option<
        UploadErrorResponse,
    > {
        self.after_attempts(attempts, k).register_verdict(
            attempts[k as int].0,
            attempts[k as int].1.name,
            attempts[k as int].1.content_type,
        )
    }

    /// Consistency: one operation keeps a well-formed registry well formed.
    pub proof fn apply_keeps_wf(self, operation: Operation)
        requires
            self.wf(),
        ensures
            self.apply(operation).wf(),
    {
        let after = self.apply(operation);
        match operation {
            Operation::Register { id, file } => {
                if self.register_verdict(id, file.name, file.content_type) is None {
                    assert forall|other: u128| #[trigger]
                        after.files.contains_key(other) implies after.name.contains_key(
                        after.files[other].name,
                    ) && after.name[after.files[other].name] == other by {
                        if other != id {
                            assert(self.files.contains_key(other));
                        }
                    }
                    assert forall|name: Seq<char>| #[trigger]
                        after.name.contains_key(name) implies after.files.contains_key(
                        after.name[name],
                    ) && after.files[after.name[name]].name == name by {
                        if name != file.name {
                            assert(self.name.contains_key(name));
                        }
                    }
                    assert forall|other: u128| #[trigger]
                        after.files.contains_key(other) implies is_supported(
                        after.files[other].content_type,
                    ) by {
                        if other != id {
                            assert(self.files.contains_key(other));
                        }
                    }
                }
            },
            Operation::Remove { id } => {
                if self.files.contains_key(id) {
                    assert forall|other: u128| #[trigger]
                        after.files.contains_key(other) implies after.name.contains_key(
                        after.files[other].name,
                    ) && after.name[after.files[other].name] == other by {
                        assert(self.files.contains_key(other));
                        assert(self.files.contains_key(id));
                    }
                    assert forall|name: Seq<char>| #[trigger]
                        after.name.contains_key(name) implies after.files.contains_key(
                        after.name[name],
                    ) && after.files[after.name[name]].name == name by {
                        assert(self.name.contains_key(name));
                    }
                    assert forall|other: u128| #[trigger]
                        after.files.contains_key(other) implies is_supported(
                        after.files[other].content_type,
                    ) by {
                        assert(self.files.contains_key(other));
                    }
                }
            },
            Operation::Download { id } => {
                if self.files.contains_key(id) {
                    assert forall|other: u128| #[trigger]
                        after.files.contains_key(other) implies after.name.contains_key(
                        after.files[other].name,
                    ) && after.name[after.files[other].name] == other by {
                        assert(self.files.contains_key(other));
                    }
                    assert forall|name: Seq<char>| #[trigger]
                        after.name.contains_key(name) implies after.files.contains_key(
                        after.name[name],
                    ) && after.files[after.name[name]].name == name by {
                        assert(self.name.contains_key(name));
                    }
                    assert forall|other: u128| #[trigger]
                        after.files.contains_key(other) implies is_supported(
                        after.files[other].content_type,
                    ) by {
                        assert(self.files.contains_key(other));
                    }
                }
            },
        }
    }

    /// Consistency: after any sequence of operations on an empty registry,
    /// every record has its name in the index, pointing back to it, and every
    /// name of the index belongs to a record.
    pub proof fn always_wf(operations: Seq<Operation>)
        ensures
            Registry::empty().apply_all(operations).wf(),
        decreases operations.len(),
    {
        if operations.len() > 0 {
            Registry::always_wf(operations.drop_last());
            Registry::empty().apply_all(operations.drop_last()).apply_keeps_wf(operations.last());
        }
    }

    /// In a well-formed registry no two files bear the same name.
    pub proof fn names_are_unique(self, id: u128, other: u128)
        requires
            self.wf(),
            self.files.contains_key(id),
            self.files.contains_key(other),
            self.files[id].name == self.files[other].name,
        ensures
            id == other,
    {
    }

    /// Uniqueness: of any number of attempts to register a file under one
    /// name that is free, with accepted content types and identifiers that
    /// are free, the first succeeds and every other is refused with
    /// `FileExists`, in whatever order the attempts come to be served.
    pub proof fn one_name_registers_once(self, attempts: Seq<(u128, FileView)>, k: nat)
        requires
            self.wf(),
            k < attempts.len(),
            !self.name.contains_key(attempts[0].1.name),
            forall|i: int|
                0 <= i < attempts.len() ==> (#[trigger] attempts[i]).1.name == attempts[0].1.name,
            forall|i: int|
                0 <= i < attempts.len() ==> is_supported((#[trigger] attempts[i]).1.content_type),
            forall|i: int|
                0 <= i < attempts.len() ==> !self.files.contains_key((#[trigger] attempts[i]).0),
        ensures
            k == 0 ==> self.attempt_verdict(attempts, k) is None,
            k > 0 ==> self.attempt_verdict(attempts, k) == Some(UploadErrorResponse::FileExists),
            k > 0 ==> self.after_attempts(attempts, k) == self.register(
                attempts[0].0,
                attempts[0].1,
            ),
        decreases k,
    {
        if k == 0 {
            assert(attempts[0].1.name == attempts[0].1.name);
        } else if k == 1 {
            assert(self.after_attempts(attempts, 0) == self);
            assert(self.after_attempts(attempts, 1) == self.try_register(
                attempts[0].0,
                attempts[0].1,
            ));
        } else {
            self.one_name_registers_once(attempts, (k - 1) as nat);
        }
    }

    /// The download count of a file never goes down: whatever operation is
    /// applied, a file that is there before and after it has been downloaded
    /// at least as often after it as before.
    pub proof fn downloads_never_decrease(self, operation: Operation, id: u128)
        requires
            self.files.contains_key(id),
            self.apply(operation).files.contains_key(id),
        ensures
            self.files[id].download_cnt <= self.apply(operation).files[id].download_cnt,
    {
    }

    /// Attempts to register keep a well-formed registry well formed.
    pub proof fn attempts_keep_wf(self, attempts: Seq<(u128, FileView)>, n: nat)
        requires
            self.wf(),
        ensures
            self.after_attempts(attempts, n).wf(),
        decreases n,
    {
        if n > 0 {
            self.attempts_keep_wf(attempts, (n - 1) as nat);
            self.after_attempts(attempts, (n - 1) as nat).apply_keeps_wf(
                Operation::Register { id: attempts[n - 1].0, file: attempts[n - 1].1 },
            );
        }
    }

    /// A file that an attempt has registered is there after every later
    /// attempt, under its name and its identifier, and it is the only file
    /// of that name.
    pub proof fn registered_file_stays(self, attempts: Seq<(u128, FileView)>, i: nat, n: nat)
        requires
            self.wf(),
            i < n,
            i < attempts.len(),
            self.attempt_verdict(attempts, i) is None,
        ensures
            self.after_attempts(attempts, n).wf(),
            self.after_attempts(attempts, n).name.contains_key(attempts[i as int].1.name),
            self.after_attempts(attempts, n).name[attempts[i as int].1.name]
                == attempts[i as int].0,
            self.after_attempts(attempts, n).files.contains_key(attempts[i as int].0),
            forall|other: u128| #[trigger]
                self.after_attempts(attempts, n).files.contains_key(other) && self.after_attempts(
                    attempts,
                    n,
                ).files[other].name == attempts[i as int].1.name ==> other
                    == attempts[i as int].0,
        decreases n,
    {
        let after = self.after_attempts(attempts, n);
        self.attempts_keep_wf(attempts, n);
        if n == i + 1 {
            let before = self.after_attempts(attempts, i);
            assert(after == before.register(attempts[i as int].0, attempts[i as int].1));
        } else {
            self.registered_file_stays(attempts, i, (n - 1) as nat);
        }
        assert(after.name.contains_key(attempts[i as int].1.name));
        assert(after.files.contains_key(after.name[attempts[i as int].1.name]));
    }

    /// Uniqueness, whatever identifiers are drawn: once an attempt to
    /// register a file has succeeded, every later attempt under the same
    /// name with an accepted content type is refused with `FileExists` and
    /// leaves the registry as it was. So of any number of uploads of one
    /// name at most one succeeds, and the name then points to the identifier
    /// of that one.
    pub proof fn one_name_registers_at_most_once(
        self,
        attempts: Seq<(u128, FileView)>,
        i: nat,
        j: nat,
    )
        requires
            self.wf(),
            i < j < attempts.len(),
            attempts[j as int].1.name == attempts[i as int].1.name,
            is_supported(attempts[j as int].1.content_type),
            self.attempt_verdict(attempts, i) is None,
        ensures
            self.attempt_verdict(attempts, j) == Some(UploadErrorResponse::FileExists),
            self.after_attempts(attempts, j + 1) == self.after_attempts(attempts, j),
            self.after_attempts(attempts, j + 1).name[attempts[i as int].1.name]
                == attempts[i as int].0,
    {
        self.registered_file_stays(attempts, i, j);
        assert(self.after_attempts(attempts, j + 1) == self.after_attempts(
            attempts,
            j,
        ).try_register(attempts[j as int].0, attempts[j as int].1));
    }

    /// Idempotent delete: once a file has been removed, removing it again
    /// finds no such file and changes nothing.
    pub proof fn remove_is_idempotent(self, id: u128)
        ensures
            !self.try_remove(id).files.contains_key(id),
            self.try_remove(id).try_remove(id) == self.try_remove(id),
    {
    }
}

/// Whether a content type is one of those that are accepted.
pub fn supported(content_type: &str) -> (yes: bool)
    ensures
        yes == is_supported(content_type@),
{
    let given = String::from_str(content_type);
    given == String::from_str(MP4) || given == String::from_str(MPEG)
}

/// What a download needs from the registry: whose bytes to read, and the
/// name and the content type under which to hand them out.
#[derive(Debug)]
pub struct Download {
    pub id: u128,
    pub filename: String,
    pub content_type: String,
}

/// The bytes of a file, to be handed out under its name.
#[derive(Debug)]
pub struct Attachment {
    pub filename: String,
    pub data: Vec<u8>,
}

/// A download that succeeded, by content type.
#[derive(Debug)]
pub enum DownloadOkResponse {
    /// An `video/mp4` file.
    MP4(Attachment),
    /// An `video/mpeg` file.
    Mpeg(Attachment),
}

impl Download {
    /// Hands out the bytes that were read for this download, as the content
    /// type of the file asks. A content type that is not accepted gives
    /// `InternalError`.
    pub fn respond(self, data: Vec<u8>) -> (response: Result<
        DownloadOkResponse,
        DownloadErrorResponse,
    >)
        ensures
            self.content_type@ == MP4@ ==> {
                &&& response matches Ok(DownloadOkResponse::MP4(attachment))
                &&& attachment.filename@ == self.filename@
                &&& attachment.data@ == data@
            },
            self.content_type@ != MP4@ && self.content_type@ == MPEG@ ==> {
                &&& response matches Ok(DownloadOkResponse::Mpeg(attachment))
                &&& attachment.filename@ == self.filename@
                &&& attachment.data@ == data@
            },
            !is_supported(self.content_type@) ==> response == Err::<
                DownloadOkResponse,
                DownloadErrorResponse,
            >(DownloadErrorResponse::InternalError),
    {
        if self.content_type == String::from_str(MP4) {
            Ok(DownloadOkResponse::MP4(Attachment { filename: self.filename, data }))
        } else if self.content_type == String::from_str(MPEG) {
            Ok(DownloadOkResponse::Mpeg(Attachment { filename: self.filename, data }))
        } else {
            Err(DownloadErrorResponse::InternalError)
        }
    }
}

/// What a listing shows of the file `id` with the record `file`.
pub fn entry_of(id: u128, file: &File) -> (entry: UploadedFile)
    ensures
        lists(id, file@, entry),
{
    UploadedFile {
        fileid: fileid_to_string(id),
        name: file.name.clone(),
        size: file.size,
        created_at: file.created_at.clone(),
    }
}

/// The registry of a store, with the placement ring of its bytes.
pub struct Resource {
    pub(crate) files: HashMap<u128, File>,
    pub(crate) name: StringHashMap<u128>,
    pub(crate) storage: Storage,
}

impl View for Resource {
    type V = Registry;

    closed spec fn view(&self) -> Registry {
        Registry {
            files: Map::new(|id: u128| self.files@.contains_key(id), |id: u128| self.files@[id]@),
            name: self.name@,
        }
    }
}

impl Resource {
    /// The registry and the ring are well formed.
    pub closed spec fn wf(&self) -> bool {
        &&& self@.wf()
        &&& self.storage.wf()
    }

    /// The placement ring.
    pub closed spec fn ring(&self) -> Ring {
        self.storage@
    }

    /// A well-formed store has a well-formed registry and a well-formed
    /// ring.
    pub proof fn wf_means(&self)
        requires
            self.wf(),
        ensures
            self@.wf(),
            self.ring().wf(),
    {
        self.storage.wf_means();
    }

    /// What the view holds, for the rest of the crate: the records of the
    /// map, each by its own view.
    pub(crate) proof fn view_unfolds(&self)
        ensures
            forall|id: u128| self@.files.contains_key(id) <==> self.files@.contains_key(id),
            forall|id: u128|
                self.files@.contains_key(id) ==> (#[trigger] self@.files[id]) == self.files@[id]@,
            self@.name == self.name@,
    {
    }

    /// A registry that holds nothing, over the default ring.
    pub fn new() -> (made: Resource)
        ensures
            made.wf(),
            made@ == Registry::empty(),
            made.ring() == Ring::even(BUCKET_SIZE as nat, DUPLICATE as nat),
    {
        let made = Resource {
            files: HashMap::new(),
            name: StringHashMap::new(),
            storage: Storage::new(),
        };
        proof {
            assert(made@.files =~= Map::<u128, FileView>::empty());
        }
        made
    }

    /// The placement ring.
    pub fn storage(&self) -> (storage: &Storage)
        requires
            self.wf(),
        ensures
            storage.wf(),
            storage@ == self.ring(),
    {
        &self.storage
    }

    /// The first look at an upload, before its bytes are read and stored.
    ///
    /// It spares the work for an upload that is bound to fail; the name is
    /// looked up again by `register`, and only that second look counts.
    pub fn check_upload(&self, filename: Option<&str>, content_type: Option<&str>) -> (checked:
        Result<(), UploadErrorResponse>)
        requires
            self.wf(),
        ensures
            checked == match self@.upload_verdict(text_of(filename), text_of(content_type)) {
                Some(refusal) => Err::<(), UploadErrorResponse>(refusal),
                None => Ok::<(), UploadErrorResponse>(()),
            },
    {
        let name = match filename {
            Some(name) => name,
            None => {
                return Err(UploadErrorResponse::InternalError);
            },
        };
        let accepted = match content_type {
            Some(content_type) => supported(content_type),
            None => false,
        };
        if !accepted {
            return Err(UploadErrorResponse::UnsupportedMediaType);
        }
        if self.name.contains_key(name) {
            return Err(UploadErrorResponse::FileExists);
        }
        Ok(())
    }

    /// Admits an upload and draws the identifier under which its bytes are to
    /// be stored.
    ///
    /// The upload is refused exactly where `check_upload` refuses it. The
    /// identifier is random; `register` takes it, once the bytes are stored.
    pub fn upload(&self, filename: Option<&str>, content_type: Option<&str>) -> (admitted: Result<
        u128,
        UploadErrorResponse,
    >)
        requires
            self.wf(),
        ensures
            match self@.upload_verdict(text_of(filename), text_of(content_type)) {
                Some(refusal) => admitted == Err::<u128, UploadErrorResponse>(refusal),
                None => admitted is Ok && (admitted->Ok_0 & VERSION_MASK) == RANDOM_VERSION,
            },
    {
        match self.check_upload(filename, content_type) {
            Ok(()) => Ok(new_fileid()),
            Err(refusal) => Err(refusal),
        }
    }

    /// Registers a file whose bytes have been stored under `id`, and reports
    /// its location.
    ///
    /// This is the second look at the name, and the one that counts: the file
    /// is refused with `FileExists` when the name has been taken, also when
    /// it was free at the first look. Before that it is refused when the
    /// content type is not accepted, and after that when the identifier is
    /// taken. A refusal leaves the registry as it was.
    pub fn register(
        &mut self,
        id: u128,
        filename: String,
        content_type: String,
        size: usize,
        created_at: String,
    ) -> (registered: Result<String, UploadErrorResponse>)
        requires
            old(self).wf(),
        ensures
            final(self).wf(),
            final(self).ring() == old(self).ring(),
            match old(self)@.register_verdict(id, filename@, content_type@) {
                Some(refusal) => registered == Err::<String, UploadErrorResponse>(refusal),
                None => registered is Ok && registered->Ok_0@ == location_text(id),
            },
            final(self)@ == old(self)@.try_register(
                id,
                FileView::fresh(filename@, content_type@, size as nat, created_at@),
            ),
    {
        if !supported(content_type.as_str()) {
            return Err(UploadErrorResponse::UnsupportedMediaType);
        }
        if self.name.contains_key(filename.as_str()) {
            return Err(UploadErrorResponse::FileExists);
        }
        if self.files.contains_key(&id) {
            return Err(UploadErrorResponse::InternalError);
        }
        let ghost before = self@;
        let ghost file = FileView::fresh(filename@, content_type@, size as nat, created_at@);
        self.name.insert(filename.clone(), id);
        self.files.insert(
            id,
            File { name: filename, size, content_type, created_at, download_cnt: 0 },
        );
        proof {
            assert(self@.files =~= before.files.insert(id, file));
        }
        let location = String::from_str(LOCATION).concat(fileid_to_string(id).as_str());
        Ok(location)
    }

    /// The record of the file `id`, if there is such a file.
    pub fn get(&self, id: u128) -> (found: Option<&File>)
        requires
            self.wf(),
        ensures
            match found {
                Some(file) => self@.files.contains_key(id) && file@ == self@.files[id],
                None => !self@.files.contains_key(id),
            },
    {
        self.files.get(&id)
    }

    /// What a download of the file `id` needs from the registry.
    pub fn lookup(&self, id: u128) -> (found: Result<Download, DownloadErrorResponse>)
        requires
            self.wf(),
        ensures
            match found {
                Ok(download) => {
                    &&& self@.files.contains_key(id)
                    &&& download.id == id
                    &&& download.filename@ == self@.files[id].name
                    &&& download.content_type@ == self@.files[id].content_type
                    &&& is_supported(download.content_type@)
                },
                Err(refusal) => {
                    &&& !self@.files.contains_key(id)
                    &&& refusal == DownloadErrorResponse::NotFound
                },
            },
    {
        match self.files.get(&id) {
            Some(file) => Ok(
                Download { id, filename: file.name.clone(), content_type: file.content_type.clone() },
            ),
            None => Err(DownloadErrorResponse::NotFound),
        }
    }

    /// What a download needs from the registry, for a file that is named by
    /// the text of its identifier. A text that is no identifier names no
    /// file.
    pub fn download(&self, fileid: &str) -> (found: Result<Download, DownloadErrorResponse>)
        requires
            self.wf(),
        ensures
            match found {
                Ok(download) => {
                    &&& parsed_fileid(fileid@) == Some(download.id)
                    &&& self@.files.contains_key(download.id)
                    &&& download.filename@ == self@.files[download.id].name
                    &&& download.content_type@ == self@.files[download.id].content_type
                    &&& is_supported(download.content_type@)
                },
                Err(refusal) => {
                    &&& refusal == DownloadErrorResponse::NotFound
                    &&& match parsed_fileid(fileid@) {
                        Some(id) => !self@.files.contains_key(id),
                        None => true,
                    }
                },
            },
    {
        match parse_fileid(fileid) {
            Some(id) => self.lookup(id),
            None => Err(DownloadErrorResponse::NotFound),
        }
    }

    /// Counts one more download of the file `id`. Where the file is gone,
    /// nothing happens.
    pub fn record_download(&mut self, id: u128)
        requires
            old(self).wf(),
        ensures
            final(self).wf(),
            final(self).ring() == old(self).ring(),
            final(self)@ == old(self)@.try_record_download(id),
    {
        let ghost before = self@;
        let counted = match self.files.get(&id) {
            Some(file) => File {
                content_type: file.content_type.clone(),
                name: file.name.clone(),
                size: file.size,
                created_at: file.created_at.clone(),
                download_cnt: if file.download_cnt < u64::MAX {
                    file.download_cnt + 1
                } else {
                    file.download_cnt
                },
            },
            None => {
                return ;
            },
        };
        self.files.insert(id, counted);
        proof {
            assert(self@.files =~= before.files.insert(id, before.files[id].downloaded()));
        }
    }

    /// Removes the file `id` from the registry: its record and its name
    /// leave together. `NotFound` where there is no such file.
    pub fn remove(&mut self, id: u128) -> (removed: Result<(), DeleteErrorResponse>)
        requires
            old(self).wf(),
        ensures
            final(self).wf(),
            final(self).ring() == old(self).ring(),
            removed == if old(self)@.files.contains_key(id) {
                Ok::<(), DeleteErrorResponse>(())
            } else {
                Err::<(), DeleteErrorResponse>(DeleteErrorResponse::NotFound)
            },
            final(self)@ == old(self)@.try_remove(id),
            !final(self)@.files.contains_key(id),
    {
        let ghost before = self@;
        match self.files.remove(&id) {
            Some(file) => {
                self.name.remove(file.name.as_str());
                proof {
                    assert(self@.files =~= before.files.remove(id));
                    before.apply_keeps_wf(Operation::Remove { id });
                }
                Ok(())
            },
            None => {
                proof {
                    assert(self@.files =~= before.files);
                }
                Err(DeleteErrorResponse::NotFound)
            },
        }
    }

    /// Removes from the registry the file that is named by the text of its
    /// identifier, and gives the identifier, whose replicas are then to be
    /// deleted. A text that is no identifier names no file.
    pub fn delete(&mut self, fileid: &str) -> (removed: Result<u128, DeleteErrorResponse>)
        requires
            old(self).wf(),
        ensures
            final(self).wf(),
            final(self).ring() == old(self).ring(),
            match removed {
                Ok(id) => {
                    &&& parsed_fileid(fileid@) == Some(id)
                    &&& old(self)@.files.contains_key(id)
                    &&& final(self)@ == old(self)@.remove(id)
                },
                Err(refusal) => {
                    &&& refusal == DeleteErrorResponse::NotFound
                    &&& final(self)@ == old(self)@
                    &&& match parsed_fileid(fileid@) {
                        Some(id) => !old(self)@.files.contains_key(id),
                        None => true,
                    }
                },
            },
    {
        match parse_fileid(fileid) {
            Some(id) => match self.remove(id) {
                Ok(()) => Ok(id),
                Err(refusal) => Err(refusal),
            },
            None => Err(DeleteErrorResponse::NotFound),
        }
    }

    /// Number of files.
    pub fn len(&self) -> (n: usize)
        requires
            self.wf(),
        ensures
            n == self@.files.len(),
    {
        proof {
            assert(self@.files.dom() =~= self.files@.dom());
        }
        self.files.len()
    }
    /// The files of the registry, each of them once, in no particular order.
    pub fn list(&self) -> (listing: Vec<UploadedFile>)
        requires
            self.wf(),
        ensures
            listing@.len() == self@.files.len(),
            exists|ids: Seq<u128>| self@.is_listing(ids, listing@),
    {
        let mut listing: Vec<UploadedFile> = Vec::new();
        let ghost mut ids: Seq<u128> = Seq::empty();
        for (id, file) in walk: self.files.iter()
            invariant
                walk.seq() == spec_hash_map_iter(&self.files).remaining(),
                walk.seq().no_duplicates(),
                listing@.len() == walk.index(),
                ids.len() == walk.index(),
                forall|i: int| 0 <= i < ids.len() ==> ids[i] == *(#[trigger] walk.seq()[i]).0,
                forall|i: int|
                    0 <= i < ids.len() ==> lists(
                        *walk.seq()[i].0,
                        (*walk.seq()[i].1)@,
                        #[trigger] listing@[i],
                    ),
        {
            listing.push(entry_of(*id, file));
            proof {
                ids = ids.push(*id);
            }
        }
        proof {
            let all = spec_hash_map_iter(&self.files).remaining();
            assert(self@.files.dom() =~= self.files@.dom());
            assert forall|i: int, j: int|
                0 <= i < ids.len() && 0 <= j < ids.len() && i != j implies ids[i] != ids[j] by {
                assert(self.files@.contains_key(*all[i].0) && self.files@[*all[i].0] == *all[i].1);
                assert(self.files@.contains_key(*all[j].0) && self.files@[*all[j].0] == *all[j].1);
                if ids[i] == ids[j] {
                    assert(all[i] == all[j]);
                }
            }
            assert forall|id: u128| ids.to_set().contains(id) <==> self@.files.dom().contains(
                id,
            ) by {
                if ids.to_set().contains(id) {
                    let i = choose|i: int| 0 <= i < ids.len() && ids[i] == id;
                    assert(self.files@.contains_key(*all[i].0));
                }
                if self.files@.contains_key(id) {
                    assert(all.contains((&id, &self.files@[id])));
                    let i = choose|i: int| 0 <= i < all.len() && all[i] == (&id, &self.files@[id]);
                    assert(ids[i] == id);
                }
            }
            assert(ids.to_set() =~= self@.files.dom());
            assert forall|i: int| 0 <= i < ids.len() implies lists(
                ids[i],
                self@.files[ids[i]],
                #[trigger] listing@[i],
            ) by {
                assert(self.files@.contains_key(*all[i].0) && self.files@[*all[i].0] == *all[i].1);
            }
            assert(self@.is_listing(ids, listing@));
        }
        listing
    }
}

} // verus!
