//! WebAssembly artifacts: where they come from and what identifies them.

use std::sync::{Arc, OnceLock};

use vstd::prelude::*;
use wasmparser::{Encoding, Parser, Payload};

use crate::digest;
use crate::digest::artifact_digest;
use crate::failure::Failure;
use crate::path;
use crate::path::file_name;
use crate::text;
use crate::text::{concat2, same};

verus! {

/// The identity of an artifact.
#[derive(Debug, Hash)]
pub struct ArtifactId(String);

impl ArtifactId {
    /// The identity as a text.
    pub closed spec fn text(&self) -> Seq<char> {
        self.0@
    }

    /// The identity as a text.
    pub fn as_str(&self) -> (s: &str)
        ensures
            s@ == self.text(),
    {
        self.0.as_str()
    }

    /// Whether two identities are the same.
    pub fn is(&self, other: &ArtifactId) -> (equal: bool)
        ensures
            equal == (self.text() == other.text()),
    {
        same(self.0.as_str(), other.0.as_str())
    }
}

impl Clone for ArtifactId {
    fn clone(&self) -> (copy: Self)
        ensures
            copy == *self,
    {
        ArtifactId(self.0.clone())
    }
}

impl PartialEq for ArtifactId {
    fn eq(&self, other: &Self) -> (equal: bool) {
        self.is(other)
    }
}

impl Eq for ArtifactId {

}

impl vstd::std_specs::cmp::PartialEqSpecImpl for ArtifactId {
    open spec fn obeys_eq_spec() -> bool {
        true
    }

    open spec fn eq_spec(&self, other: &Self) -> bool {
        self.text() == other.text()
    }
}

/// Where an artifact comes from.
#[derive(Debug)]
pub enum ArtifactSource {
    Path(String),
    Bytes(Vec<u8>),
}

/// What the host found at the path of an artifact.
#[derive(Debug)]
pub enum FoundFile {
    /// There is nothing at the path.
    Missing,
    /// There is something at the path that is no file.
    NotAFile,
    /// The file could not be read; the host says why.
    Unreadable(String),
    /// The file holds these bytes.
    Contents(Vec<u8>),
}

/// A cell that is filled once, carried through as it is.
#[verifier::external_type_specification]
#[verifier::external_body]
#[verifier::reject_recursive_types(T)]
pub struct ExOnceLock<T>(OnceLock<T>);

/// `OnceLock::new`. Nothing is claimed of the cell.
pub assume_specification<T>[ OnceLock::<T>::new ]() -> OnceLock<T>;

/// What the clones of an artifact remember of its digest, together.
#[derive(Debug)]
pub struct DigestMemo {
    cell: Arc<OnceLock<String>>,
}

/// The digest that a memo holds from the moment that it holds one. Nothing ever
/// replaces it.
pub uninterp spec fn remembered(memo: DigestMemo) -> Seq<char>;

/// Whether a text is the digest of some bytes.
pub open spec fn is_content_digest(digest: Seq<char>) -> bool {
    exists|bytes: Seq<u8>|
        digest == #[trigger] digest::content_identity(bytes) && digest::sha256_digest(bytes).len()
            == 32
}

/// Whether a memo that is offered one digest may give another, or the same: it
/// gives what it was offered first.
pub uninterp spec fn memo_may_give(
    memo: DigestMemo,
    offered: Seq<char>,
    given: Seq<char>,
) -> bool;

/// `OnceLock::get_or_init`, with the digest of the bytes for a memo that holds
/// none yet. What comes back is what the memo holds from then on, whoever asks,
/// and what it may give to one who offers the digest of these bytes. A memo is
/// filled here alone, so that is the digest of some bytes; whether it is that of
/// these, as it is for the first who asks, is not said.
#[verifier::external_body]
fn recall<'a>(memo: &'a DigestMemo, bytes: &[u8]) -> (digest: &'a String)
    ensures
        digest@ == remembered(*memo),
        memo_may_give(*memo, digest::content_identity(bytes@), digest@),
        is_content_digest(digest@),
{
    memo.cell.get_or_init(|| artifact_digest(bytes))
}

/// A raw WebAssembly artifact.
#[derive(Debug)]
pub struct WasmArtifact {
    id: ArtifactId,
    source: ArtifactSource,
    known_digest: Option<String>,
    memo: DigestMemo,
}

/// The name that a guest sees as its own where its artifact has none.
pub open spec fn fallback_name() -> Seq<char> {
    "pit-wasm"@
}

impl Clone for ArtifactSource {
    fn clone(&self) -> (copy: Self)
        ensures
            match (*self, copy) {
                (ArtifactSource::Path(path), ArtifactSource::Path(other)) => path@ == other@,
                (ArtifactSource::Bytes(bytes), ArtifactSource::Bytes(other)) => bytes@ == other@,
                _ => false,
            },
    {
        match self {
            ArtifactSource::Path(path) => ArtifactSource::Path(path.clone()),
            ArtifactSource::Bytes(bytes) => ArtifactSource::Bytes(copied(bytes.as_slice())),
        }
    }
}

/// The same bytes once more.
pub fn copied(bytes: &[u8]) -> (copy: Vec<u8>)
    ensures
        copy@ == bytes@,
{
    let mut copy: Vec<u8> = Vec::new();
    let length = bytes.len();
    let mut i: usize = 0;
    while i < length
        invariant
            i <= length,
            length == bytes@.len(),
            copy@ == bytes@.take(i as int),
        decreases length - i,
    {
        copy.push(bytes[i]);
        i += 1;
        proof {
            assert(bytes@.take(i as int) =~= bytes@.take(i - 1).push(bytes@[i - 1]));
        }
    }
    proof {
        assert(bytes@.take(length as int) =~= bytes@);
    }
    copy
}

impl Clone for WasmArtifact {
    fn clone(&self) -> (copy: Self)
        ensures
            copy.identity() == self.identity(),
            copy.path() == self.path(),
            copy.bytes() == self.bytes(),
            copy.digest_known() == self.digest_known(),
            copy.settled_digest() == self.settled_digest(),
            copy.memory() == self.memory(),
    {
        let known_digest = match &self.known_digest {
            Some(digest) => Some(digest.clone()),
            None => None,
        };
        WasmArtifact {
            id: self.id.clone(),
            source: self.source.clone(),
            known_digest,
            memo: DigestMemo { cell: Arc::clone(&self.memo.cell) },
        }
    }
}

/// What a file holds, if it could be read.
pub open spec fn file_contents(found: FoundFile) -> Option<Seq<u8>> {
    match found {
        FoundFile::Contents(bytes) => Some(bytes@),
        _ => None,
    }
}

/// Why a file could not be read.
pub open spec fn file_problem(path: Seq<char>, found: FoundFile) -> Seq<char> {
    match found {
        FoundFile::Missing => "WASM file does not exist: "@ + path,
        FoundFile::NotAFile => "WASM path is not a file: "@ + path,
        _ => "failed to read WASM artifact "@ + path,
    }
}

impl WasmArtifact {
    /// The identity of the artifact, as a text.
    pub closed spec fn identity(&self) -> Seq<char> {
        self.id.text()
    }

    /// The path of the artifact, if it comes from a file.
    pub closed spec fn path(&self) -> Option<Seq<char>> {
        match self.source {
            ArtifactSource::Path(path) => Some(path@),
            ArtifactSource::Bytes(_) => None,
        }
    }

    /// The bytes of the artifact, if they are at hand.
    pub closed spec fn bytes(&self) -> Option<Seq<u8>> {
        match self.source {
            ArtifactSource::Path(_) => None,
            ArtifactSource::Bytes(bytes) => Some(bytes@),
        }
    }

    /// The digest of the artifact, if it is known from the start.
    pub closed spec fn digest_known(&self) -> Option<Seq<char>> {
        text::optional_text(self.known_digest)
    }

    /// What the artifact and its clones remember of its digest.
    pub closed spec fn memory(&self) -> DigestMemo {
        self.memo
    }

    /// The digest that the artifact and its clones have, from the moment that one
    /// of them is asked for it.
    pub closed spec fn settled_digest(&self) -> Seq<char> {
        match self.known_digest {
            Some(digest) => digest@,
            None => remembered(self.memo),
        }
    }

    /// The name that a guest sees as its own.
    pub open spec fn name(&self) -> Seq<char> {
        match self.path() {
            Some(path) => match path::final_name(path) {
                Some(name) => name,
                None => fallback_name(),
            },
            None => fallback_name(),
        }
    }

    /// The bytes of the artifact, out of what the host found at its path.
    pub open spec fn contents(&self, found: FoundFile) -> Option<Seq<u8>> {
        match (self.bytes(), found) {
            (Some(bytes), _) => Some(bytes),
            (None, FoundFile::Contents(bytes)) => Some(bytes@),
            _ => None,
        }
    }

    /// Why there are no bytes, where what the host found is no file that it
    /// could read.
    pub open spec fn load_problem(&self, found: FoundFile) -> Seq<char> {
        file_problem(self.path()->0, found)
    }

    /// An artifact in a file, identified by its path.
    pub fn from_path(path: &str) -> (artifact: WasmArtifact)
        ensures
            artifact.identity() == "path:"@ + path@,
            artifact.path() == Some(path@),
            artifact.bytes() is None,
            artifact.digest_known() is None,
    {
        WasmArtifact {
            id: ArtifactId(concat2("path:", path)),
            source: ArtifactSource::Path(path.to_owned()),
            known_digest: None,
            memo: DigestMemo { cell: Arc::new(OnceLock::new()) },
        }
    }

    /// An artifact in a file whose digest was verified elsewhere, which is its
    /// identity.
    pub fn from_path_with_digest(path: &str, digest: String) -> (artifact: WasmArtifact)
        ensures
            artifact.identity() == digest@,
            artifact.path() == Some(path@),
            artifact.bytes() is None,
            artifact.digest_known() == Some(digest@),
            artifact.settled_digest() == digest@,
    {
        WasmArtifact {
            id: ArtifactId(digest.clone()),
            source: ArtifactSource::Path(path.to_owned()),
            known_digest: Some(digest),
            memo: DigestMemo { cell: Arc::new(OnceLock::new()) },
        }
    }

    /// An artifact at hand, identified by its content.
    pub fn from_bytes(bytes: Vec<u8>) -> (artifact: WasmArtifact)
        ensures
            artifact.identity() == digest::content_identity(bytes@),
            artifact.path() is None,
            artifact.bytes() == Some(bytes@),
            artifact.digest_known() == Some(digest::content_identity(bytes@)),
            artifact.settled_digest() == digest::content_identity(bytes@),
    {
        let digest = artifact_digest(bytes.as_slice());
        WasmArtifact {
            id: ArtifactId(digest.clone()),
            source: ArtifactSource::Bytes(bytes),
            known_digest: Some(digest),
            memo: DigestMemo { cell: Arc::new(OnceLock::new()) },
        }
    }

    /// The identity of the artifact.
    pub fn id(&self) -> (id: &ArtifactId)
        ensures
            id.text() == self.identity(),
    {
        &self.id
    }

    /// Where the artifact comes from.
    pub fn source(&self) -> (source: &ArtifactSource)
        ensures
            match *source {
                ArtifactSource::Path(path) => self.path() == Some(path@) && self.bytes() is None,
                ArtifactSource::Bytes(bytes) => self.bytes() == Some(bytes@) && self.path() is None,
            },
    {
        &self.source
    }

    /// The digest of the artifact. Where it is not known, that of the given bytes
    /// is computed, once for the artifact and all of its clones.
    pub fn digest(&self, bytes: &[u8]) -> (digest: String)
        ensures
            digest@ == self.settled_digest(),
            match self.digest_known() {
                Some(known) => digest@ == known,
                None => is_content_digest(digest@) && memo_may_give(
                    self.memory(),
                    digest::content_identity(bytes@),
                    digest@,
                ),
            },
    {
        match &self.known_digest {
            Some(digest) => digest.clone(),
            None => recall(&self.memo, bytes).clone(),
        }
    }

    /// The name that a guest sees as its own.
    pub fn program_name(&self) -> (name: String)
        ensures
            name@ == self.name(),
    {
        match &self.source {
            ArtifactSource::Path(path) => match file_name(path.as_str()) {
                Some(name) => name,
                None => "pit-wasm".to_owned(),
            },
            ArtifactSource::Bytes(_) => "pit-wasm".to_owned(),
        }
    }

    /// The bytes of the artifact, out of what the host found at its path. For
    /// bytes at hand, the host has nothing to find.
    pub fn load(&self, found: FoundFile) -> (loaded: Result<Vec<u8>, Failure>)
        ensures
            match self.contents(found) {
                Some(bytes) => loaded matches Ok(read) && read@ == bytes,
                None => loaded matches Err(failure) && failure.message@ == self.load_problem(found)
                    && failure.cause == match found {
                    FoundFile::Unreadable(cause) => Some(cause),
                    _ => None,
                },
            },
    {
        match &self.source {
            ArtifactSource::Bytes(bytes) => Ok(copied(bytes.as_slice())),
            ArtifactSource::Path(path) => match found {
                FoundFile::Missing => Err(
                    Failure::of(concat2("WASM file does not exist: ", path.as_str())),
                ),
                FoundFile::NotAFile => Err(
                    Failure::of(concat2("WASM path is not a file: ", path.as_str())),
                ),
                FoundFile::Unreadable(cause) => {
                    let message = concat2("failed to read WASM artifact ", path.as_str());
                    Err(Failure::caused(message.as_str(), cause))
                },
                FoundFile::Contents(bytes) => Ok(bytes),
            },
        }
    }
}

/// The two encodings of WebAssembly.
#[derive(Debug, Clone, Copy, PartialEq, Eq, Structural)]
pub enum ArtifactFormat {
    CoreModule,
    Component,
}

impl ArtifactFormat {
    /// The name of the format.
    pub open spec fn spelled(&self) -> Seq<char> {
        match *self {
            ArtifactFormat::CoreModule => "core-module"@,
            ArtifactFormat::Component => "component"@,
        }
    }

    /// The name of the format.
    pub fn name(&self) -> (name: String)
        ensures
            name@ == self.spelled(),
    {
        match self {
            ArtifactFormat::CoreModule => "core-module".to_owned(),
            ArtifactFormat::Component => "component".to_owned(),
        }
    }
}

/// The bytes that every core module starts with.
pub open spec fn module_header() -> Seq<u8> {
    seq![0u8, 0x61, 0x73, 0x6d, 0x01, 0, 0, 0]
}

/// The bytes that every component starts with.
pub open spec fn component_header() -> Seq<u8> {
    seq![0u8, 0x61, 0x73, 0x6d, 0x0d, 0, 0x01, 0]
}

/// The format that the first eight bytes of an artifact tell.
pub open spec fn header_format(bytes: Seq<u8>) -> Option<ArtifactFormat> {
    if bytes.len() >= 8 && bytes.take(8) == module_header() {
        Some(ArtifactFormat::CoreModule)
    } else if bytes.len() >= 8 && bytes.take(8) == component_header() {
        Some(ArtifactFormat::Component)
    } else {
        None
    }
}

/// What `wasmparser` says of bytes that do not start with a header that it knows.
pub uninterp spec fn reader_problem(bytes: Seq<u8>) -> Seq<char>;

/// The first item that `wasmparser::Parser::parse_all` yields: the version in
/// the header, whose encoding the first eight bytes tell, or an error where
/// they are not a header that the parser knows. What the error says depends on
/// the bytes alone.
#[verifier::external_body]
fn first_encoding(bytes: &[u8]) -> (encoding: Result<Option<ArtifactFormat>, String>)
    ensures
        match header_format(bytes@) {
            Some(format) => encoding matches Ok(Some(read)) && read == format,
            None => encoding matches Err(problem) && problem@ == reader_problem(bytes@),
        },
{
    match Parser::new(0).parse_all(bytes).next() {
        Some(Ok(Payload::Version { encoding: Encoding::Module, .. })) => {
            Ok(Some(ArtifactFormat::CoreModule))
        },
        Some(Ok(Payload::Version { encoding: Encoding::Component, .. })) => {
            Ok(Some(ArtifactFormat::Component))
        },
        Some(Err(error)) => Err(error.to_string()),
        _ => Ok(None),
    }
}

/// The format of an artifact. Bytes without a known header are refused.
pub fn detect_format(bytes: &[u8]) -> (format: Result<ArtifactFormat, Failure>)
    ensures
        match header_format(bytes@) {
            Some(read) => format == Ok::<ArtifactFormat, Failure>(read),
            None => format matches Err(failure) && failure.says(reader_problem(bytes@)),
        },
{
    match first_encoding(bytes) {
        Ok(Some(format)) => Ok(format),
        Ok(None) => Err(Failure::new("invalid WebAssembly artifact")),
        Err(problem) => Err(Failure::of(problem)),
    }
}

/// Bytes are taken for a module or a component by their first eight bytes alone,
/// the magic number and the version, and for nothing else; whatever comes after
/// them does not matter.
pub proof fn law_formats_are_told_by_the_header(
    bytes: &[u8],
    format: Result<ArtifactFormat, Failure>,
)
    requires
        call_ensures(detect_format, (bytes,), format),
    ensures
        format is Ok <==> {
            &&& bytes@.len() >= 8
            &&& bytes@[0] == 0 && bytes@[1] == 0x61 && bytes@[2] == 0x73 && bytes@[3] == 0x6d
            &&& {
                ||| bytes@[4] == 1 && bytes@[5] == 0 && bytes@[6] == 0 && bytes@[7] == 0
                ||| bytes@[4] == 0x0d && bytes@[5] == 0 && bytes@[6] == 1 && bytes@[7] == 0
            }
        },
        format matches Ok(format) ==> (format == ArtifactFormat::CoreModule <==> bytes@[4] == 1),
{
    if bytes@.len() >= 8 {
        let head = bytes@.take(8);
        assert(forall|i: int| 0 <= i < 8 ==> #[trigger] head[i] == bytes@[i]);
        if head == module_header() {
            assert(head[0] == 0 && head[1] == 0x61 && head[2] == 0x73 && head[3] == 0x6d && head[4]
                == 1 && head[5] == 0 && head[6] == 0 && head[7] == 0);
        }
        if head == component_header() {
            assert(head[0] == 0 && head[1] == 0x61 && head[2] == 0x73 && head[3] == 0x6d && head[4]
                == 0x0d && head[5] == 0 && head[6] == 1 && head[7] == 0);
        }
        if head != module_header() && head != component_header() {
            assert(!(head =~= module_header()));
            assert(!(head =~= component_header()));
        }
    }
}

/// The bytes of an artifact are those at hand, whatever the host found, or else
/// those that it found at the path. There are none exactly where the artifact is
/// in a file and the host could not read it, and then the path is told.
pub proof fn law_artifacts_are_loaded(
    artifact: WasmArtifact,
    found: FoundFile,
    loaded: Result<Vec<u8>, Failure>,
)
    requires
        call_ensures(WasmArtifact::load, (&artifact, found), loaded),
    ensures
        loaded is Ok <==> artifact.bytes() is Some || found is Contents,
        artifact.bytes() matches Some(bytes) ==> loaded is Ok && loaded->Ok_0@ == bytes,
        artifact.bytes() is None ==> (found matches FoundFile::Contents(bytes) ==> loaded is Ok
            && loaded->Ok_0@ == bytes@),
        artifact.bytes() is None && artifact.path() is Some && found is Missing ==> loaded is Err
            && loaded->Err_0.message@ == "WASM file does not exist: "@ + artifact.path()->0,
        artifact.bytes() is None && artifact.path() is Some && found is NotAFile ==> loaded is Err
            && loaded->Err_0.message@ == "WASM path is not a file: "@ + artifact.path()->0,
        artifact.bytes() is None && artifact.path() is Some ==> (found matches FoundFile::Unreadable(
            cause,
        ) ==> loaded is Err && loaded->Err_0.cause == Some(cause) && loaded->Err_0.message@
            == "failed to read WASM artifact "@ + artifact.path()->0),
{
}

/// Each format has a name of its own.
pub proof fn law_formats_are_named(format: ArtifactFormat, name: String)
    requires
        call_ensures(ArtifactFormat::name, (&format,), name),
    ensures
        name@ == "core-module"@ <==> format is CoreModule,
        name@ == "component"@ <==> format is Component,
{
    reveal_strlit("core-module");
    reveal_strlit("component");
    assert("core-module"@.len() == 11);
    assert("component"@.len() == 9);
}

/// A guest is called by the last name of its artifact's path, and one without such
/// a name, or without a path, by the same fixed name.
pub proof fn law_guests_are_called_by_their_file(
    artifact: WasmArtifact,
    directory: Seq<char>,
    file: Seq<char>,
    name: String,
)
    requires
        call_ensures(WasmArtifact::program_name, (&artifact,), name),
        !file.contains('/'),
        file.len() > 0,
        file != "."@,
        file != ".."@,
    ensures
        artifact.path() == Some(directory.push('/') + file) ==> name@ == file,
        artifact.path() == Some(file) ==> name@ == file,
        artifact.path() is None ==> name@ == "pit-wasm"@,
{
    path::law_names_stand_at_the_end(directory, file);
}

/// An artifact in a file is known by its path, one whose digest was verified by that
/// digest, and one at hand by the digest of its bytes, whatever else it is. Of the
/// last two the digest is settled from the start.
pub proof fn law_artifacts_are_known_by_what_they_are(
    path: &str,
    digest: String,
    bytes: Vec<u8>,
    in_file: WasmArtifact,
    verified: WasmArtifact,
    at_hand: WasmArtifact,
    other: &[u8],
    told: String,
    again: String,
)
    requires
        call_ensures(WasmArtifact::from_path, (path,), in_file),
        call_ensures(WasmArtifact::from_path_with_digest, (path, digest), verified),
        call_ensures(WasmArtifact::from_bytes, (bytes,), at_hand),
        call_ensures(WasmArtifact::digest, (&verified, other), told),
        call_ensures(WasmArtifact::digest, (&at_hand, other), again),
    ensures
        in_file.identity() == "path:"@ + path@,
        in_file.path() == Some(path@) && in_file.bytes() is None && in_file.digest_known() is None,
        verified.identity() == digest@,
        verified.path() == Some(path@) && verified.bytes() is None,
        told@ == digest@,
        at_hand.identity() == digest::content_identity(bytes@),
        at_hand.path() is None && at_hand.bytes() == Some(bytes@),
        again@ == digest::content_identity(bytes@),
{
}

/// The digest of an artifact is asked for as often as one likes and is always the
/// same, whatever bytes are offered.
pub proof fn law_digests_are_settled_once(
    artifact: WasmArtifact,
    bytes: &[u8],
    other: &[u8],
    first: String,
    second: String,
)
    requires
        call_ensures(WasmArtifact::digest, (&artifact, bytes), first),
        call_ensures(WasmArtifact::digest, (&artifact, other), second),
    ensures
        first@ == second@,
        artifact.digest_known() matches Some(known) ==> first@ == known,
        artifact.digest_known() is None ==> is_content_digest(first@),
{
}

} // verus!
