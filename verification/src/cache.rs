//! The cache of compiled artifacts. It holds nothing that could not be compiled
//! again from the artifact itself.

use vstd::prelude::*;

use crate::artifact::ArtifactFormat;
use crate::clock::Span;
use crate::digest::sha256;
use crate::failure::Failure;
use crate::guest::{error_text, EngineSettings, GuestEngine};
use crate::names::distinct_in_order;
use crate::order::sort;
use crate::path::join;
use crate::text::{
    chars_of, concat2, concat3, decimal_string, hex_digest, same, string_of, strip_prefix,
};
use crate::{digest, names, number, order, path, text};

verus! {

/// The version of the layout of the cache.
pub const COMPILED_CACHE_SCHEMA: u32 = 2;

/// The version of the engine that compiled artifacts are for.
pub open spec fn wasmtime_version() -> Seq<char> {
    "39.0.2"@
}

/// Where the cache is and how much it may hold.
#[derive(Debug)]
pub struct CompiledCacheConfig {
    pub root: String,
    pub max_bytes: u64,
}

impl CompiledCacheConfig {
    /// A cache of four gibibytes.
    pub fn new(root: String) -> (config: CompiledCacheConfig)
        ensures
            config.root == root,
            config.max_bytes == 4 * 1024 * 1024 * 1024,
    {
        CompiledCacheConfig { root, max_bytes: 4_294_967_296 }
    }

    /// Where the cache is by default: under the cache directory of the host,
    /// where one is set, or else under the home directory.
    pub fn default_root(cache_home: Option<String>, home: Option<String>) -> (root: Result<
        String,
        Failure,
    >)
        ensures
            match (cache_home, home) {
                (Some(cache_home), _) => root matches Ok(root) && root@ == path::joined(
                    cache_home@,
                    "pit/compiled"@,
                ),
                (None, Some(home)) => root matches Ok(root) && root@ == path::joined(
                    home@,
                    ".cache/pit/compiled"@,
                ),
                (None, None) => root matches Err(failure) && failure.says(
                    "HOME is unavailable; set XDG_CACHE_HOME"@,
                ),
            },
    {
        match (cache_home, home) {
            (Some(cache_home), _) => Ok(join(cache_home.as_str(), "pit/compiled")),
            (None, Some(home)) => Ok(join(home.as_str(), ".cache/pit/compiled")),
            (None, None) => Err(Failure::new("HOME is unavailable; set XDG_CACHE_HOME")),
        }
    }
}

/// The machine that artifacts are compiled for.
#[derive(Debug)]
pub struct HostPlatform {
    pub architecture: String,
    pub os: String,
    pub family: String,
}

impl HostPlatform {
    /// The name of the platform.
    pub open spec fn target(&self) -> Seq<char> {
        self.architecture@ + "-"@ + self.os@ + "-"@ + self.family@
    }

    /// The name of the platform.
    pub fn target_name(&self) -> (name: String)
        ensures
            name@ == self.target(),
    {
        let name = concat3(self.architecture.as_str(), "-", self.os.as_str());
        let name = concat3(name.as_str(), "-", self.family.as_str());
        proof {
            assert(name@ =~= self.target());
        }
        name
    }
}

impl Clone for HostPlatform {
    fn clone(&self) -> (copy: Self)
        ensures
            copy.architecture@ == self.architecture@,
            copy.os@ == self.os@,
            copy.family@ == self.family@,
    {
        HostPlatform {
            architecture: self.architecture.clone(),
            os: self.os.clone(),
            family: self.family.clone(),
        }
    }
}

/// Everything that a compiled artifact depends on besides the artifact.
#[derive(Debug)]
pub struct CompileFingerprint {
    pub schema_version: u32,
    pub wasmtime: String,
    pub target: String,
    pub architecture: String,
    pub format: String,
    pub world: String,
    pub engine_compatibility_hash: String,
}

/// A character as it stands in a JSON text: quotes, backslashes and control
/// characters are escaped.
pub open spec fn json_char(c: char) -> Seq<char> {
    if c == '"' || c == '\\' {
        seq!['\\', c]
    } else if c as u32 == 0x8 {
        seq!['\\', 'b']
    } else if c as u32 == 0x9 {
        seq!['\\', 't']
    } else if c as u32 == 0xa {
        seq!['\\', 'n']
    } else if c as u32 == 0xc {
        seq!['\\', 'f']
    } else if c as u32 == 0xd {
        seq!['\\', 'r']
    } else if (c as u32) < 0x20 {
        seq!['\\', 'u', '0', '0'] + text::hex(seq![c as u8])
    } else {
        seq![c]
    }
}

/// The characters of a text as they stand in a JSON text.
pub open spec fn json_chars(s: Seq<char>) -> Seq<char>
    decreases s.len(),
{
    if s.len() == 0 {
        Seq::empty()
    } else {
        json_chars(s.drop_last()) + json_char(s.last())
    }
}

/// A text in JSON: its characters between quotes.
pub open spec fn json_text(s: Seq<char>) -> Seq<char> {
    seq!['"'] + json_chars(s) + seq!['"']
}

/// `serde_json::Value::to_string` of a text: the text in JSON.
#[verifier::external_body]
fn json_quoted(s: &str) -> (json: String)
    ensures
        json@ == json_text(s@),
{
    serde_json::Value::from(s).to_string()
}

/// One member of a JSON object.
pub open spec fn json_member(name: Seq<char>, value: Seq<char>) -> Seq<char> {
    json_text(name) + ":"@ + value
}

fn write_member(name: &str, value: &str) -> (member: String)
    ensures
        member@ == json_member(name@, value@),
{
    let quoted = json_quoted(name);
    concat3(quoted.as_str(), ":", value)
}

fn write_text_member(name: &str, value: &str) -> (member: String)
    ensures
        member@ == json_member(name@, json_text(value@)),
{
    let quoted = json_quoted(value);
    write_member(name, quoted.as_str())
}

impl CompileFingerprint {
    /// The members of the fingerprint as a JSON object, in their order.
    pub open spec fn members(&self) -> Seq<Seq<char>> {
        seq![
            json_member("schema_version"@, text::decimal(self.schema_version as nat)),
            json_member("wasmtime"@, json_text(self.wasmtime@)),
            json_member("target"@, json_text(self.target@)),
            json_member("architecture"@, json_text(self.architecture@)),
            json_member("format"@, json_text(self.format@)),
            json_member("world"@, json_text(self.world@)),
            json_member("engine_compatibility_hash"@, json_text(self.engine_compatibility_hash@)),
        ]
    }

    /// The fingerprint as a JSON object.
    pub open spec fn json(&self) -> Seq<char> {
        "{"@ + text::join(self.members(), ","@) + "}"@
    }

    /// The name of the fingerprint: the version of the layout and the digest
    /// of everything.
    pub open spec fn named(&self) -> Seq<char> {
        "v"@ + text::decimal(self.schema_version as nat) + "-"@ + text::hex(
            digest::sha256_digest(vstd::utf8::encode_utf8(self.json())),
        )
    }

    /// Whether the fingerprint is that of what an engine with this hash compiles
    /// on a machine.
    pub open spec fn is_for(
        &self,
        engine_hash: u64,
        format: ArtifactFormat,
        world: Seq<char>,
        platform: HostPlatform,
    ) -> bool {
        &&& self.schema_version == COMPILED_CACHE_SCHEMA
        &&& self.wasmtime@ == wasmtime_version()
        &&& self.target@ == platform.target()
        &&& self.architecture@ == platform.architecture@
        &&& self.format@ == format.spelled()
        &&& self.world@ == world
        &&& self.engine_compatibility_hash@ == text::hex(bytes_of(engine_hash as nat, 8))
    }

    /// The fingerprint of what an engine with this hash compiles on a machine.
    pub fn for_engine(
        engine_hash: u64,
        format: ArtifactFormat,
        world: &str,
        platform: &HostPlatform,
    ) -> (fingerprint: CompileFingerprint)
        ensures
            fingerprint.is_for(engine_hash, format, world@, *platform),
    {
        let bytes = big_endian(engine_hash, 8);
        CompileFingerprint {
            schema_version: COMPILED_CACHE_SCHEMA,
            wasmtime: "39.0.2".to_owned(),
            target: platform.target_name(),
            architecture: platform.architecture.clone(),
            format: format.name(),
            world: world.to_owned(),
            engine_compatibility_hash: hex_digest(bytes.as_slice()),
        }
    }

    /// The fingerprint as a JSON object.
    pub fn to_json(&self) -> (json: String)
        ensures
            json@ == self.json(),
    {
        let mut members: Vec<String> = Vec::new();
        let version = decimal_string(self.schema_version as u64);
        members.push(write_member("schema_version", version.as_str()));
        members.push(write_text_member("wasmtime", self.wasmtime.as_str()));
        members.push(write_text_member("target", self.target.as_str()));
        members.push(write_text_member("architecture", self.architecture.as_str()));
        members.push(write_text_member("format", self.format.as_str()));
        members.push(write_text_member("world", self.world.as_str()));
        members.push(
            write_text_member(
                "engine_compatibility_hash",
                self.engine_compatibility_hash.as_str(),
            ),
        );
        proof {
            assert(text::texts(members@) =~= self.members());
        }
        let inside = text::join_strings(&members, ",");
        concat3("{", inside.as_str(), "}")
    }

    /// The name of the fingerprint.
    pub fn value(&self) -> (name: String)
        ensures
            name@ == self.named(),
    {
        let json = self.to_json();
        let digest = sha256(json.as_str().as_bytes());
        let digits = hex_digest(digest.as_slice());
        let version = decimal_string(self.schema_version as u64);
        let front = concat3("v", version.as_str(), "-");
        concat2(front.as_str(), digits.as_str())
    }
}

/// The bytes of a number, the highest first.
pub open spec fn bytes_of(n: nat, count: nat) -> Seq<u8>
    decreases count,
{
    if count == 0 {
        Seq::empty()
    } else {
        bytes_of(n / 256, (count - 1) as nat).push((n % 256) as u8)
    }
}

fn big_endian(n: u64, count: usize) -> (bytes: Vec<u8>)
    ensures
        bytes@ == bytes_of(n as nat, count as nat),
    decreases count,
{
    if count == 0 {
        return Vec::new();
    }
    let mut bytes = big_endian(n / 256, count - 1);
    bytes.push((n % 256) as u8);
    bytes
}

/// Whether an engine with these settings may have this compatibility hash.
/// Machines differ.
pub uninterp spec fn engine_may_hash(settings: EngineSettings, hash: u64) -> bool;

/// The hash that `wasmtime::Engine::precompile_compatibility_hash` gives of an
/// engine, fed to the default hasher of std. The number is said to be one that
/// an engine with these settings may have.
#[verifier::external_body]
pub(crate) fn compatibility_hash(engine: &GuestEngine) -> (hash: u64)
    ensures
        engine_may_hash(engine.made_with(), hash),
{
    let mut hasher = std::collections::hash_map::DefaultHasher::new();
    std::hash::Hash::hash(&engine.inner().precompile_compatibility_hash(), &mut hasher);
    std::hash::Hasher::finish(&hasher)
}

/// Whether a name is that of the fingerprint of what an engine with these
/// settings compiles on a machine. Only the hash in it is the engine's.
pub open spec fn names_engine(
    name: Seq<char>,
    settings: EngineSettings,
    format: ArtifactFormat,
    world: Seq<char>,
    platform: HostPlatform,
) -> bool {
    exists|fingerprint: CompileFingerprint, engine_hash: u64|
        {
            &&& #[trigger] fingerprint.is_for(engine_hash, format, world, platform)
            &&& engine_may_hash(settings, engine_hash)
            &&& name == fingerprint.named()
        }
}

/// Of a machine, only what its texts say is in a name.
pub(crate) proof fn lemma_names_engine(
    name: Seq<char>,
    settings: EngineSettings,
    format: ArtifactFormat,
    world: Seq<char>,
    platform: HostPlatform,
    other: HostPlatform,
)
    requires
        names_engine(name, settings, format, world, platform),
        platform.architecture@ == other.architecture@,
        platform.os@ == other.os@,
        platform.family@ == other.family@,
    ensures
        names_engine(name, settings, format, world, other),
{
    let (fingerprint, engine_hash) = choose|fingerprint: CompileFingerprint, engine_hash: u64|
        {
            &&& #[trigger] fingerprint.is_for(engine_hash, format, world, platform)
            &&& engine_may_hash(settings, engine_hash)
            &&& name == fingerprint.named()
        };
    assert(fingerprint.is_for(engine_hash, format, world, other));
}

/// The fingerprint of what an engine compiles on a machine.
pub fn engine_fingerprint(
    engine: &GuestEngine,
    format: ArtifactFormat,
    world: &str,
    platform: &HostPlatform,
) -> (name: String)
    ensures
        names_engine(name@, engine.made_with(), format, world@, *platform),
{
    CompileFingerprint::for_engine(compatibility_hash(engine), format, world, platform).value()
}

/// How many bytes a character takes.
pub open spec fn char_width(c: char) -> int {
    if (c as u32) < 0x80 {
        1
    } else if (c as u32) < 0x800 {
        2
    } else if (c as u32) < 0x1_0000 {
        3
    } else {
        4
    }
}

/// The first two bytes of a text, or all of a shorter one, where no character
/// is cut.
pub open spec fn first_two_bytes(s: Seq<char>) -> Option<Seq<char>> {
    if s.len() == 0 {
        Some(s)
    } else if char_width(s[0]) == 2 {
        Some(s.take(1))
    } else if char_width(s[0]) > 2 {
        None
    } else if s.len() == 1 {
        Some(s)
    } else if char_width(s[1]) == 1 {
        Some(s.take(2))
    } else {
        None
    }
}

/// A digest without the name of its algorithm.
pub open spec fn bare_digest(digest: Seq<char>) -> Seq<char> {
    if text::starts_with(digest, "sha256:"@) {
        digest.skip("sha256:"@.len() as int)
    } else {
        digest
    }
}

/// The directory of a cache entry: under the first characters of the digest,
/// the digest, and the fingerprint.
pub open spec fn entry_directory(
    root: Seq<char>,
    digest: Seq<char>,
    fingerprint: Seq<char>,
) -> Seq<char> {
    let bare = bare_digest(digest);
    let under = path::joined(path::joined(root, "sha256"@), first_two_bytes(bare)->0);
    path::joined(path::joined(under, bare), fingerprint)
}

/// Whether a text is one part of a path.
pub open spec fn is_path_part(part: Seq<char>) -> bool {
    part.len() > 0 && !part.contains('/')
}

proof fn lemma_last_part(a: Seq<char>, x: Seq<char>, b: Seq<char>, y: Seq<char>)
    requires
        !x.contains('/'),
        !y.contains('/'),
        a + seq!['/'] + x == b + seq!['/'] + y,
    ensures
        a == b,
        x == y,
{
    let s = a + seq!['/'] + x;
    let t = b + seq!['/'] + y;
    assert(s.len() == a.len() + 1 + x.len());
    assert(t.len() == b.len() + 1 + y.len());
    assert(s[a.len() as int] == '/');
    assert(t[b.len() as int] == '/');
    if a.len() < b.len() {
        assert(s[b.len() as int] == x[b.len() - a.len() - 1]);
        assert(x.contains('/'));
    } else if b.len() < a.len() {
        assert(t[a.len() as int] == y[a.len() - b.len() - 1]);
        assert(y.contains('/'));
    }
    assert(a =~= s.take(a.len() as int));
    assert(b =~= t.take(b.len() as int));
    assert(x =~= s.skip(a.len() as int + 1));
    assert(y =~= t.skip(b.len() as int + 1));
}

proof fn lemma_directory(root: Seq<char>, digest: Seq<char>, fingerprint: Seq<char>) -> (under: Seq<
    char,
>)
    requires
        is_path_part(bare_digest(digest)),
        is_path_part(fingerprint),
        first_two_bytes(bare_digest(digest)) is Some,
    ensures
        entry_directory(root, digest, fingerprint) == under + seq!['/'] + bare_digest(digest)
            + seq!['/'] + fingerprint,
        entry_directory(root, digest, fingerprint).len() > 0,
        entry_directory(root, digest, fingerprint).last() != '/',
{
    let bare = bare_digest(digest);
    let prefix = first_two_bytes(bare)->0;
    reveal_strlit("sha256");
    assert(prefix.len() > 0 && prefix.len() <= bare.len());
    assert(prefix =~= bare.take(prefix.len() as int));
    assert(bare.contains(bare[0]));
    assert(bare.contains(prefix.last()));
    assert(bare.contains(bare.last()));
    assert(fingerprint.contains(fingerprint[0]));
    assert(fingerprint.contains(fingerprint.last()));
    let base = path::joined(root, "sha256"@);
    assert(base.last() == '6');
    let under = path::joined(base, prefix);
    assert(under =~= base + seq!['/'] + prefix);
    assert(under.last() == prefix.last());
    let directory = path::joined(under, bare);
    assert(directory.last() == bare.last());
    assert(path::joined(directory, fingerprint).last() == fingerprint.last());
    under
}

/// Entries share a path only where they have the same digest, however it is
/// spelled, and the same fingerprint; and no compiled artifact is where the
/// metadata of an entry is.
pub proof fn law_entries_have_paths_of_their_own(
    root: Seq<char>,
    digest: Seq<char>,
    fingerprint: Seq<char>,
    other_digest: Seq<char>,
    other_fingerprint: Seq<char>,
)
    requires
        is_path_part(bare_digest(digest)),
        is_path_part(fingerprint),
        first_two_bytes(bare_digest(digest)) is Some,
        is_path_part(bare_digest(other_digest)),
        is_path_part(other_fingerprint),
        first_two_bytes(bare_digest(other_digest)) is Some,
    ensures
        ({
            let here = entry_directory(root, digest, fingerprint);
            let there = entry_directory(root, other_digest, other_fingerprint);
            let same_entry = bare_digest(digest) == bare_digest(other_digest) && fingerprint
                == other_fingerprint;
            &&& here == there <==> same_entry
            &&& path::joined(here, "artifact.cwasm"@) == path::joined(there, "artifact.cwasm"@)
                <==> same_entry
            &&& path::joined(here, "metadata.json"@) == path::joined(there, "metadata.json"@)
                <==> same_entry
            &&& path::joined(here, "artifact.cwasm"@) != path::joined(there, "metadata.json"@)
        }),
{
    let here = entry_directory(root, digest, fingerprint);
    let there = entry_directory(root, other_digest, other_fingerprint);
    let under = lemma_directory(root, digest, fingerprint);
    let beyond = lemma_directory(root, other_digest, other_fingerprint);
    if here == there {
        lemma_last_part(
            under + seq!['/'] + bare_digest(digest),
            fingerprint,
            beyond + seq!['/'] + bare_digest(other_digest),
            other_fingerprint,
        );
        lemma_last_part(under, bare_digest(digest), beyond, bare_digest(other_digest));
    }
    reveal_strlit("artifact.cwasm");
    reveal_strlit("metadata.json");
    let compiled = "artifact.cwasm"@;
    let described = "metadata.json"@;
    assert(!compiled.contains('/'));
    assert(!described.contains('/'));
    assert(compiled.last() != described.last());
    if path::joined(here, compiled) == path::joined(there, compiled) {
        lemma_last_part(here, compiled, there, compiled);
    }
    if path::joined(here, described) == path::joined(there, described) {
        lemma_last_part(here, described, there, described);
    }
    if path::joined(here, compiled) == path::joined(there, described) {
        lemma_last_part(here, compiled, there, described);
    }
}

/// Where a cache entry is: its compiled artifact and its metadata. The digest
/// does not start with a character that its second byte would cut.
pub fn cache_entry_paths(config: &CompiledCacheConfig, digest: &str, fingerprint: &str) -> (paths: (
    String,
    String,
))
    requires
        first_two_bytes(bare_digest(digest@)) is Some,
    ensures
        paths.0@ == path::joined(
            entry_directory(config.root@, digest@, fingerprint@),
            "artifact.cwasm"@,
        ),
        paths.1@ == path::joined(
            entry_directory(config.root@, digest@, fingerprint@),
            "metadata.json"@,
        ),
{
    let bare = match strip_prefix(digest, "sha256:") {
        Some(rest) => rest,
        None => digest.to_owned(),
    };
    let chars = chars_of(bare.as_str());
    let kept: usize = if chars.len() == 0 {
        0
    } else if (chars[0] as u32) < 0x80 && chars.len() > 1 {
        2
    } else {
        1
    };
    let mut first: Vec<char> = Vec::new();
    if kept > 0 {
        first.push(chars[0]);
    }
    if kept > 1 {
        first.push(chars[1]);
    }
    proof {
        assert(first@ =~= first_two_bytes(bare@)->0);
    }
    let prefix = string_of(first.as_slice());
    let directory = join(config.root.as_str(), "sha256");
    let directory = join(directory.as_str(), prefix.as_str());
    let directory = join(directory.as_str(), bare.as_str());
    let directory = join(directory.as_str(), fingerprint);
    (join(directory.as_str(), "artifact.cwasm"), join(directory.as_str(), "metadata.json"))
}

/// What identifies an entry of the cache.
#[derive(Debug)]
pub struct CacheKey {
    pub digest: String,
    pub fingerprint: String,
    pub platform: HostPlatform,
    pub format: ArtifactFormat,
    pub world: String,
}

/// What is kept beside a compiled artifact.
#[derive(Debug)]
pub struct CompiledCacheMetadata {
    pub schema_version: u32,
    pub artifact_digest: String,
    pub fingerprint: String,
    pub wasmtime: String,
    pub target: String,
    pub architecture: String,
    pub format: String,
    pub world: String,
    pub wasm_size_bytes: u64,
    pub compiled_size_bytes: u64,
}

/// Whether metadata are those of an entry for an artifact of so many bytes,
/// compiled to so many bytes.
pub open spec fn describes(
    metadata: CompiledCacheMetadata,
    key: CacheKey,
    wasm_size: int,
    compiled_size: int,
) -> bool {
    &&& metadata.schema_version == COMPILED_CACHE_SCHEMA
    &&& metadata.artifact_digest@ == key.digest@
    &&& metadata.fingerprint@ == key.fingerprint@
    &&& metadata.wasmtime@ == wasmtime_version()
    &&& metadata.target@ == key.platform.target()
    &&& metadata.architecture@ == key.platform.architecture@
    &&& metadata.format@ == key.format.spelled()
    &&& metadata.world@ == key.world@
    &&& metadata.wasm_size_bytes == wasm_size
    &&& metadata.compiled_size_bytes == compiled_size
}

/// What the host found of an entry of the cache.
#[derive(Debug)]
pub enum CacheLookup {
    /// There are no metadata.
    Absent,
    /// There are metadata, which could be read or not, and a compiled artifact
    /// of some size, or none.
    Present { metadata: Option<CompiledCacheMetadata>, compiled_size: Option<u64> },
}

/// What to do about an entry of the cache.
#[derive(Debug, Clone, Copy, PartialEq, Eq, Structural)]
pub enum CacheStep {
    /// The entry is good.
    Restore,
    /// There is no entry: compile.
    Compile,
    /// The entry is not good: remove it, then compile.
    Replace,
}

/// What to do about an entry. It is good where its metadata describe what was
/// asked for and the compiled artifact, which is not empty.
pub open spec fn step_for(lookup: CacheLookup, key: CacheKey, wasm_size: int) -> CacheStep {
    match lookup {
        CacheLookup::Absent => CacheStep::Compile,
        CacheLookup::Present { metadata: Some(metadata), compiled_size: Some(size) } => if size > 0
            && describes(metadata, key, wasm_size, size as int) {
            CacheStep::Restore
        } else {
            CacheStep::Replace
        },
        _ => CacheStep::Replace,
    }
}

/// What to do about an entry.
pub fn cache_step(lookup: &CacheLookup, key: &CacheKey, wasm_size: u64) -> (step: CacheStep)
    ensures
        step == step_for(*lookup, *key, wasm_size as int),
{
    match lookup {
        CacheLookup::Absent => CacheStep::Compile,
        CacheLookup::Present { metadata, compiled_size } => {
            let size = match compiled_size {
                Some(size) => *size,
                None => {
                    return CacheStep::Replace;
                },
            };
            let metadata = match metadata {
                Some(metadata) => metadata,
                None => {
                    return CacheStep::Replace;
                },
            };
            let target = key.platform.target_name();
            let format = key.format.name();
            let described = metadata.schema_version == COMPILED_CACHE_SCHEMA && same(
                metadata.artifact_digest.as_str(),
                key.digest.as_str(),
            ) && same(metadata.fingerprint.as_str(), key.fingerprint.as_str()) && same(
                metadata.wasmtime.as_str(),
                "39.0.2",
            ) && same(metadata.target.as_str(), target.as_str()) && same(
                metadata.architecture.as_str(),
                key.platform.architecture.as_str(),
            ) && same(metadata.format.as_str(), format.as_str()) && same(
                metadata.world.as_str(),
                key.world.as_str(),
            ) && metadata.wasm_size_bytes == wasm_size && metadata.compiled_size_bytes == size;
            if described && size != 0 {
                CacheStep::Restore
            } else {
                CacheStep::Replace
            }
        },
    }
}

/// The metadata of an entry for an artifact of so many bytes, compiled to so
/// many bytes.
pub fn new_metadata(key: &CacheKey, wasm_size: u64, compiled_size: u64) -> (metadata:
    CompiledCacheMetadata)
    ensures
        describes(metadata, *key, wasm_size as int, compiled_size as int),
{
    CompiledCacheMetadata {
        schema_version: COMPILED_CACHE_SCHEMA,
        artifact_digest: key.digest.clone(),
        fingerprint: key.fingerprint.clone(),
        wasmtime: "39.0.2".to_owned(),
        target: key.platform.target_name(),
        architecture: key.platform.architecture.clone(),
        format: key.format.name(),
        world: key.world.clone(),
        wasm_size_bytes: wasm_size,
        compiled_size_bytes: compiled_size,
    }
}

/// An entry that is read back as it was published is restored.
pub proof fn law_published_entries_are_restored(
    metadata: CompiledCacheMetadata,
    key: CacheKey,
    wasm_size: int,
    compiled_size: u64,
)
    requires
        compiled_size > 0,
        describes(metadata, key, wasm_size, compiled_size as int),
    ensures
        step_for(
            CacheLookup::Present { metadata: Some(metadata), compiled_size: Some(compiled_size) },
            key,
            wasm_size,
        ) == CacheStep::Restore,
{
}

/// An entry is only restored for the artifact, the fingerprint, the platform,
/// the format and the world that it was published for, and only where neither
/// the artifact nor the compiled artifact has another size.
pub proof fn law_other_entries_are_not_restored(
    metadata: CompiledCacheMetadata,
    published: CacheKey,
    key: CacheKey,
    published_sizes: (int, int),
    wasm_size: int,
    compiled_size: Option<u64>,
)
    requires
        describes(metadata, published, published_sizes.0, published_sizes.1),
        step_for(
            CacheLookup::Present { metadata: Some(metadata), compiled_size },
            key,
            wasm_size,
        ) == CacheStep::Restore,
    ensures
        published.digest@ == key.digest@,
        published.fingerprint@ == key.fingerprint@,
        published.platform.target() == key.platform.target(),
        published.platform.architecture@ == key.platform.architecture@,
        published.format.spelled() == key.format.spelled(),
        published.world@ == key.world@,
        published_sizes.0 == wasm_size,
        compiled_size matches Some(size) && size == published_sizes.1,
{
}

/// Whether an engine with these settings may compile a component of these bytes
/// to those, or to nothing. Machines differ.
pub uninterp spec fn component_may_compile(
    settings: EngineSettings,
    wasm: Seq<u8>,
    compiled: Option<Seq<u8>>,
) -> bool;

/// Whether an engine with these settings may compile a module of these bytes to
/// those, or to nothing. Machines differ.
pub uninterp spec fn module_may_compile(
    settings: EngineSettings,
    wasm: Seq<u8>,
    compiled: Option<Seq<u8>>,
) -> bool;

/// What came of a compilation.
pub open spec fn compiled_code(compiled: Result<Vec<u8>, anyhow::Error>) -> Option<Seq<u8>> {
    match compiled {
        Ok(code) => Some(code@),
        Err(_) => None,
    }
}

/// `wasmtime::Engine::precompile_component`. What comes back is said to be what
/// such an engine may compile the component to; which components are compiled is
/// not said.
#[verifier::external_body]
fn precompile_component(engine: &GuestEngine, bytes: &[u8]) -> (compiled: Result<
    Vec<u8>,
    anyhow::Error,
>)
    ensures
        component_may_compile(engine.made_with(), bytes@, compiled_code(compiled)),
{
    engine.inner().precompile_component(bytes)
}

/// `wasmtime::Engine::precompile_module`. What comes back is said to be what such
/// an engine may compile the module to; which modules are compiled is not said.
#[verifier::external_body]
fn precompile_module(engine: &GuestEngine, bytes: &[u8]) -> (compiled: Result<
    Vec<u8>,
    anyhow::Error,
>)
    ensures
        module_may_compile(engine.made_with(), bytes@, compiled_code(compiled)),
{
    engine.inner().precompile_module(bytes)
}

/// Whether an engine with these settings may compile an artifact to these bytes,
/// or to nothing.
pub open spec fn may_compile(
    settings: EngineSettings,
    format: ArtifactFormat,
    wasm: Seq<u8>,
    compiled: Option<Seq<u8>>,
) -> bool {
    match format {
        ArtifactFormat::Component => component_may_compile(settings, wasm, compiled),
        ArtifactFormat::CoreModule => module_may_compile(settings, wasm, compiled),
    }
}

/// An entry that is not in the cache yet.
#[derive(Debug)]
pub struct NewCacheEntry {
    pub bytes: Vec<u8>,
    pub metadata: CompiledCacheMetadata,
}

/// Compiles an artifact into an entry.
pub fn compile_entry(engine: &GuestEngine, key: &CacheKey, source: &[u8]) -> (entry: Result<
    NewCacheEntry,
    Failure,
>)
    ensures
        match entry {
            Ok(entry) => {
                &&& may_compile(engine.made_with(), key.format, source@, Some(entry.bytes@))
                &&& describes(
                    entry.metadata,
                    *key,
                    source@.len() as int,
                    entry.bytes@.len() as int,
                )
            },
            Err(failure) => failure.cause is None && may_compile(
                engine.made_with(),
                key.format,
                source@,
                None,
            ),
        },
{
    let compiled = match key.format {
        ArtifactFormat::Component => precompile_component(engine, source),
        ArtifactFormat::CoreModule => precompile_module(engine, source),
    };
    match compiled {
        Ok(bytes) => {
            let metadata = new_metadata(key, source.len() as u64, bytes.len() as u64);
            Ok(NewCacheEntry { bytes, metadata })
        },
        Err(error) => Err(Failure::of(error_text(&error))),
    }
}

/// Whether an artifact had to be compiled or came out of the cache.
#[derive(Debug, Clone, Copy, PartialEq, Eq, Structural)]
pub enum CompiledCacheSource {
    ColdCompiled,
    WarmRestored,
}

/// An entry of the cache that is ready to be read, and how long each step to it
/// took.
#[derive(Debug)]
pub struct CompiledCacheEntry {
    pub path: String,
    pub source: CompiledCacheSource,
    pub compile_duration: Span,
    pub restore_duration: Span,
    pub publication_duration: Span,
    pub metadata_lookup_duration: Span,
    pub fingerprint_duration: Span,
    pub file_read_duration: Span,
}

/// An entry that was restored.
pub fn restored_entry(
    path: String,
    metadata_lookup_duration: Span,
    file_read_duration: Span,
    restore_duration: Span,
) -> (entry: CompiledCacheEntry)
    ensures
        entry.path == path,
        entry.source == CompiledCacheSource::WarmRestored,
        entry.compile_duration.nanos == 0,
        entry.restore_duration == restore_duration,
        entry.publication_duration.nanos == 0,
        entry.metadata_lookup_duration == metadata_lookup_duration,
        entry.fingerprint_duration.nanos == 0,
        entry.file_read_duration == file_read_duration,
{
    CompiledCacheEntry {
        path,
        source: CompiledCacheSource::WarmRestored,
        compile_duration: Span::zero(),
        restore_duration,
        publication_duration: Span::zero(),
        metadata_lookup_duration,
        fingerprint_duration: Span::zero(),
        file_read_duration,
    }
}

/// An entry that was compiled and published.
pub fn published_entry(
    path: String,
    metadata_lookup_duration: Span,
    compile_duration: Span,
    publication_duration: Span,
) -> (entry: CompiledCacheEntry)
    ensures
        entry.path == path,
        entry.source == CompiledCacheSource::ColdCompiled,
        entry.compile_duration == compile_duration,
        entry.restore_duration.nanos == 0,
        entry.publication_duration == publication_duration,
        entry.metadata_lookup_duration == metadata_lookup_duration,
        entry.fingerprint_duration.nanos == 0,
        entry.file_read_duration.nanos == 0,
{
    CompiledCacheEntry {
        path,
        source: CompiledCacheSource::ColdCompiled,
        compile_duration,
        restore_duration: Span::zero(),
        publication_duration,
        metadata_lookup_duration,
        fingerprint_duration: Span::zero(),
        file_read_duration: Span::zero(),
    }
}

/// The name of a file that something is written to before it takes its place.
pub open spec fn temporary_name(name: Seq<char>, process: u32, sequence: u64) -> Seq<char> {
    "."@ + name + ".tmp-"@ + text::decimal(process as nat) + "-"@ + text::decimal(sequence as nat)
}

/// The name of a file that something is written to before it takes its place.
pub fn temporary_file_name(name: &str, process: u32, sequence: u64) -> (temporary: String)
    ensures
        temporary@ == temporary_name(name@, process, sequence),
{
    let front = concat3(".", name, ".tmp-");
    let id = decimal_string(process as u64);
    let number = decimal_string(sequence);
    let back = concat3(id.as_str(), "-", number.as_str());
    let temporary = concat2(front.as_str(), back.as_str());
    proof {
        assert(temporary@ =~= temporary_name(name@, process, sequence));
    }
    temporary
}

/// A compiled artifact in the cache: when it was last written, in nanoseconds
/// since the start of 1970, how large it is, and the directory it is in.
#[derive(Debug)]
pub struct CachedFile {
    pub modified: i128,
    pub size: u64,
    pub directory: String,
}

/// Older files come first.
pub open spec fn older() -> spec_fn(CachedFile, CachedFile) -> bool {
    |a: CachedFile, b: CachedFile| a.modified < b.modified
}

/// The size of several files together.
pub open spec fn total_size(files: Seq<CachedFile>) -> int
    decreases files.len(),
{
    if files.len() == 0 {
        0
    } else {
        total_size(files.drop_last()) + files.last().size
    }
}

/// How many files, from the first on, have to go so that the rest of them is
/// not larger than allowed.
pub open spec fn surplus(files: Seq<CachedFile>, total: int, allowed: int) -> nat
    decreases files.len(),
{
    if files.len() == 0 || total <= allowed {
        0
    } else {
        1 + surplus(files.skip(1), total - files[0].size, allowed)
    }
}

proof fn lemma_total_permuted(a: Seq<CachedFile>, b: Seq<CachedFile>)
    requires
        a.to_multiset() == b.to_multiset(),
    ensures
        total_size(a) == total_size(b),
    decreases a.len(),
{
    broadcast use vstd::seq_lib::group_to_multiset_ensures;

    if a.len() == 0 {
        assert(b.len() == a.to_multiset().len());
    } else {
        let x = a.last();
        assert(a =~= a.drop_last().push(x));
        assert(a.to_multiset().count(x) > 0);
        assert(b.contains(x));
        let k = choose|k: int| 0 <= k < b.len() && b[k] == x;
        lemma_total_removed(b, k);
        assert(b.remove(k).to_multiset() =~= b.to_multiset().remove(x));
        assert(a.drop_last().to_multiset() =~= a.to_multiset().remove(x));
        lemma_total_permuted(a.drop_last(), b.remove(k));
    }
}

proof fn lemma_total_removed(a: Seq<CachedFile>, k: int)
    requires
        0 <= k < a.len(),
    ensures
        total_size(a) == total_size(a.remove(k)) + a[k].size,
    decreases a.len(),
{
    if k == a.len() - 1 {
        assert(a.remove(k) =~= a.drop_last());
    } else {
        lemma_total_removed(a.drop_last(), k);
        assert(a.remove(k).drop_last() =~= a.drop_last().remove(k));
        assert(a.remove(k).last() == a.last());
    }
}

proof fn lemma_total_nonnegative(files: Seq<CachedFile>)
    ensures
        total_size(files) >= 0,
    decreases files.len(),
{
    if files.len() > 0 {
        lemma_total_nonnegative(files.drop_last());
    }
}

proof fn lemma_total_first(files: Seq<CachedFile>)
    requires
        files.len() > 0,
    ensures
        total_size(files) == files[0].size + total_size(files.skip(1)),
{
    lemma_total_removed(files, 0);
    assert(files.remove(0) =~= files.skip(1));
}

proof fn lemma_total_prefix(files: Seq<CachedFile>, n: int)
    requires
        0 <= n <= files.len(),
    ensures
        total_size(files.take(n)) <= total_size(files),
    decreases files.len(),
{
    if n < files.len() {
        lemma_total_prefix(files.drop_last(), n);
        assert(files.drop_last().take(n) =~= files.take(n));
    } else {
        assert(files.take(n) =~= files);
    }
}

/// The files that go, oldest first, together with what was asked of them.
pub open spec fn evicted(files: Seq<CachedFile>, allowed: int) -> Seq<CachedFile> {
    let sorted = order::in_order(files, older());
    sorted.take(surplus(sorted, total_size(files), allowed) as int)
}

/// The files that stay, oldest first.
pub open spec fn retained(files: Seq<CachedFile>, allowed: int) -> Seq<CachedFile> {
    let sorted = order::in_order(files, older());
    sorted.skip(surplus(sorted, total_size(files), allowed) as int)
}

proof fn lemma_surplus(files: Seq<CachedFile>, total: int, allowed: int)
    requires
        total == total_size(files),
        allowed >= 0,
    ensures
        surplus(files, total, allowed) <= files.len(),
        total_size(files.skip(surplus(files, total, allowed) as int)) <= allowed,
        forall|n: int|
            0 <= n < surplus(files, total, allowed) ==> total_size(#[trigger] files.skip(n))
                > allowed,
    decreases files.len(),
{
    let count = surplus(files, total, allowed);
    if files.len() == 0 || total <= allowed {
        assert(files.skip(0) =~= files);
    } else {
        lemma_total_first(files);
        let rest = files.skip(1);
        lemma_surplus(rest, total - files[0].size, allowed);
        assert(files.skip(count as int) =~= rest.skip(count - 1));
        assert forall|n: int| 0 <= n < count implies total_size(#[trigger] files.skip(n))
            > allowed by {
            if n == 0 {
                assert(files.skip(0) =~= files);
            } else {
                assert(files.skip(n) =~= rest.skip(n - 1));
            }
        }
    }
}

/// After an eviction the cache is not larger than allowed, nothing went without
/// need, and no file that went is newer than one that stays.
pub proof fn law_eviction_is_least(files: Seq<CachedFile>, allowed: int)
    requires
        allowed >= 0,
    ensures
        total_size(retained(files, allowed)) <= allowed,
        total_size(files) <= allowed ==> evicted(files, allowed).len() == 0,
        evicted(files, allowed).len() > 0 ==> total_size(
            retained(files, allowed),
        ) + evicted(files, allowed).last().size > allowed,
        (evicted(files, allowed) + retained(files, allowed)).to_multiset()
            == files.to_multiset(),
        forall|i: int, j: int|
            0 <= i < evicted(files, allowed).len() && 0 <= j < retained(files, allowed).len()
                ==> (#[trigger] evicted(files, allowed)[i]).modified <= (
            #[trigger] retained(files, allowed)[j]).modified,
{
    let sorted = order::in_order(files, older());
    order::lemma_in_order(files, older());
    lemma_total_permuted(sorted, files);
    let count = surplus(sorted, total_size(files), allowed) as int;
    lemma_surplus(sorted, total_size(files), allowed);
    assert(sorted.take(count) + sorted.skip(count) =~= sorted);
    if count > 0 {
        lemma_total_first(sorted.skip(count - 1));
        assert(sorted.skip(count - 1).skip(1) =~= sorted.skip(count));
    }
    assert forall|i: int, j: int|
        0 <= i < count && 0 <= j < sorted.len() - count implies (
    #[trigger] sorted.take(count)[i]).modified <= (
    #[trigger] sorted.skip(count)[j]).modified by {
        assert(!older()(sorted[count + j], sorted[i]));
    }
}

/// The directories that are removed so that the cache is not larger than
/// allowed: those of the oldest files.
pub fn eviction_plan(files: Vec<CachedFile>, allowed: u64) -> (directories: Vec<String>)
    requires
        total_size(files@) <= u64::MAX,
    ensures
        text::texts(directories@) == evicted(files@, allowed as int).map_values(
            |file: CachedFile| file.directory@,
        ),
{
    let ghost given = files@;
    let count = files.len();
    let mut total: u64 = 0;
    let mut i: usize = 0;
    proof {
        assert(given.take(0) =~= Seq::<CachedFile>::empty());
    }
    while i < count
        invariant
            i <= count,
            count == given.len(),
            files@ == given,
            total == total_size(given.take(i as int)),
            total_size(given) <= u64::MAX,
        decreases count - i,
    {
        proof {
            assert(given.take(i + 1).drop_last() =~= given.take(i as int));
            lemma_total_prefix(given, i + 1);
        }
        total = total + files[i].size;
        i += 1;
    }
    proof {
        assert(given.take(count as int) =~= given);
    }
    let earlier = |a: &CachedFile, b: &CachedFile| -> (is: bool)
        ensures
            is == (a.modified < b.modified),
        { a.modified < b.modified };
    let sorted = sort(files, earlier, Ghost(older()));
    let ghost ranked = sorted@;
    let ghost whole = total as int;
    proof {
        order::lemma_in_order(given, older());
        lemma_total_permuted(ranked, given);
        assert(ranked.skip(0) =~= ranked);
    }
    let mut directories: Vec<String> = Vec::new();
    let mut k: usize = 0;
    while k < sorted.len() && total > allowed
        invariant
            k <= sorted@.len(),
            sorted@ == ranked,
            total == total_size(ranked.skip(k as int)),
            k + surplus(ranked.skip(k as int), total as int, allowed as int) == surplus(
                ranked,
                whole,
                allowed as int,
            ),
            directories@.len() == k,
            forall|j: int| 0 <= j < k ==> (#[trigger] directories@[j])@ == ranked[j].directory@,
        decreases sorted@.len() - k,
    {
        proof {
            lemma_total_first(ranked.skip(k as int));
            lemma_total_nonnegative(ranked.skip(k as int).skip(1));
            assert(ranked.skip(k as int).skip(1) =~= ranked.skip(k + 1));
            assert(ranked.skip(k as int)[0] == ranked[k as int]);
        }
        directories.push(sorted[k].directory.clone());
        total = total - sorted[k].size;
        k += 1;
    }
    proof {
        let gone = evicted(given, allowed as int);
        assert(gone.len() == k);
        assert(text::texts(directories@) =~= gone.map_values(|file: CachedFile| file.directory@));
    }
    directories
}

/// One entry of a digest in the cache, as the host found it: the name of its
/// directory, the size of its compiled artifact and its metadata, as far as
/// each could be read.
#[derive(Debug)]
pub struct WarmEntry {
    pub directory_name: Option<String>,
    pub compiled_size: Option<u64>,
    pub metadata: Option<CompiledCacheMetadata>,
}

/// The entries of a digest in the cache. The name of a directory that is no
/// text is not known.
#[derive(Debug)]
pub struct DigestDirectory {
    pub name: Option<String>,
    pub entries: Vec<WarmEntry>,
}

/// Whether an entry can be restored on this machine for the digest whose
/// directory it is in.
pub open spec fn is_warm(entry: WarmEntry, name: Seq<char>, platform: HostPlatform) -> bool {
    &&& entry.compiled_size matches Some(size)
    &&& entry.metadata matches Some(metadata)
    &&& metadata.schema_version == COMPILED_CACHE_SCHEMA
    &&& metadata.artifact_digest@ == "sha256:"@ + name
    &&& text::optional_text(entry.directory_name) == Some(metadata.fingerprint@)
    &&& metadata.wasmtime@ == wasmtime_version()
    &&& metadata.target@ == platform.target()
    &&& metadata.architecture@ == platform.architecture@
    &&& metadata.compiled_size_bytes == size
    &&& size != 0
}

/// Whether a digest has an entry that can be restored.
pub open spec fn has_warm_entry(directory: DigestDirectory, platform: HostPlatform) -> bool {
    directory.name matches Some(name) && exists|i: int|
        0 <= i < directory.entries@.len() && is_warm(
            #[trigger] directory.entries@[i],
            name@,
            platform,
        )
}

/// An entry that is found where it was published is warm.
pub proof fn law_published_entries_are_warm(
    metadata: CompiledCacheMetadata,
    key: CacheKey,
    wasm_size: int,
    compiled_size: u64,
    directory_name: String,
    name: Seq<char>,
)
    requires
        compiled_size > 0,
        describes(metadata, key, wasm_size, compiled_size as int),
        key.digest@ == "sha256:"@ + name,
        directory_name@ == key.fingerprint@,
    ensures
        is_warm(
            WarmEntry {
                directory_name: Some(directory_name),
                compiled_size: Some(compiled_size),
                metadata: Some(metadata),
            },
            name,
            key.platform,
        ),
{
}

/// The digests that have an entry that can be restored.
pub open spec fn warm_names(directories: Seq<DigestDirectory>, platform: HostPlatform) -> Seq<
    Seq<char>,
>
    decreases directories.len(),
{
    if directories.len() == 0 {
        Seq::empty()
    } else {
        let rest = warm_names(directories.drop_last(), platform);
        if has_warm_entry(directories.last(), platform) {
            rest.push("sha256:"@ + directories.last().name->0@)
        } else {
            rest
        }
    }
}

fn entry_is_warm(entry: &WarmEntry, name: &str, platform: &HostPlatform) -> (warm: bool)
    ensures
        warm == is_warm(*entry, name@, *platform),
{
    let size = match &entry.compiled_size {
        Some(size) => *size,
        None => {
            return false;
        },
    };
    let metadata = match &entry.metadata {
        Some(metadata) => metadata,
        None => {
            return false;
        },
    };
    let directory_name = match &entry.directory_name {
        Some(name) => name,
        None => {
            return false;
        },
    };
    let digest = concat2("sha256:", name);
    let target = platform.target_name();
    metadata.schema_version == COMPILED_CACHE_SCHEMA && same(
        metadata.artifact_digest.as_str(),
        digest.as_str(),
    ) && same(directory_name.as_str(), metadata.fingerprint.as_str()) && same(
        metadata.wasmtime.as_str(),
        "39.0.2",
    ) && same(metadata.target.as_str(), target.as_str()) && same(
        metadata.architecture.as_str(),
        platform.architecture.as_str(),
    ) && metadata.compiled_size_bytes == size && size != 0
}

fn directory_is_warm(directory: &DigestDirectory, platform: &HostPlatform) -> (warm: bool)
    ensures
        warm == has_warm_entry(*directory, *platform),
{
    let name = match &directory.name {
        Some(name) => name,
        None => {
            return false;
        },
    };
    let count = directory.entries.len();
    let mut i: usize = 0;
    while i < count
        invariant
            i <= count,
            count == directory.entries@.len(),
            directory.name == Some(*name),
            forall|k: int|
                0 <= k < i ==> !is_warm(#[trigger] directory.entries@[k], name@, *platform),
        decreases count - i,
    {
        if entry_is_warm(&directory.entries[i], name.as_str(), platform) {
            return true;
        }
        i += 1;
    }
    false
}

/// The digests that can be restored on this machine, each once and in order.
pub fn warm_digests(directories: &Vec<DigestDirectory>, platform: &HostPlatform) -> (digests: Vec<
    String,
>)
    ensures
        names::lists(text::texts(digests@), warm_names(directories@, *platform)),
{
    let count = directories.len();
    let mut found: Vec<String> = Vec::new();
    let mut i: usize = 0;
    proof {
        assert(directories@.take(0) =~= Seq::<DigestDirectory>::empty());
        assert(text::texts(found@) =~= Seq::<Seq<char>>::empty());
    }
    while i < count
        invariant
            i <= count,
            count == directories@.len(),
            text::texts(found@) == warm_names(directories@.take(i as int), *platform),
        decreases count - i,
    {
        let ghost before = found@;
        proof {
            assert(directories@.take(i + 1).drop_last() =~= directories@.take(i as int));
        }
        if directory_is_warm(&directories[i], platform) {
            if let Some(name) = &directories[i].name {
                found.push(concat2("sha256:", name.as_str()));
                proof {
                    assert(text::texts(found@) =~= text::texts(before).push("sha256:"@ + name@));
                }
            }
        }
        i += 1;
    }
    proof {
        assert(directories@.take(count as int) =~= directories@);
    }
    distinct_in_order(found)
}

/// A compiled artifact is restored exactly where its metadata could be read, say
/// of every part what was asked for, in this layout and for this engine, and give
/// the size of the compiled artifact, which is not empty. Where nothing was found
/// it is compiled, and everything else that is found is replaced.
pub proof fn law_entries_are_restored_as_described(
    lookup: CacheLookup,
    key: CacheKey,
    wasm_size: u64,
    step: CacheStep,
)
    requires
        call_ensures(cache_step, (&lookup, &key, wasm_size), step),
    ensures
        step == CacheStep::Compile <==> lookup is Absent,
        step == CacheStep::Restore <==> {
            &&& lookup matches CacheLookup::Present {
                metadata: Some(metadata),
                compiled_size: Some(size),
            }
            &&& size > 0
            &&& metadata.schema_version == 2
            &&& metadata.wasmtime@ == "39.0.2"@
            &&& metadata.artifact_digest@ == key.digest@
            &&& metadata.fingerprint@ == key.fingerprint@
            &&& metadata.target@ == key.platform.architecture@ + "-"@ + key.platform.os@ + "-"@
                + key.platform.family@
            &&& metadata.architecture@ == key.platform.architecture@
            &&& metadata.format@ == match key.format {
                ArtifactFormat::CoreModule => "core-module"@,
                ArtifactFormat::Component => "component"@,
            }
            &&& metadata.world@ == key.world@
            &&& metadata.wasm_size_bytes == wasm_size
            &&& metadata.compiled_size_bytes == size
        },
{
}

/// What is written beside a compiled artifact lets it be restored, by who asks for
/// the same and finds the compiled artifact whole.
pub proof fn law_new_entries_are_restored(
    key: CacheKey,
    wasm_size: u64,
    compiled_size: u64,
    metadata: CompiledCacheMetadata,
    step: CacheStep,
)
    requires
        compiled_size > 0,
        call_ensures(new_metadata, (&key, wasm_size, compiled_size), metadata),
        call_ensures(
            cache_step,
            (
                &(CacheLookup::Present {
                    metadata: Some(metadata),
                    compiled_size: Some(compiled_size),
                }),
                &key,
                wasm_size,
            ),
            step,
        ),
    ensures
        step == CacheStep::Restore,
{
}

/// A digest can be restored on a machine exactly where its directory holds an entry
/// whose metadata are of this layout and this engine, name that digest and the
/// entry's own directory, are for that machine, and give the size of its compiled
/// artifact, which is not empty.
pub proof fn law_warm_digests_have_an_entry(
    directories: Seq<DigestDirectory>,
    platform: HostPlatform,
    digest: Seq<char>,
)
    ensures
        warm_names(directories, platform).contains(digest) <==> exists|i: int, k: int|
            {
                &&& 0 <= i < directories.len()
                &&& 0 <= k < directories[i].entries@.len()
                &&& directories[i].name is Some
                &&& digest == "sha256:"@ + directories[i].name->0@
                &&& is_usable_entry(
                    #[trigger] directories[i].entries@[k],
                    directories[i].name->0@,
                    platform,
                )
            },
    decreases directories.len(),
{
    if directories.len() > 0 {
        let front = directories.drop_last();
        let at = directories.len() - 1;
        let last = directories.last();
        law_warm_digests_have_an_entry(front, platform, digest);
        let before = warm_names(front, platform);
        let all = warm_names(directories, platform);
        if before.contains(digest) {
            let n = choose|n: int| 0 <= n < before.len() && before[n] == digest;
            assert(all[n] == digest);
            let (i, k) = choose|i: int, k: int|
                {
                    &&& 0 <= i < front.len()
                    &&& 0 <= k < front[i].entries@.len()
                    &&& front[i].name is Some
                    &&& digest == "sha256:"@ + front[i].name->0@
                    &&& is_usable_entry(
                        #[trigger] front[i].entries@[k],
                        front[i].name->0@,
                        platform,
                    )
                };
            assert(directories[i] == front[i]);
            assert(is_usable_entry(
                directories[i].entries@[k],
                directories[i].name->0@,
                platform,
            ));
        } else {
            if all.contains(digest) {
                let n = choose|n: int| 0 <= n < all.len() && all[n] == digest;
                if n < before.len() {
                    assert(before[n] == digest);
                }
                let name = last.name->0@;
                let k = choose|k: int|
                    0 <= k < last.entries@.len() && is_warm(
                        #[trigger] last.entries@[k],
                        name,
                        platform,
                    );
                assert(directories[at] == last);
                assert(is_usable_entry(
                    directories[at].entries@[k],
                    directories[at].name->0@,
                    platform,
                ));
            }
            if exists|i: int, k: int|
                {
                    &&& 0 <= i < directories.len()
                    &&& 0 <= k < directories[i].entries@.len()
                    &&& directories[i].name is Some
                    &&& digest == "sha256:"@ + directories[i].name->0@
                    &&& is_usable_entry(
                        #[trigger] directories[i].entries@[k],
                        directories[i].name->0@,
                        platform,
                    )
                } {
                let (i, k) = choose|i: int, k: int|
                    {
                        &&& 0 <= i < directories.len()
                        &&& 0 <= k < directories[i].entries@.len()
                        &&& directories[i].name is Some
                        &&& digest == "sha256:"@ + directories[i].name->0@
                        &&& is_usable_entry(
                            #[trigger] directories[i].entries@[k],
                            directories[i].name->0@,
                            platform,
                        )
                    };
                if i < at {
                    assert(front[i] == directories[i]);
                    assert(is_usable_entry(front[i].entries@[k], front[i].name->0@, platform));
                } else {
                    assert(is_warm(last.entries@[k], last.name->0@, platform));
                    assert(all[all.len() - 1] == digest);
                }
            }
        }
    }
}

/// Whether an entry is whole and was made for a digest and a machine.
pub open spec fn is_usable_entry(
    entry: WarmEntry,
    name: Seq<char>,
    platform: HostPlatform,
) -> bool {
    &&& entry.compiled_size is Some
    &&& entry.compiled_size->0 > 0
    &&& entry.metadata is Some
    &&& entry.directory_name is Some
    &&& entry.metadata->0.schema_version == 2
    &&& entry.metadata->0.wasmtime@ == "39.0.2"@
    &&& entry.metadata->0.artifact_digest@ == "sha256:"@ + name
    &&& entry.metadata->0.fingerprint@ == entry.directory_name->0@
    &&& entry.metadata->0.target@ == platform.architecture@ + "-"@ + platform.os@ + "-"@
        + platform.family@
    &&& entry.metadata->0.architecture@ == platform.architecture@
    &&& entry.metadata->0.compiled_size_bytes == entry.compiled_size->0
}

/// The size of files is the sum of their sizes.
pub proof fn law_sizes_add_up(files: Seq<CachedFile>, others: Seq<CachedFile>, file: CachedFile)
    ensures
        total_size(files + others) == total_size(files) + total_size(others),
        total_size(seq![file]) == file.size,
        total_size(Seq::<CachedFile>::empty()) == 0,
    decreases others.len(),
{
    assert(seq![file].drop_last() =~= Seq::<CachedFile>::empty());
    assert(total_size(Seq::<CachedFile>::empty()) == 0);
    assert(seq![file].last() == file);
    if others.len() == 0 {
        assert(files + others =~= files);
    } else {
        assert((files + others).drop_last() =~= files + others.drop_last());
        law_sizes_add_up(files, others.drop_last(), file);
    }
}

/// The directories that are removed are those of the files that have to go, one
/// for each, the oldest first: as many as it takes, and no more.
pub proof fn law_the_oldest_directories_go(
    files: Vec<CachedFile>,
    allowed: u64,
    directories: Vec<String>,
)
    requires
        call_ensures(eviction_plan, (files, allowed), directories),
    ensures
        total_size(files@) <= allowed <==> directories@.len() == 0,
        directories@.len() <= files@.len(),
        forall|k: int|
            0 <= k < directories@.len() ==> exists|i: int|
                0 <= i < files@.len() && (#[trigger] files@[i]).directory@ == (
                #[trigger] directories@[k])@,
{
    broadcast use vstd::seq_lib::group_to_multiset_ensures;

    let gone = evicted(files@, allowed as int);
    let kept = retained(files@, allowed as int);
    law_eviction_is_least(files@, allowed as int);
    let names = text::texts(directories@);
    assert(names.len() == gone.len());
    assert((gone + kept).len() == files@.len()) by {
        assert((gone + kept).to_multiset().len() == files@.to_multiset().len());
    }
    if gone.len() == 0 {
        assert(gone + kept =~= kept);
        lemma_same_total(kept, files@);
    }
    assert forall|k: int| 0 <= k < directories@.len() implies exists|i: int|
        0 <= i < files@.len() && (#[trigger] files@[i]).directory@ == (
        #[trigger] directories@[k])@ by {
        assert(names[k] == directories@[k]@);
        assert(names[k] == gone[k].directory@);
        assert((gone + kept)[k] == gone[k]);
        assert((gone + kept).contains(gone[k]));
        assert((gone + kept).to_multiset().count(gone[k]) > 0);
        assert(files@.to_multiset().count(gone[k]) > 0);
        assert(files@.contains(gone[k]));
        let i = choose|i: int| 0 <= i < files@.len() && files@[i] == gone[k];
        assert(files@[i].directory@ == directories@[k]@);
    }
}

proof fn lemma_same_total(a: Seq<CachedFile>, b: Seq<CachedFile>)
    requires
        a.to_multiset() == b.to_multiset(),
    ensures
        total_size(a) == total_size(b),
    decreases a.len(),
{
    broadcast use vstd::seq_lib::group_to_multiset_ensures;

    assert(a.to_multiset().len() == b.to_multiset().len());
    if a.len() > 0 {
        let x = a.last();
        let front = a.drop_last();
        assert(a =~= front.push(x));
        assert(a.contains(x));
        assert(b.to_multiset().count(x) > 0);
        assert(b.contains(x));
        let k = choose|k: int| 0 <= k < b.len() && b[k] == x;
        let rest = b.remove(k);
        assert(rest.to_multiset() =~= b.to_multiset().remove(x));
        assert(front.to_multiset() =~= a.to_multiset().remove(x));
        lemma_same_total(front, rest);
        let (head, tail) = (b.take(k), b.skip(k + 1));
        assert(rest =~= head + tail);
        assert(b =~= head + seq![x] + tail);
        law_sizes_add_up(head, tail, x);
        law_sizes_add_up(head, seq![x], x);
        law_sizes_add_up(head + seq![x], tail, x);
        assert(total_size(b) == total_size(head) + x.size + total_size(tail));
        assert(total_size(rest) == total_size(head) + total_size(tail));
        assert(total_size(a) == total_size(front) + x.size);
    } else if b.len() > 0 {
        assert(b.contains(b[0]));
        assert(b.to_multiset().count(b[0]) > 0);
        assert(a.to_multiset().count(b[0]) > 0);
        assert(a.contains(b[0]));
    }
}

/// A character stands for itself in JSON, unless it is a quote, a backslash or a
/// control character: those are written behind a backslash, each in its own way.
pub proof fn law_json_escapes(c: char)
    ensures
        c != '"' && c != '\\' && c as u32 >= 0x20 ==> json_char(c) == seq![c],
        c == '"' || c == '\\' ==> json_char(c) == seq!['\\', c],
        c == '\n' ==> json_char(c) == seq!['\\', 'n'],
        c == '\r' ==> json_char(c) == seq!['\\', 'r'],
        c == '\t' ==> json_char(c) == seq!['\\', 't'],
        c as u32 == 0x8 ==> json_char(c) == seq!['\\', 'b'],
        c as u32 == 0xc ==> json_char(c) == seq!['\\', 'f'],
        (c as u32) < 0x20 ==> json_char(c)[0] == '\\',
        (c as u32) < 0x20 && json_char(c).len() != 2 ==> {
            &&& json_char(c).len() == 6
            &&& json_char(c)[1] == 'u' && json_char(c)[2] == '0' && json_char(c)[3] == '0'
            &&& 16 * text::hex_value(json_char(c)[4]) + text::hex_value(json_char(c)[5])
                == c as u32
        },
{
    if (c as u32) < 0x20 {
        let one = seq![c as u8];
        text::law_hex_can_be_read_back(one);
        let digits = text::hex(one);
        assert(one[0] == c as u32);
        assert(16 * text::hex_value(digits[0]) + text::hex_value(digits[1]) == one[0]);
    }
}

/// Texts are written in JSON character by character.
pub proof fn law_json_texts_are_written_by_character(before: Seq<char>, after: Seq<char>, c: char)
    ensures
        json_chars(before + after) == json_chars(before) + json_chars(after),
        json_chars(seq![c]) == json_char(c),
        json_text(before).len() == json_chars(before).len() + 2,
        json_text(before)[0] == '"',
        json_text(before).last() == '"',
    decreases after.len(),
{
    assert(seq![c].drop_last() =~= Seq::<char>::empty());
    assert(json_chars(Seq::<char>::empty()) =~= Seq::<char>::empty());
    assert(json_chars(seq![c]) =~= json_char(c));
    if after.len() == 0 {
        assert(before + after =~= before);
        assert(json_chars(before) + json_chars(after) =~= json_chars(before));
    } else {
        assert((before + after).drop_last() =~= before + after.drop_last());
        law_json_texts_are_written_by_character(before, after.drop_last(), c);
        assert(json_chars(before) + json_chars(after) =~= json_chars(before) + json_chars(
            after.drop_last(),
        ) + json_char(after.last()));
    }
}

/// Numbers are written in bytes from the highest to the lowest: one more byte
/// stands for the number times two hundred and fifty-six, and that byte.
pub proof fn law_numbers_are_written_in_bytes(n: nat, byte: u8, count: nat)
    ensures
        bytes_of(256 * n + byte as nat, count + 1) == bytes_of(n, count).push(byte),
        bytes_of(n, count).len() == count,
    decreases count,
{
    assert((256 * n + byte as nat) / 256 == n);
    assert((256 * n + byte as nat) % 256 == byte as nat);
    if count > 0 {
        law_numbers_are_written_in_bytes(n / 256, byte, (count - 1) as nat);
    }
}

/// A digest is named with or without the name of its algorithm, which makes no
/// difference.
pub proof fn law_digests_are_named_with_or_without_their_algorithm(name: Seq<char>)
    ensures
        bare_digest("sha256:"@ + name) == name,
        !"sha256:"@.is_prefix_of(name) ==> bare_digest(name) == name,
{
    let prefix = "sha256:"@;
    let whole = prefix + name;
    assert(whole.take(prefix.len() as int) =~= prefix);
    assert(whole.skip(prefix.len() as int) =~= name);
    if text::starts_with(name, prefix) {
        assert(prefix =~= name.take(prefix.len() as int));
    }
}

/// An entry lies under the root, the algorithm, the first two characters of its
/// digest, its digest and the name of its engine, each in a directory of its own.
pub proof fn law_entries_lie_under_their_digest(
    root: Seq<char>,
    digest: Seq<char>,
    fingerprint: Seq<char>,
)
    requires
        root.len() > 0,
        root.last() != '/',
        digest.len() >= 2,
        forall|i: int| 0 <= i < digest.len() ==> ('0' <= (#[trigger] digest[i]) <= '9' || 'a'
            <= digest[i] <= 'f'),
        fingerprint.len() > 0,
        fingerprint[0] != '/',
    ensures
        entry_directory(root, "sha256:"@ + digest, fingerprint) == root + "/sha256/"@
            + digest.take(2) + "/"@ + digest + "/"@ + fingerprint,
{
    reveal_strlit("sha256");
    reveal_strlit("/sha256/");
    reveal_strlit("/");
    law_digests_are_named_with_or_without_their_algorithm(digest);
    assert('0' <= digest[0] <= '9' || 'a' <= digest[0] <= 'f');
    assert('0' <= digest[1] <= '9' || 'a' <= digest[1] <= 'f');
    assert(first_two_bytes(digest) == Some(digest.take(2)));
    let last = digest.len() - 1;
    assert('0' <= digest[last] <= '9' || 'a' <= digest[last] <= 'f');
    assert(digest.take(2)[0] == digest[0]);
    assert(digest.take(2).last() == digest[1]);
    let a = path::joined(root, "sha256"@);
    assert(a.last() == '6');
    let b = path::joined(a, digest.take(2));
    assert(b.last() == digest[1]);
    let c = path::joined(b, digest);
    assert(c.last() == digest[last]);
    assert(entry_directory(root, "sha256:"@ + digest, fingerprint) =~= root + "/sha256/"@
        + digest.take(2) + "/"@ + digest + "/"@ + fingerprint);
}

/// No two writers share a temporary file: its name tells the process and the count
/// of what that process wrote. It is hidden, and never the name of what is written.
pub proof fn law_temporary_files_are_apart(
    name: Seq<char>,
    process: u32,
    sequence: u64,
    other_process: u32,
    other_sequence: u64,
)
    ensures
        temporary_name(name, process, sequence) == temporary_name(
            name,
            other_process,
            other_sequence,
        ) <==> process == other_process && sequence == other_sequence,
        temporary_name(name, process, sequence)[0] == '.',
        temporary_name(name, process, sequence) != name,
{
    reveal_strlit(".");
    reveal_strlit(".tmp-");
    reveal_strlit("-");
    let here = temporary_name(name, process, sequence);
    let there = temporary_name(name, other_process, other_sequence);
    let common = "."@ + name + ".tmp-"@;
    lemma_numbers_apart(process as nat, sequence as nat);
    lemma_numbers_apart(other_process as nat, other_sequence as nat);
    let (p, q) = (text::decimal(process as nat), text::decimal(other_process as nat));
    let (s, t) = (text::decimal(sequence as nat), text::decimal(other_sequence as nat));
    assert(here =~= common + (p.push('-') + s));
    assert(there =~= common + (q.push('-') + t));
    assert(here.len() > name.len());
    if here == there {
        assert(here.skip(common.len() as int) =~= p.push('-') + s);
        assert(there.skip(common.len() as int) =~= q.push('-') + t);
        assert(p == q && s == t);
        number::law_decimals_are_read_back(process as nat, u64::MAX as nat);
        number::law_decimals_are_read_back(other_process as nat, u64::MAX as nat);
        number::law_decimals_are_read_back(sequence as nat, u64::MAX as nat);
        number::law_decimals_are_read_back(other_sequence as nat, u64::MAX as nat);
    }
}

proof fn lemma_numbers_apart(process: nat, sequence: nat)
    ensures
        text::split_first(
            text::decimal(process).push('-') + text::decimal(sequence),
            '-',
        ) == Some((text::decimal(process), text::decimal(sequence))),
{
    number::law_decimals_are_read_back(process, process);
    let digits = text::decimal(process);
    assert(!digits.contains('-')) by {
        if digits.contains('-') {
            let i = choose|i: int| 0 <= i < digits.len() && digits[i] == '-';
            assert('0' <= digits[i] <= '9');
        }
    }
    text::law_split_parts_come_back(digits, '-', text::decimal(sequence));
}

/// The cache is under the cache directory of the host, or else under the home
/// directory, and cannot be placed exactly where there is neither.
pub proof fn law_caches_have_a_place(
    cache_home: Option<String>,
    home: Option<String>,
    root: Result<String, Failure>,
)
    requires
        call_ensures(CompiledCacheConfig::default_root, (cache_home, home), root),
    ensures
        root is Ok <==> cache_home is Some || home is Some,
        cache_home is Some && cache_home->0@.len() > 0 && cache_home->0@.last() != '/' ==> root->Ok_0@
            == cache_home->0@ + "/pit/compiled"@,
        cache_home is None && home is Some && home->0@.len() > 0 && home->0@.last() != '/'
            ==> root->Ok_0@ == home->0@ + "/.cache/pit/compiled"@,
{
    reveal_strlit("pit/compiled");
    reveal_strlit("/pit/compiled");
    reveal_strlit(".cache/pit/compiled");
    reveal_strlit("/.cache/pit/compiled");
    if let Some(base) = cache_home {
        assert(base@ + seq!['/'] + "pit/compiled"@ =~= base@ + "/pit/compiled"@);
    } else if let Some(base) = home {
        assert(base@ + seq!['/'] + ".cache/pit/compiled"@ =~= base@ + "/.cache/pit/compiled"@);
    }
}

proof fn lemma_plain_json(s: Seq<char>)
    requires
        forall|i: int|
            0 <= i < s.len() ==> (#[trigger] s[i]) != '"' && s[i] != '\\' && s[i] as u32 >= 0x20,
    ensures
        json_chars(s) == s,
    decreases s.len(),
{
    if s.len() > 0 {
        let front = s.drop_last();
        assert forall|i: int| 0 <= i < front.len() implies (#[trigger] front[i]) != '"' && front[i]
            != '\\' && front[i] as u32 >= 0x20 by {
            assert(front[i] == s[i]);
        }
        lemma_plain_json(front);
        let c = s[s.len() - 1];
        assert(c != '"' && c != '\\' && c as u32 >= 0x20);
        law_json_escapes(c);
        assert(front + seq![c] =~= s);
    } else {
        assert(json_chars(s) =~= s);
    }
}

/// A text without quotes, backslashes and control characters stands in JSON as it
/// is, between two quotes.
pub proof fn law_plain_texts_stand_in_json(s: Seq<char>)
    requires
        forall|i: int|
            0 <= i < s.len() ==> (#[trigger] s[i]) != '"' && s[i] != '\\' && s[i] as u32 >= 0x20,
    ensures
        json_text(s) == seq!['"'] + s + seq!['"'],
{
    lemma_plain_json(s);
}

/// The fingerprint of what is compiled names this layout and this engine, the
/// machine, the format and the world, and the engine's hash in sixteen digits.
pub proof fn law_fingerprints_name_what_is_compiled(
    engine_hash: u64,
    format: ArtifactFormat,
    world: &str,
    platform: HostPlatform,
    fingerprint: CompileFingerprint,
)
    requires
        call_ensures(
            CompileFingerprint::for_engine,
            (engine_hash, format, world, &platform),
            fingerprint,
        ),
    ensures
        fingerprint.schema_version == 2,
        fingerprint.wasmtime@ == "39.0.2"@,
        fingerprint.target@ == platform.architecture@ + "-"@ + platform.os@ + "-"@
            + platform.family@,
        fingerprint.architecture@ == platform.architecture@,
        fingerprint.format@ == match format {
            ArtifactFormat::CoreModule => "core-module"@,
            ArtifactFormat::Component => "component"@,
        },
        fingerprint.world@ == world@,
        fingerprint.engine_compatibility_hash@.len() == 16,
{
    law_numbers_are_written_in_bytes(engine_hash as nat, 0, 8);
    text::law_hex_can_be_read_back(bytes_of(engine_hash as nat, 8));
}

proof fn lemma_join_seven(parts: Seq<Seq<char>>, separator: Seq<char>)
    requires
        parts.len() == 7,
    ensures
        text::join(parts, separator) == parts[0] + separator + parts[1] + separator + parts[2]
            + separator + parts[3] + separator + parts[4] + separator + parts[5] + separator
            + parts[6],
{
    assert(parts.drop_last() =~= parts.take(6));
    assert(parts.take(6).drop_last() =~= parts.take(5));
    assert(parts.take(5).drop_last() =~= parts.take(4));
    assert(parts.take(4).drop_last() =~= parts.take(3));
    assert(parts.take(3).drop_last() =~= parts.take(2));
    assert(parts.take(2).drop_last() =~= parts.take(1));
    reveal_with_fuel(text::join, 8);
}

/// A fingerprint is written as an object of all that it holds, each under its name
/// and in one order, and is named by the layout and the digest of that.
pub proof fn law_fingerprints_are_written_in_full(fingerprint: CompileFingerprint)
    ensures
        ({
            let version = text::decimal(fingerprint.schema_version as nat);
            let inside = json_member("schema_version"@, version) + ","@ + json_member(
                "wasmtime"@,
                json_text(fingerprint.wasmtime@),
            ) + ","@ + json_member("target"@, json_text(fingerprint.target@)) + ","@ + json_member(
                "architecture"@,
                json_text(fingerprint.architecture@),
            ) + ","@ + json_member("format"@, json_text(fingerprint.format@)) + ","@ + json_member(
                "world"@,
                json_text(fingerprint.world@),
            ) + ","@ + json_member(
                "engine_compatibility_hash"@,
                json_text(fingerprint.engine_compatibility_hash@),
            );
            &&& fingerprint.json() == "{"@ + inside + "}"@
            &&& fingerprint.named() == "v"@ + version + "-"@ + text::hex(
                digest::sha256_digest(vstd::utf8::encode_utf8("{"@ + inside + "}"@)),
            )
        }),
{
    lemma_join_seven(fingerprint.members(), ","@);
}

/// A member of an object is its name as a text, a colon and its value.
pub proof fn law_members_have_names(name: Seq<char>, value: Seq<char>)
    ensures
        ({
            let member = json_member(name, value);
            let shown = json_text(name);
            &&& member.take(shown.len() as int) == shown
            &&& member[shown.len() as int] == ':'
            &&& member.skip(shown.len() as int + 1) == value
        }),
{
    reveal_strlit(":");
    let member = json_member(name, value);
    let shown = json_text(name);
    assert(member.take(shown.len() as int) =~= shown);
    assert(member.skip(shown.len() as int + 1) =~= value);
}

/// A restored entry took no time to compile or publish, and a published one none to
/// restore or read.
pub proof fn law_entries_tell_their_times(
    path: String,
    lookup: Span,
    read: Span,
    restore: Span,
    compile: Span,
    publication: Span,
    restored: CompiledCacheEntry,
    published: CompiledCacheEntry,
)
    requires
        call_ensures(restored_entry, (path, lookup, read, restore), restored),
        call_ensures(published_entry, (path, lookup, compile, publication), published),
    ensures
        restored.path == path && published.path == path,
        restored.source is WarmRestored,
        restored.restore_duration == restore,
        restored.file_read_duration == read,
        restored.metadata_lookup_duration == lookup,
        restored.compile_duration.nanos == 0,
        restored.publication_duration.nanos == 0,
        published.source is ColdCompiled,
        published.compile_duration == compile,
        published.publication_duration == publication,
        published.metadata_lookup_duration == lookup,
        published.restore_duration.nanos == 0,
        published.file_read_duration.nanos == 0,
{
}

/// The digests that can be restored are told in order and each once, and those are
/// the ones that have an entry to be restored.
pub proof fn law_warm_digests_are_told_once(
    directories: Vec<DigestDirectory>,
    platform: HostPlatform,
    digests: Vec<String>,
    digest: Seq<char>,
)
    requires
        call_ensures(warm_digests, (&directories, &platform), digests),
    ensures
        forall|i: int, j: int|
            0 <= i < j < digests@.len() ==> text::text_before(
                (#[trigger] digests@[i])@,
                (#[trigger] digests@[j])@,
            ),
        text::texts(digests@).contains(digest) <==> exists|i: int, k: int|
            {
                &&& 0 <= i < directories@.len()
                &&& 0 <= k < directories@[i].entries@.len()
                &&& directories@[i].name is Some
                &&& digest == "sha256:"@ + directories@[i].name->0@
                &&& is_usable_entry(
                    #[trigger] directories@[i].entries@[k],
                    directories@[i].name->0@,
                    platform,
                )
            },
{
    let told = text::texts(digests@);
    assert(told.len() == digests@.len());
    law_warm_digests_have_an_entry(directories@, platform, digest);
    assert forall|i: int, j: int| 0 <= i < j < digests@.len() implies text::text_before(
        (#[trigger] digests@[i])@,
        (#[trigger] digests@[j])@,
    ) by {
        assert(text::text_before(told[i], told[j]));
    }
}

/// A cache may hold four gibibytes where nothing else is said.
pub proof fn law_caches_hold_four_gibibytes(root: String, config: CompiledCacheConfig)
    requires
        call_ensures(CompiledCacheConfig::new, (root,), config),
    ensures
        config.root == root,
        config.max_bytes == 0x1_0000_0000,
{
}

/// A compiled artifact and what is known of it lie in the directory of their entry,
/// each under a name of its own.
pub proof fn law_entries_hold_two_files(
    config: CompiledCacheConfig,
    digest: &str,
    fingerprint: &str,
    paths: (String, String),
)
    requires
        call_ensures(cache_entry_paths, (&config, digest, fingerprint), paths),
    ensures
        ({
            let directory = entry_directory(config.root@, digest@, fingerprint@);
            directory.len() > 0 && directory.last() != '/' ==> paths.0@ == directory
                + "/artifact.cwasm"@ && paths.1@ == directory + "/metadata.json"@
        }),
{
    reveal_strlit("artifact.cwasm");
    reveal_strlit("/artifact.cwasm");
    reveal_strlit("metadata.json");
    reveal_strlit("/metadata.json");
    let directory = entry_directory(config.root@, digest@, fingerprint@);
    if directory.len() > 0 && directory.last() != '/' {
        assert(paths.0@ =~= directory + "/artifact.cwasm"@);
        assert(paths.1@ =~= directory + "/metadata.json"@);
    }
}

} // verus!
