//! A copy of the language server inside the program, and where it is unpacked. The program around
//! the library says which copy it carries.
use vstd::prelude::*;

use crate::order::Key;
use crate::path::{components, joined_path, parent_of, FilePath};
use crate::text::join2;

verus! {

/// What is said of the version where the program carries no copy.
pub const TSGO_VERSION: &'static str = "unknown";

pub type PathModel = Seq<Seq<char>>;

/// What a build puts into the program: the server and an archive of its library files, both
/// compressed, the commit that they were built from and a text that tells the builds apart.
pub struct Bundle {
    pub binary: Vec<u8>,
    pub libs: Vec<u8>,
    pub commit: String,
    pub build_hash: String,
}

/// Why a copy could not be unpacked.
#[derive(Clone, Debug, PartialEq, Eq)]
pub enum EmbeddedError {
    /// The program was built without a copy.
    NotEnabled,
    /// The copy that the program was built with is empty.
    NoBinary,
    /// The copy comes without library files.
    NoLibs,
    /// The server could not be decompressed.
    Binary(String),
    /// The archive of the library files could not be decompressed.
    Libs(String),
}

pub enum EmbeddedFault {
    NotEnabled,
    NoBinary,
    NoLibs,
    Binary(Seq<char>),
    Libs(Seq<char>),
}

impl View for EmbeddedError {
    type V = EmbeddedFault;

    open spec fn view(&self) -> EmbeddedFault {
        match self {
            EmbeddedError::NotEnabled => EmbeddedFault::NotEnabled,
            EmbeddedError::NoBinary => EmbeddedFault::NoBinary,
            EmbeddedError::NoLibs => EmbeddedFault::NoLibs,
            EmbeddedError::Binary(reason) => EmbeddedFault::Binary(reason@),
            EmbeddedError::Libs(reason) => EmbeddedFault::Libs(reason@),
        }
    }
}

impl EmbeddedFault {
    pub open spec fn text(self) -> Seq<char> {
        match self {
            EmbeddedFault::NotEnabled => "bundled-tsgo feature not enabled"@,
            EmbeddedFault::NoBinary => "No embedded tsgo binary (build-time download may have failed)"@,
            EmbeddedFault::NoLibs => "No embedded TypeScript lib files"@,
            EmbeddedFault::Binary(reason) => "Failed to decompress tsgo binary: "@ + reason,
            EmbeddedFault::Libs(reason) => "Failed to decompress lib files: "@ + reason,
        }
    }
}

impl EmbeddedError {
    pub fn message(&self) -> (r: String)
        ensures
            r@ == self@.text(),
    {
        match self {
            EmbeddedError::NotEnabled => "bundled-tsgo feature not enabled".to_owned(),
            EmbeddedError::NoBinary => {
                "No embedded tsgo binary (build-time download may have failed)".to_owned()
            },
            EmbeddedError::NoLibs => "No embedded TypeScript lib files".to_owned(),
            EmbeddedError::Binary(reason) => join2(
                "Failed to decompress tsgo binary: ",
                reason.as_str(),
            ),
            EmbeddedError::Libs(reason) => join2(
                "Failed to decompress lib files: ",
                reason.as_str(),
            ),
        }
    }
}

/// A copy with something in it.
pub open spec fn is_usable(copy: Option<Bundle>) -> bool {
    copy is Some && copy->0.binary@.len() > 0
}

/// Whether the program carries a copy.
pub fn is_embedded(copy: &Option<Bundle>) -> (r: bool)
    ensures
        r == is_usable(*copy),
{
    match copy {
        Some(bundle) => bundle.binary.len() > 0,
        None => false,
    }
}

/// The directories that may hold what was unpacked: the one that is configured, the one of the
/// user and the one for temporary files.
pub struct CachePlaces {
    pub configured: Option<FilePath>,
    pub user: Option<FilePath>,
    pub temporary: FilePath,
}

impl CachePlaces {
    /// The configured directory where its path is absolute, else the one of the user, else the
    /// one for temporary files.
    pub open spec fn base(self) -> PathModel {
        match self.configured {
            Some(path) if crate::path::is_absolute(path@) => path@,
            _ => match self.user {
                Some(path) => path@,
                None => self.temporary@,
            },
        }
    }

    fn find_base(&self) -> (r: &FilePath)
        ensures
            r@ == self.base(),
    {
        match &self.configured {
            Some(path) => {
                if path.is_absolute() {
                    return path;
                }
            },
            None => {},
        }
        match &self.user {
            Some(path) => path,
            None => &self.temporary,
        }
    }
}

/// The directory below `base` for the files of one build.
pub open spec fn build_place(base: PathModel, build_hash: Seq<char>) -> PathModel {
    joined_path(
        joined_path(base, components("monoripple"@)),
        components("tsgo-"@ + build_hash),
    )
}

/// The directory that a copy is unpacked in.
pub fn get_cache_dir(copy: &Option<Bundle>, places: &CachePlaces) -> (r: Result<
    FilePath,
    EmbeddedError,
>)
    ensures
        match *copy {
            Some(bundle) => r matches Ok(dir) && dir@ == build_place(places.base(), bundle.build_hash@),
            None => r matches Err(e) && e@ == EmbeddedFault::NotEnabled,
        },
{
    match copy {
        Some(bundle) => Ok(
            places.find_base().join_text("monoripple").join_text(
                join2("tsgo-", bundle.build_hash.as_str()).as_str(),
            ),
        ),
        None => Err(EmbeddedError::NotEnabled),
    }
}

/// The directory that is removed for the next use to start afresh.
pub fn clean_cache(copy: &Option<Bundle>, places: &CachePlaces) -> (r: Result<
    FilePath,
    EmbeddedError,
>)
    ensures
        match *copy {
            Some(bundle) => r matches Ok(dir) && dir@ == build_place(places.base(), bundle.build_hash@),
            None => r matches Err(e) && e@ == EmbeddedFault::NotEnabled,
        },
{
    get_cache_dir(copy, places)
}

pub open spec fn binary_name(windows: bool) -> Seq<char> {
    if windows {
        "tsgo.exe"@
    } else {
        "tsgo"@
    }
}

/// Where the server lies.
pub open spec fn binary_place(dir: PathModel, windows: bool) -> PathModel {
    joined_path(dir, components(binary_name(windows)))
}

pub fn find_binary(dir: &FilePath, windows: bool) -> (r: FilePath)
    ensures
        r@ == binary_place(dir@, windows),
{
    if windows {
        dir.join_text("tsgo.exe")
    } else {
        dir.join_text("tsgo")
    }
}

/// The library file that is there once everything was unpacked.
pub open spec fn marker_place(dir: PathModel) -> PathModel {
    joined_path(dir, components("lib.d.ts"@))
}

pub fn find_marker(dir: &FilePath) -> (r: FilePath)
    ensures
        r@ == marker_place(dir@),
{
    dir.join_text("lib.d.ts")
}

/// The server and the marker are there, and the server is not empty. `size` is the length of the
/// server where it is there.
pub open spec fn is_unpacked(size: Option<u64>, marked: bool) -> bool {
    marked && size is Some && size->0 > 0
}

/// What a zstd frame holds, or why it cannot be read.
pub uninterp spec fn zstd_content(bytes: Seq<u8>) -> Result<Seq<u8>, Seq<char>>;

pub open spec fn bytes_model(r: Result<Vec<u8>, String>) -> Result<Seq<u8>, Seq<char>> {
    match r {
        Ok(bytes) => Ok(bytes@),
        Err(reason) => Err(reason@),
    }
}

/// `zstd::decode_all`: what the frames in `bytes` hold, or the text of its error.
#[verifier::external_body]
fn decompress(bytes: &Vec<u8>) -> (r: Result<Vec<u8>, String>)
    ensures
        bytes_model(r) == zstd_content(bytes@),
{
    zstd::decode_all(bytes.as_slice()).map_err(|error| error.to_string())
}

/// What is to be done for the server to be in its place.
pub enum Extraction {
    /// It is there.
    Present(FilePath),
    /// These bytes are to be written, and made executable.
    Write(FilePath, Vec<u8>),
}

pub enum ExtractionModel {
    Present(PathModel),
    Write(PathModel, Seq<u8>),
}

impl View for Extraction {
    type V = ExtractionModel;

    open spec fn view(&self) -> ExtractionModel {
        match self {
            Extraction::Present(path) => ExtractionModel::Present(path@),
            Extraction::Write(path, bytes) => ExtractionModel::Write(path@, bytes@),
        }
    }
}

pub open spec fn extraction_model(r: Result<Extraction, EmbeddedError>) -> Result<
    ExtractionModel,
    EmbeddedFault,
> {
    match r {
        Ok(extraction) => Ok(extraction@),
        Err(e) => Err(e@),
    }
}

/// What is to be written where the server decompresses to `content`.
pub open spec fn written(path: PathModel, content: Result<Seq<u8>, Seq<char>>) -> Result<
    ExtractionModel,
    EmbeddedFault,
> {
    match content {
        Ok(bytes) => Ok(ExtractionModel::Write(path, bytes)),
        Err(reason) => Err(EmbeddedFault::Binary(reason)),
    }
}

pub fn write_binary(path: FilePath, content: Result<Vec<u8>, String>) -> (r: Result<
    Extraction,
    EmbeddedError,
>)
    ensures
        extraction_model(r) == written(path@, bytes_model(content)),
{
    match content {
        Ok(bytes) => Ok(Extraction::Write(path, bytes)),
        Err(reason) => Err(EmbeddedError::Binary(reason)),
    }
}

/// What is to be done for the server to lie in `dir`. `size` is the length of the server where it
/// is there, and `marked` says whether the marker is there.
pub fn extract_tsgo_binary(
    copy: &Option<Bundle>,
    dir: &FilePath,
    windows: bool,
    size: Option<u64>,
    marked: bool,
) -> (r: Result<Extraction, EmbeddedError>)
    ensures
        extraction_model(r) == (match *copy {
            None => Err(EmbeddedFault::NotEnabled),
            Some(bundle) => if bundle.binary@.len() == 0 {
                Err(EmbeddedFault::NoBinary)
            } else if is_unpacked(size, marked) {
                Ok(ExtractionModel::Present(binary_place(dir@, windows)))
            } else {
                written(binary_place(dir@, windows), zstd_content(bundle.binary@))
            },
        }),
{
    match copy {
        None => Err(EmbeddedError::NotEnabled),
        Some(bundle) => {
            if bundle.binary.len() == 0 {
                return Err(EmbeddedError::NoBinary);
            }
            let path = find_binary(dir, windows);
            let there = match size {
                Some(length) => marked && length > 0,
                None => false,
            };
            if there {
                return Ok(Extraction::Present(path));
            }
            write_binary(path, decompress(&bundle.binary))
        },
    }
}

/// The directory of the library files, which lie beside the server. A copy that comes without
/// them is refused.
pub fn extract_tsgo_libs(copy: &Option<Bundle>, binary: &FilePath) -> (r: Result<
    FilePath,
    EmbeddedError,
>)
    requires
        copy is Some && copy->0.libs@.len() > 0 ==> parent_of(binary@) is Some,
    ensures
        match *copy {
            None => r matches Err(e) && e@ == EmbeddedFault::NotEnabled,
            Some(bundle) => if bundle.libs@.len() == 0 {
                r matches Err(e) && e@ == EmbeddedFault::NoLibs
            } else {
                r matches Ok(dir) && Some(dir@) == parent_of(binary@)
            },
        },
{
    match copy {
        None => Err(EmbeddedError::NotEnabled),
        Some(bundle) => {
            if bundle.libs.len() == 0 {
                return Err(EmbeddedError::NoLibs);
            }
            match binary.parent() {
                Some(dir) => Ok(dir),
                None => Err(EmbeddedError::NoLibs),
            }
        },
    }
}

/// The library files lie in the directory that the server was unpacked in.
pub proof fn libs_lie_beside_the_binary(dir: PathModel, windows: bool)
    ensures
        parent_of(binary_place(dir, windows)) == Some(dir),
{
    let name = binary_name(windows);
    reveal_strlit("tsgo");
    reveal_strlit("tsgo.exe");
    reveal_strlit("/");
    reveal_strlit(".");
    assert(name.len() >= 4);
    assert(!name.contains('/'));
    crate::path::names_are_their_components(name);
    assert(components(name)[0].len() >= 4);
    assert(binary_place(dir, windows) == dir + seq![name]);
    assert((dir + seq![name]).drop_last() =~= dir);
}

/// One entry of an archive, its path and its bytes, or why it cannot be read.
pub type EntryModel = Result<(Seq<u8>, Seq<u8>), Seq<char>>;

pub open spec fn entry_model(entry: Result<(Vec<u8>, Vec<u8>), String>) -> EntryModel {
    match entry {
        Ok((path, bytes)) => Ok((path@, bytes@)),
        Err(reason) => Err(reason@),
    }
}

pub open spec fn entries_model(entries: Seq<Result<(Vec<u8>, Vec<u8>), String>>) -> Seq<EntryModel> {
    entries.map_values(|e: Result<(Vec<u8>, Vec<u8>), String>| entry_model(e))
}

/// The entries of a tar archive.
pub uninterp spec fn archive_entries(bytes: Seq<u8>) -> Seq<
    Result<(Seq<u8>, Seq<u8>), Seq<char>>,
>;

/// `tar::Archive::entries`: the entries in their order, each with `Entry::path_bytes` and with
/// what the entry reads as, or with the text of the error that it gave.
#[verifier::external_body]
fn read_archive(bytes: &Vec<u8>) -> (r: Vec<Result<(Vec<u8>, Vec<u8>), String>>)
    ensures
        entries_model(r@) == archive_entries(bytes@),
{
    let mut archive = tar::Archive::new(bytes.as_slice());
    let entries = match archive.entries() {
        Ok(entries) => entries,
        Err(error) => return vec![Err(error.to_string())],
    };
    let read = |entry: std::io::Result<tar::Entry<&[u8]>>| {
        let mut entry = entry?;
        let path = entry.path_bytes().into_owned();
        let mut bytes = Vec::new();
        std::io::Read::read_to_end(&mut entry, &mut bytes)?;
        Ok((path, bytes))
    };
    entries.map(|e| read(e).map_err(|error: std::io::Error| error.to_string())).collect()
}

/// The files to be written into a directory for the library files, each with its name and its
/// bytes, and the fault that ends them.
pub struct LibFiles {
    pub dir: FilePath,
    pub files: Vec<(Vec<u8>, Vec<u8>)>,
    pub fault: Option<String>,
}

/// The place of the last slash in a path, or -1.
pub open spec fn last_slash(path: Seq<u8>) -> int
    decreases path.len(),
{
    if path.len() == 0 || path.last() == 47u8 {
        path.len() - 1
    } else {
        last_slash(path.drop_last())
    }
}

/// The last slash of a path lies in it.
pub proof fn last_slash_is_inside(path: Seq<u8>)
    ensures
        -1 <= last_slash(path) < path.len(),
    decreases path.len(),
{
    if path.len() > 0 && path.last() != 47u8 {
        last_slash_is_inside(path.drop_last());
    }
}

/// The last name in a path whose parts are parted by slashes. Parts that are empty or `.` do not
/// count; a path without a name, or one that ends in `..`, has the empty name.
pub open spec fn last_name(path: Seq<u8>) -> Seq<u8>
    decreases path.len(),
{
    let k = last_slash(path);
    let name = path.skip(k + 1);
    if name.len() == 0 || name == seq![46u8] {
        if k < 0 {
            Seq::empty()
        } else {
            proof {
                last_slash_is_inside(path);
            }
            last_name(path.take(k))
        }
    } else if name == seq![46u8, 46u8] {
        Seq::empty()
    } else {
        name
    }
}

/// The first entry that cannot be read, or the number of entries.
pub open spec fn first_fault(entries: Seq<EntryModel>, from: int) -> int
    decreases entries.len() - from,
{
    if from >= entries.len() || entries[from] is Err {
        from
    } else {
        first_fault(entries, from + 1)
    }
}

/// Of the entries the files in front of the first fault, and that fault. Each file goes into
/// `dir` itself, under the last name of its path.
pub open spec fn lists_libs(r: LibFiles, dir: PathModel, entries: Seq<EntryModel>) -> bool {
    let n = first_fault(entries, 0);
    &&& r.dir@ == dir
    &&& r.files@.len() == n
    &&& forall|i: int|
        0 <= i < n ==> (#[trigger] r.files@[i]).0@ == last_name(entries[i]->Ok_0.0)
            && r.files@[i].1@ == entries[i]->Ok_0.1
    &&& match r.fault {
        Some(reason) => n < entries.len() && reason@ == entries[n]->Err_0,
        None => n == entries.len(),
    }
}

fn copy_part(path: &Vec<u8>, from: usize, to: usize) -> (r: Vec<u8>)
    requires
        from <= to <= path.len(),
    ensures
        r@ == path@.subrange(from as int, to as int),
{
    let mut out: Vec<u8> = Vec::new();
    let mut i: usize = from;
    while i < to
        invariant
            from <= i <= to <= path.len(),
            out@ =~= path@.subrange(from as int, i as int),
        decreases to - i,
    {
        out.push(path[i]);
        i += 1;
    }
    out
}

fn find_last_name(path: &Vec<u8>) -> (r: Vec<u8>)
    ensures
        r@ == last_name(path@),
{
    let mut end: usize = path.len();
    assert(path@.take(end as int) =~= path@);
    loop
        invariant
            end <= path.len(),
            last_name(path@.take(end as int)) == last_name(path@),
        decreases end,
    {
        let ghost whole = path@.take(end as int);
        let mut k: usize = end;
        while k > 0 && path[k - 1] != 47
            invariant
                k <= end <= path.len(),
                last_slash(whole) == last_slash(path@.take(k as int)),
            decreases k,
        {
            assert(path@.take(k as int).drop_last() =~= path@.take(k - 1));
            k -= 1;
        }
        assert(last_slash(whole) == k - 1);
        let ghost name = whole.skip(k as int);
        assert(name =~= path@.subrange(k as int, end as int));
        let n = end - k;
        if n == 0 || (n == 1 && path[k] == 46) {
            assert(name.len() == 0 || name =~= seq![46u8]);
            if k == 0 {
                return Vec::new();
            }
            assert(whole.take(k - 1) =~= path@.take(k - 1));
            end = k - 1;
        } else if n == 2 && path[k] == 46 && path[k + 1] == 46 {
            assert(name =~= seq![46u8, 46u8]);
            return Vec::new();
        } else {
            assert(name != seq![46u8]) by {
                if n == 1 {
                    assert(name[0] == path@[k as int]);
                }
            }
            assert(name != seq![46u8, 46u8]) by {
                if n == 2 {
                    assert(name[0] == path@[k as int] && name[1] == path@[k + 1]);
                }
            }
            return copy_part(path, k, end);
        }
    }
}

/// The files to be written into `dir` for the entries of an archive.
pub fn list_libs(dir: &FilePath, entries: Vec<Result<(Vec<u8>, Vec<u8>), String>>) -> (r: LibFiles)
    ensures
        lists_libs(r, dir@, entries_model(entries@)),
{
    let ghost all = entries_model(entries@);
    let mut files: Vec<(Vec<u8>, Vec<u8>)> = Vec::new();
    let mut i: usize = 0;
    while i < entries.len()
        invariant
            i <= entries.len(),
            all == entries_model(entries@),
            first_fault(all, 0) == first_fault(all, i as int),
            files.len() == i,
            forall|k: int|
                0 <= k < i ==> (#[trigger] files@[k]).0@ == last_name(all[k]->Ok_0.0)
                    && files@[k].1@ == all[k]->Ok_0.1,
        decreases entries.len() - i,
    {
        assert(all[i as int] == entry_model(entries@[i as int]));
        match &entries[i] {
            Ok((path, bytes)) => {
                files.push((find_last_name(path), bytes.clone()));
            },
            Err(reason) => {
                return LibFiles { dir: dir.dup(), files, fault: Some(reason.clone()) };
            },
        }
        i += 1;
    }
    LibFiles { dir: dir.dup(), files, fault: None }
}

/// Whether a copy comes with library files.
pub fn has_libs(bundle: &Bundle) -> (r: bool)
    ensures
        r == (bundle.libs@.len() > 0),
{
    bundle.libs.len() > 0
}

/// The library files of a copy, as they are to be written into `dir`.
pub fn extract_libs_to_dir(bundle: &Bundle, dir: &FilePath) -> (r: Result<LibFiles, EmbeddedError>)
    ensures
        match zstd_content(bundle.libs@) {
            Ok(bytes) => r matches Ok(libs) && lists_libs(libs, dir@, archive_entries(bytes)),
            Err(reason) => r matches Err(e) && e@ == EmbeddedFault::Libs(reason),
        },
{
    match decompress(&bundle.libs) {
        Ok(bytes) => Ok(list_libs(dir, read_archive(&bytes))),
        Err(reason) => Err(EmbeddedError::Libs(reason)),
    }
}

/// The last name of a path is what stands behind its last slash; slashes at the end, and parts
/// that are a dot, do not count.
pub proof fn last_names_follow_the_last_slash(front: Seq<u8>, name: Seq<u8>)
    requires
        name.len() > 0,
        !name.contains(47u8),
        name != seq![46u8],
        name != seq![46u8, 46u8],
    ensures
        last_name(name) == name,
        last_name(front + seq![47u8] + name) == name,
        last_name(front + seq![47u8]) == last_name(front),
        last_name(front + seq![47u8, 46u8]) == last_name(front),
{
    slashes_are_found(Seq::empty(), name, false);
    slashes_are_found(front, name, true);
    slashes_are_found(front, Seq::empty(), true);
    slashes_are_found(front, seq![46u8], true);
    assert(Seq::<u8>::empty() + name =~= name);
    assert(name.skip(0) =~= name);
    let whole = front + seq![47u8] + name;
    assert(whole.skip(front.len() as int + 1) =~= name);
    let ended = front + seq![47u8];
    assert(ended + Seq::<u8>::empty() =~= ended);
    assert(ended.skip(front.len() as int + 1).len() == 0);
    assert(ended.take(front.len() as int) =~= front);
    let dotted = front + seq![47u8, 46u8];
    assert(ended + seq![46u8] =~= dotted);
    assert(dotted.skip(front.len() as int + 1) =~= seq![46u8]);
    assert(dotted.take(front.len() as int) =~= front);
}

proof fn slashes_are_found(front: Seq<u8>, name: Seq<u8>, parted: bool)
    requires
        !name.contains(47u8),
        !parted ==> front.len() == 0,
    ensures
        parted ==> last_slash(front + seq![47u8] + name) == front.len(),
        !parted ==> last_slash(front + name) == -1,
    decreases name.len(),
{
    if name.len() > 0 {
        let init = name.drop_last();
        assert(name.contains(name.last()));
        assert(!init.contains(47u8)) by {
            if init.contains(47u8) {
                let k = choose|k: int| 0 <= k < init.len() && init[k] == 47u8;
                assert(name[k] == 47u8);
            }
        }
        slashes_are_found(front, init, parted);
        assert((front + seq![47u8] + name).drop_last() =~= front + seq![47u8] + init);
        assert((front + name).drop_last() =~= front + init);
    } else {
        assert((front + seq![47u8] + name).last() == 47u8);
    }
}

} // verus!
