//! A session with the language server: what is open, what is known, and what to send.
use vstd::prelude::*;

use crate::collections::{ascending_list, ascending_list_is, KeyMap};
use crate::order::Key;
use crate::path::FilePath;
use crate::tsgo::cache::{no_types, without_file, PositionModel, TypeCache, TypePosition};
use crate::tsgo::embedded::{is_embedded, is_usable, Bundle, TSGO_VERSION};
use crate::tsgo::protocol::{
    DidChangeTextDocumentParams, DidCloseTextDocumentParams, DidOpenTextDocumentParams,
    HoverContents, HoverParams, Position, TextDocumentContentChangeEvent, TextDocumentIdentifier,
    TextDocumentItem, VersionedTextDocumentIdentifier,
};
use crate::tsgo::wire::{extract_type, hover_type};
use crate::words::texts_of;

verus! {

pub type Text = Seq<char>;

/// A request before the session was started.
#[derive(Clone, Copy, Debug, PartialEq, Eq, Structural)]
pub struct NotInitialized;

/// The state of a session.
pub struct TsgoSession {
    initialized: bool,
    next_id: u32,
    /// The open files with the versions that the server has seen.
    versions: KeyMap<String, i32>,
    cache: TypeCache,
}

#[verifier::ext_equal]
pub ghost struct SessionModel {
    pub initialized: bool,
    pub next_id: u32,
    pub versions: Map<Text, i32>,
    pub types: Map<PositionModel, Text>,
    pub tally: (usize, usize),
}

impl View for TsgoSession {
    type V = SessionModel;

    closed spec fn view(&self) -> SessionModel {
        SessionModel {
            initialized: self.initialized,
            next_id: self.next_id,
            versions: self.versions@,
            types: self.cache@,
            tally: self.cache.tally(),
        }
    }
}

/// The next number of a request; the numbers start again behind the largest.
pub open spec fn next_id(id: u32) -> u32 {
    if id == u32::MAX {
        0
    } else {
        (id + 1) as u32
    }
}

/// The version behind this one; the largest stays.
pub open spec fn next_version(version: i32) -> i32 {
    if version == i32::MAX {
        i32::MAX
    } else {
        (version + 1) as i32
    }
}

pub open spec fn opens(params: DidOpenTextDocumentParams, uri: Text, text: Text) -> bool {
    let d = params.text_document;
    d.uri@ == uri && d.language_id@ == "typescript"@ && d.version == 1 && d.text@ == text
}

pub open spec fn changes(params: DidChangeTextDocumentParams, uri: Text, version: i32, text: Text) -> bool {
    &&& params.text_document.uri@ == uri
    &&& params.text_document.version == version
    &&& params.content_changes@.len() == 1
    &&& params.content_changes@[0].range is None
    &&& params.content_changes@[0].text@ == text
}

/// How the server learns of a new text.
pub enum FileUpdate {
    /// The file is not open yet.
    Open(DidOpenTextDocumentParams),
    Change(DidChangeTextDocumentParams),
}

/// Where the type at a place comes from.
pub enum TypeSource {
    Known(String),
    Ask(HoverParams),
}

impl TsgoSession {
    pub fn new() -> (r: TsgoSession)
        ensures
            r@ == (SessionModel {
                initialized: false,
                next_id: 1,
                versions: Map::empty(),
                types: no_types(),
                tally: (0usize, 0usize),
            }),
    {
        TsgoSession {
            initialized: false,
            next_id: 1,
            versions: KeyMap::new(),
            cache: TypeCache::new(),
        }
    }

    /// The number of a new request.
    pub fn take_id(&mut self) -> (id: u32)
        ensures
            id == old(self)@.next_id,
            final(self)@ == (SessionModel { next_id: next_id(old(self)@.next_id), ..old(self)@ }),
    {
        let id = self.next_id;
        self.next_id = id.wrapping_add(1);
        id
    }

    /// The server has started the session.
    pub fn note_initialized(&mut self)
        ensures
            final(self)@ == (SessionModel { initialized: true, ..old(self)@ }),
    {
        self.initialized = true;
    }

    /// Opening a file: what to send, or nothing where it is open.
    pub fn open_file(&self, uri: &str, content: &str) -> (r: Result<
        Option<DidOpenTextDocumentParams>,
        NotInitialized,
    >)
        ensures
            match r {
                Err(_) => !self@.initialized,
                Ok(None) => self@.initialized && self@.versions.dom().contains(uri@),
                Ok(Some(params)) => self@.initialized && !self@.versions.dom().contains(uri@)
                    && opens(params, uri@, content@),
            },
    {
        if !self.initialized {
            return Err(NotInitialized);
        }
        if self.versions.contains_key(&uri.to_owned()) {
            return Ok(None);
        }
        Ok(Some(open_params(uri, content)))
    }

    /// The server was told that a file is open.
    pub fn note_opened(&mut self, uri: &str)
        ensures
            final(self)@ == (SessionModel {
                versions: old(self)@.versions.insert(uri@, 1),
                ..old(self)@
            }),
    {
        self.versions.insert(uri.to_owned(), 1);
    }

    /// Updating a file: what to send. Where the file is open its version goes up and the types in
    /// it are forgotten.
    pub fn update_file(&mut self, uri: &str, content: &str) -> (r: Result<FileUpdate, NotInitialized>)
        ensures
            match r {
                Err(_) => !old(self)@.initialized && final(self)@ == old(self)@,
                Ok(FileUpdate::Open(params)) => old(self)@.initialized
                    && !old(self)@.versions.dom().contains(uri@) && final(self)@ == old(self)@
                    && opens(params, uri@, content@),
                Ok(FileUpdate::Change(params)) => {
                    let version = next_version(old(self)@.versions[uri@]);
                    &&& old(self)@.initialized
                    &&& old(self)@.versions.dom().contains(uri@)
                    &&& final(self)@ == (SessionModel {
                        versions: old(self)@.versions.insert(uri@, version),
                        types: without_file(old(self)@.types, uri@),
                        ..old(self)@
                    })
                    &&& changes(params, uri@, version, content@)
                },
            },
    {
        if !self.initialized {
            return Err(NotInitialized);
        }
        let known = match self.versions.get(&uri.to_owned()) {
            Some(version) => Some(*version),
            None => None,
        };
        match known {
            None => Ok(FileUpdate::Open(open_params(uri, content))),
            Some(version) => {
                let version = if version == i32::MAX {
                    version
                } else {
                    version + 1
                };
                self.versions.insert(uri.to_owned(), version);
                self.cache.clear_for_file(uri);
                let mut content_changes: Vec<TextDocumentContentChangeEvent> = Vec::new();
                content_changes.push(
                    TextDocumentContentChangeEvent { range: None, text: content.to_owned() },
                );
                Ok(
                    FileUpdate::Change(
                        DidChangeTextDocumentParams {
                            text_document: VersionedTextDocumentIdentifier {
                                uri: uri.to_owned(),
                                version,
                            },
                            content_changes,
                        },
                    ),
                )
            },
        }
    }

    /// Closing a file: what to send, or nothing where it is not open.
    pub fn close_file(&self, uri: &str) -> (r: Option<DidCloseTextDocumentParams>)
        ensures
            match r {
                Some(params) => self@.versions.dom().contains(uri@) && params.text_document.uri@
                    == uri@,
                None => !self@.versions.dom().contains(uri@),
            },
    {
        if self.versions.contains_key(&uri.to_owned()) {
            Some(
                DidCloseTextDocumentParams {
                    text_document: TextDocumentIdentifier { uri: uri.to_owned() },
                },
            )
        } else {
            None
        }
    }

    /// The server was told that a file is closed.
    pub fn note_closed(&mut self, uri: &str)
        ensures
            final(self)@ == (SessionModel {
                versions: old(self)@.versions.remove(uri@),
                ..old(self)@
            }),
    {
        self.versions.remove(&uri.to_owned());
    }

    /// Forgets the types in a file.
    pub fn clear_cache_for_file(&mut self, uri: &str)
        ensures
            final(self)@ == (SessionModel {
                types: without_file(old(self)@.types, uri@),
                ..old(self)@
            }),
    {
        self.cache.clear_for_file(uri);
    }

    /// The type at a place: known, or to be asked for.
    pub fn look_up(&mut self, uri: &str, line: u32, character: u32) -> (r: Result<
        TypeSource,
        NotInitialized,
    >)
        ensures
            ({
                let at = (uri@, line, character);
                let (hits, misses) = old(self)@.tally;
                match r {
                    Err(_) => !old(self)@.initialized && final(self)@ == old(self)@,
                    Ok(TypeSource::Known(text)) => old(self)@.initialized
                        && old(self)@.types.dom().contains(at) && text@ == old(self)@.types[at]
                        && final(self)@ == (SessionModel {
                        tally: (crate::tsgo::cache::next_count(hits), misses),
                        ..old(self)@
                    }),
                    Ok(TypeSource::Ask(params)) => old(self)@.initialized
                        && !old(self)@.types.dom().contains(at) && params.text_document.uri@ == uri@
                        && params.position == (Position { line, character }) && final(self)@ == (
                    SessionModel {
                        tally: (hits, crate::tsgo::cache::next_count(misses)),
                        ..old(self)@
                    }),
                }
            }),
    {
        if !self.initialized {
            return Err(NotInitialized);
        }
        let known: Option<String> = match self.cache.get(&TypePosition::new(uri, line, character)) {
            Some(text) => Some(text.clone()),
            None => None,
        };
        match known {
            Some(text) => Ok(TypeSource::Known(text)),
            None => Ok(
                TypeSource::Ask(
                    HoverParams {
                        text_document: TextDocumentIdentifier { uri: uri.to_owned() },
                        position: Position { line, character },
                    },
                ),
            ),
        }
    }

    /// Takes in an answer about a place: the type that it gives is kept.
    pub fn note_hover(&mut self, uri: &str, line: u32, character: u32, contents: Option<&HoverContents>) -> (r:
        Option<String>)
        ensures
            r.model() == match contents {
                Some(c) => hover_type(*c),
                None => None,
            },
            final(self)@ == match r.model() {
                Some(text) => SessionModel {
                    types: old(self)@.types.insert((uri@, line, character), text),
                    ..old(self)@
                },
                None => old(self)@,
            },
    {
        let found = match contents {
            Some(c) => extract_type(c),
            None => None,
        };
        match &found {
            Some(text) => {
                self.cache.insert(TypePosition::new(uri, line, character), text.clone());
            },
            None => {},
        }
        found
    }

    /// How often a type was known, and how often it had to be asked for.
    pub fn cache_stats(&self) -> (r: (usize, usize))
        ensures
            r == self@.tally,
    {
        self.cache.stats()
    }

    /// The files to close before the session ends; nothing is to be done where it never started.
    pub fn files_to_close(&self) -> (r: Option<Vec<String>>)
        ensures
            match r {
                Some(files) => self@.initialized && texts_of(files@) == ascending_list::<String>(
                    self@.versions.dom(),
                ),
                None => !self@.initialized,
            },
    {
        if !self.initialized {
            return None;
        }
        let n = self.versions.len();
        let ghost keys = self.versions.keys();
        let mut out: Vec<String> = Vec::new();
        let mut i: usize = 0;
        while i < n
            invariant
                i <= n,
                n == keys.len(),
                keys == self.versions.keys(),
                texts_of(out@) =~= keys.take(i as int),
            decreases n - i,
        {
            let ghost before = texts_of(out@);
            let item = self.versions.key_at(i).clone();
            out.push(item);
            assert(texts_of(out@) =~= before.push(item@));
            i += 1;
        }
        proof {
            assert(keys.take(n as int) =~= keys);
            ascending_list_is::<String>(keys, self@.versions.dom());
        }
        Some(out)
    }

    /// The session has ended.
    pub fn note_shutdown(&mut self)
        ensures
            final(self)@ == (SessionModel { initialized: false, ..old(self)@ }),
    {
        self.initialized = false;
    }
}

fn open_params(uri: &str, content: &str) -> (r: DidOpenTextDocumentParams)
    ensures
        opens(r, uri@, content@),
{
    DidOpenTextDocumentParams {
        text_document: TextDocumentItem {
            uri: uri.to_owned(),
            language_id: "typescript".to_owned(),
            version: 1,
            text: content.to_owned(),
        },
    }
}

/// Where the program of the server comes from.
pub enum ServerProgram {
    At(FilePath),
    Embedded,
}

pub const NO_SERVER: &'static str = "tsgo not found. Options:\n- Install via: npm install -g @typescript/native-preview\n- Build monoripple with: cargo build --features bundled-tsgo\n- Specify path with: --tsgo-path /path/to/tsgo";

/// Picks the program of the server: the one that was named, the one on the search path, or the
/// copy inside the program. `named` says of the first whether it exists.
pub fn choose_server(
    named: Option<(FilePath, bool)>,
    found: Option<FilePath>,
    copy: &Option<Bundle>,
) -> (r: Result<ServerProgram, String>)
    ensures
        match named {
            Some((path, true)) => r matches Ok(ServerProgram::At(p)) && p@ == path@,
            Some((path, false)) => r matches Err(fault) && fault@ == "Specified tsgo path does not exist: "@
                + crate::path::shown(path@),
            None => match found {
                Some(path) => r matches Ok(ServerProgram::At(p)) && p@ == path@,
                None => if is_usable(*copy) {
                    r matches Ok(ServerProgram::Embedded)
                } else {
                    r matches Err(fault) && fault@ == NO_SERVER@
                },
            },
        },
{
    match named {
        Some((path, exists_there)) => {
            if exists_there {
                return Ok(ServerProgram::At(path));
            }
            return Err(
                crate::text::join2(
                    "Specified tsgo path does not exist: ",
                    path.display().as_str(),
                ),
            );
        },
        None => {},
    }
    match found {
        Some(path) => {
            return Ok(ServerProgram::At(path));
        },
        None => {},
    }
    if is_embedded(copy) {
        return Ok(ServerProgram::Embedded);
    }
    Err(NO_SERVER.to_owned())
}

/// Whether the program carries a copy of the server.
pub fn has_embedded_tsgo(copy: &Option<Bundle>) -> (r: bool)
    ensures
        r == is_usable(*copy),
{
    is_embedded(copy)
}

/// The commit that the copy was built from.
pub fn embedded_tsgo_version(copy: &Option<Bundle>) -> (r: &str)
    ensures
        r@ == (match *copy {
            Some(bundle) => bundle.commit@,
            None => TSGO_VERSION@,
        }),
{
    match copy {
        Some(bundle) => bundle.commit.as_str(),
        None => TSGO_VERSION,
    }
}

/// What a session keeps of an answer it gives again, as long as the file does not change.
pub proof fn answers_are_kept(s: SessionModel, at: PositionModel, text: Text, other: Text)
    requires
        at.0 != other,
    ensures
        ({
            let kept = SessionModel { types: s.types.insert(at, text), ..s };
            let changed = without_file(kept.types, other);
            &&& kept.types.dom().contains(at) && kept.types[at] == text
            &&& changed.dom().contains(at) && changed[at] == text
            &&& !without_file(kept.types, at.0).dom().contains(at)
        }),
{
}

/// No two numbers of requests have the same next number, and none is its own next.
pub proof fn requests_are_told_apart(a: u32, b: u32)
    ensures
        next_id(a) == next_id(b) ==> a == b,
        next_id(a) != a,
        a < u32::MAX ==> next_id(a) == a + 1,
{
}

/// The versions of a file ascend by one, up to the largest.
pub proof fn versions_ascend(version: i32)
    ensures
        version < i32::MAX ==> next_version(version) == version + 1,
        next_version(version) >= version,
{
}

} // verus!
