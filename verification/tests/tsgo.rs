use monoripple::path::FilePath;
use monoripple::tsgo::cache::{TypeCache, TypePosition};
use monoripple::tsgo::embedded::{
    clean_cache, extract_libs_to_dir, extract_tsgo_binary, extract_tsgo_libs, find_binary,
    find_marker, get_cache_dir, has_libs, is_embedded, list_libs, write_binary, Bundle,
    CachePlaces, EmbeddedError, Extraction, LibFiles, TSGO_VERSION,
};
use monoripple::tsgo::protocol::{
    initialize_params, HoverContents, JsonRpcError, JsonRpcNotification, JsonRpcRequest,
    JsonRpcResponse, MarkedString, MarkedStringOrMarkup, MarkupContent, ShutdownParams,
};
use monoripple::tsgo::session::{
    choose_server, embedded_tsgo_version, has_embedded_tsgo, FileUpdate, NotInitialized,
    ServerProgram, TsgoSession, TypeSource, NO_SERVER,
};
use monoripple::tsgo::wire::{
    acknowledge, answer, classify, extract_type, frame, hover_answer, parse_number, read_header,
    read_message, AnswerFault, MessageKind,
};

#[test]
fn test_type_position_equality() {
    let pos1 = TypePosition::new("file:///test.ts", 10, 5);
    let pos2 = TypePosition::new("file:///test.ts", 10, 5);
    let pos3 = TypePosition::new("file:///test.ts", 10, 6);

    assert_eq!(pos1, pos2);
    assert_ne!(pos1, pos3);
}

#[test]
fn test_cache_insert_and_get() {
    let mut cache = TypeCache::new();
    let pos = TypePosition::new("file:///test.ts", 10, 5);

    assert!(cache.get(&pos).is_none());
    assert_eq!(cache.stats(), (0, 1)); // 1 miss

    cache.insert(pos.clone(), "string".to_string());

    assert_eq!(cache.get(&pos), Some(&"string".to_string()));
    assert_eq!(cache.stats(), (1, 1)); // 1 hit, 1 miss
}

#[test]
fn test_cache_contains() {
    let mut cache = TypeCache::new();
    let pos = TypePosition::new("file:///test.ts", 10, 5);

    assert!(!cache.contains(&pos));

    cache.insert(pos.clone(), "number".to_string());

    assert!(cache.contains(&pos));
    // contains doesn't update stats
    assert_eq!(cache.stats(), (0, 0));
}

#[test]
fn test_cache_clear() {
    let mut cache = TypeCache::new();
    let pos = TypePosition::new("file:///test.ts", 10, 5);

    cache.insert(pos.clone(), "boolean".to_string());
    assert_eq!(cache.len(), 1);

    // Generate some stats
    cache.get(&pos);
    cache.get(&TypePosition::new("other.ts", 0, 0));
    assert_eq!(cache.stats(), (1, 1));

    cache.clear();

    assert_eq!(cache.len(), 0);
    assert!(cache.is_empty());
    assert_eq!(cache.stats(), (0, 0));
}

#[test]
fn test_cache_multiple_entries() {
    let mut cache = TypeCache::new();

    let positions = vec![
        (TypePosition::new("file:///a.ts", 0, 0), "string"),
        (TypePosition::new("file:///a.ts", 0, 10), "number"),
        (TypePosition::new("file:///b.ts", 5, 3), "boolean"),
    ];

    for (pos, type_str) in &positions {
        cache.insert(pos.clone(), type_str.to_string());
    }

    assert_eq!(cache.len(), 3);

    for (pos, expected) in &positions {
        assert_eq!(cache.get(pos), Some(&expected.to_string()));
    }

    assert_eq!(cache.stats(), (3, 0));
}

#[test]
fn a_file_can_be_cleared_alone() {
    let mut cache = TypeCache::new();
    cache.insert(TypePosition::new("file:///a.ts", 0, 0), "string".to_string());
    cache.insert(TypePosition::new("file:///b.ts", 0, 0), "number".to_string());

    cache.clear_for_file("file:///a.ts");

    assert_eq!(cache.len(), 1);
    assert!(!cache.contains(&TypePosition::new("file:///a.ts", 0, 0)));
    assert!(cache.contains(&TypePosition::new("file:///b.ts", 0, 0)));
}

#[test]
fn test_is_embedded() {
    let embedded = is_embedded(&None);
    println!("tsgo embedded: {}", embedded);
}

#[test]
fn test_extract_binary() {
    let copy = Some(full_bundle());
    if !is_embedded(&copy) {
        println!("Skipping test: no embedded binary");
        return;
    }

    let dir = FilePath::parse("/cache");
    match extract_tsgo_binary(&copy, &dir, false, None, false) {
        Ok(Extraction::Write(path, bytes)) => {
            assert_eq!(path.display(), "/cache/tsgo", "Extracted binary should exist");
            assert!(!bytes.is_empty(), "Binary should not be empty");
        }
        _ => panic!("Failed to extract tsgo binary"),
    }
}

#[test]
fn test_extract_libs() {
    let copy = Some(full_bundle());
    if !is_embedded(&copy) {
        println!("Skipping test: no embedded binary");
        return;
    }

    let dir = get_cache_dir(&copy, &cache_places(Some("/cache"), None)).unwrap();
    match extract_tsgo_libs(&copy, &find_binary(&dir, false)) {
        Ok(path) => {
            assert_eq!(path.display(), dir.display(), "Lib directory should exist");
            let libs = extract_libs_to_dir(&full_bundle(), &path).ok().unwrap();
            let lib_d_ts = find_marker(&path).display();
            let is_there = placed(libs).iter().any(|(path, _)| *path == lib_d_ts);
            assert!(is_there, "lib.d.ts should exist");
        }
        Err(e) => println!("No lib files embedded: {}", e.message()),
    }
}

#[test]
fn a_copy_without_library_files_is_refused() {
    let binary = FilePath::parse("/cache/tsgo");
    let without = bundle(compressed(b"server"), Vec::new());
    assert!(!has_libs(&without) && has_libs(&full_bundle()));
    match extract_tsgo_libs(&Some(without), &binary) {
        Err(e) => {
            assert_eq!(e, EmbeddedError::NoLibs);
            assert_eq!(e.message(), "No embedded TypeScript lib files");
        }
        Ok(_) => panic!("expected an error"),
    }
    assert!(matches!(extract_tsgo_libs(&None, &binary), Err(EmbeddedError::NotEnabled)));
}

fn full_bundle() -> Bundle {
    bundle(compressed(b"server"), compressed(&archive(&["lib.d.ts", "lib.es5.d.ts"])))
}

fn cache_places(configured: Option<&str>, user: Option<&str>) -> CachePlaces {
    CachePlaces {
        configured: configured.map(FilePath::parse),
        user: user.map(FilePath::parse),
        temporary: FilePath::parse("/tmp"),
    }
}

fn compressed(bytes: &[u8]) -> Vec<u8> {
    zstd::encode_all(bytes, 0).unwrap()
}

fn bundle(binary: Vec<u8>, libs: Vec<u8>) -> Bundle {
    Bundle { binary, libs, commit: "89d5d5b".to_string(), build_hash: "abc123".to_string() }
}

#[test]
fn a_build_without_a_copy_says_so() {
    let none: Option<Bundle> = None;
    let dir = FilePath::parse("/cache");
    assert!(!has_embedded_tsgo(&none));
    assert_eq!(embedded_tsgo_version(&none), TSGO_VERSION);
    let copy = Some(full_bundle());
    assert!(has_embedded_tsgo(&copy));
    assert_eq!(embedded_tsgo_version(&copy), "89d5d5b");
    let refused = extract_tsgo_binary(&none, &dir, false, None, false);
    assert!(matches!(refused, Err(EmbeddedError::NotEnabled)));
    let places = cache_places(None, None);
    assert!(matches!(clean_cache(&none, &places), Err(EmbeddedError::NotEnabled)));
    assert_eq!(EmbeddedError::NotEnabled.message(), "bundled-tsgo feature not enabled");
}

#[test]
fn a_copy_goes_to_the_first_place_that_can_take_it() {
    let copy = Some(bundle(vec![1], Vec::new()));
    let place = |configured, user| {
        get_cache_dir(&copy, &cache_places(configured, user)).unwrap().display()
    };
    assert_eq!(place(Some("/xdg"), Some("/home/.cache")), "/xdg/monoripple/tsgo-abc123");
    assert_eq!(place(Some("xdg"), Some("/home/.cache")), "/home/.cache/monoripple/tsgo-abc123");
    assert_eq!(place(None, None), "/tmp/monoripple/tsgo-abc123");
    let cleaned = clean_cache(&copy, &cache_places(None, None)).unwrap();
    assert_eq!(cleaned.display(), "/tmp/monoripple/tsgo-abc123");
}

#[test]
fn a_copy_is_unpacked_where_it_is_not_there() {
    let copy = Some(bundle(compressed(b"server"), Vec::new()));
    let dir = FilePath::parse("/cache");
    assert!(is_embedded(&copy));
    assert_eq!(find_marker(&dir).display(), "/cache/lib.d.ts");
    match extract_tsgo_binary(&copy, &dir, false, Some(6), true) {
        Ok(Extraction::Present(path)) => assert_eq!(path.display(), "/cache/tsgo"),
        _ => panic!("expected the server to be there"),
    }
    for (size, marked) in [(None, true), (Some(0), true), (Some(6), false)] {
        match extract_tsgo_binary(&copy, &dir, true, size, marked) {
            Ok(Extraction::Write(path, bytes)) => {
                assert_eq!(path.display(), "/cache/tsgo.exe");
                assert_eq!(bytes, b"server");
            }
            _ => panic!("expected the server to be written"),
        }
    }
    let beside = extract_tsgo_libs(&Some(full_bundle()), &find_binary(&dir, false)).unwrap();
    assert_eq!(beside.display(), "/cache");
}

#[test]
fn a_copy_that_cannot_be_read_is_refused() {
    let dir = FilePath::parse("/cache");
    let empty = Some(bundle(Vec::new(), Vec::new()));
    assert!(!is_embedded(&empty));
    match extract_tsgo_binary(&empty, &dir, false, Some(6), true) {
        Err(e) => {
            assert_eq!(e, EmbeddedError::NoBinary);
            assert_eq!(
                e.message(),
                "No embedded tsgo binary (build-time download may have failed)"
            );
        }
        _ => panic!("expected an error"),
    }
    let broken = bundle(b"no frame".to_vec(), b"no frame".to_vec());
    match extract_libs_to_dir(&broken, &dir) {
        Err(e) => assert!(e.message().starts_with("Failed to decompress lib files: ")),
        _ => panic!("expected an error"),
    }
    match extract_tsgo_binary(&Some(broken), &dir, false, None, false) {
        Err(e) => assert!(e.message().starts_with("Failed to decompress tsgo binary: ")),
        _ => panic!("expected an error"),
    }
}

fn archive(names: &[&str]) -> Vec<u8> {
    let mut builder = tar::Builder::new(Vec::new());
    for name in names {
        let mut header = tar::Header::new_gnu();
        header.set_size(name.len() as u64);
        header.set_mode(0o644);
        header.set_cksum();
        builder.append_data(&mut header, name, name.as_bytes()).unwrap();
    }
    builder.into_inner().unwrap()
}

#[test]
fn library_files_lose_their_directories() {
    let dir = FilePath::parse("/cache");
    let libs = compressed(&archive(&["libs/lib.d.ts", "lib.es5.d.ts"]));
    let found = extract_libs_to_dir(&bundle(vec![1], libs), &dir).ok().unwrap();
    assert_eq!(found.fault, None);
    assert_eq!(
        placed(found),
        vec![
            ("/cache/lib.d.ts".to_string(), b"libs/lib.d.ts".to_vec()),
            ("/cache/lib.es5.d.ts".to_string(), b"lib.es5.d.ts".to_vec()),
        ]
    );
}

fn placed(libs: LibFiles) -> Vec<(String, Vec<u8>)> {
    let dir = libs.dir;
    let place = |name: Vec<u8>| dir.join_text(&String::from_utf8(name).unwrap()).display();
    libs.files.into_iter().map(|(name, bytes)| (place(name), bytes)).collect()
}

#[test]
fn library_files_keep_the_bytes_of_their_names() {
    let dir = FilePath::parse("/cache");
    let name_of = |path: &[u8]| {
        let found = list_libs(&dir, vec![Ok((path.to_vec(), vec![1]))]);
        assert_eq!(found.dir.display(), "/cache");
        found.files[0].0.clone()
    };
    assert_eq!(name_of(b"libs/caf\xe9.d.ts"), b"caf\xe9.d.ts");
    assert_eq!(name_of(b"libs//lib.d.ts/./"), b"lib.d.ts");
    assert_eq!(name_of(b".lib"), b".lib");
    assert_eq!(name_of(b"libs/..lib"), b"..lib");
    for path in [&b""[..], b"/", b".", b"./", b"libs/..", b"libs/../."] {
        assert_eq!(name_of(path), b"");
    }
}

#[test]
fn names_in_archives_need_not_be_texts() {
    let mut builder = tar::Builder::new(Vec::new());
    let mut header = tar::Header::new_gnu();
    header.as_gnu_mut().unwrap().name[..5].copy_from_slice(b"l/\xff.d");
    header.set_size(3);
    header.set_mode(0o644);
    header.set_cksum();
    builder.append(&header, &b"one"[..]).unwrap();
    let libs = compressed(&builder.into_inner().unwrap());
    let found = extract_libs_to_dir(&bundle(vec![1], libs), &FilePath::parse("/cache"));
    assert_eq!(found.ok().unwrap().files, vec![(b"\xff.d".to_vec(), b"one".to_vec())]);
}

#[test]
fn library_files_end_at_the_first_fault() {
    let dir = FilePath::parse("/cache");
    let entries = vec![
        Ok((b"a/lib.d.ts".to_vec(), vec![1])),
        Err("truncated".to_string()),
        Ok((b"b.d.ts".to_vec(), vec![2])),
    ];
    let found = list_libs(&dir, entries);
    assert_eq!(found.files.len(), 1);
    assert_eq!(found.files[0].0, b"lib.d.ts");
    assert_eq!(found.fault, Some("truncated".to_string()));
}

#[test]
fn what_was_decompressed_is_written() {
    let path = FilePath::parse("/cache/tsgo");
    match write_binary(path, Ok(vec![7, 8])) {
        Ok(Extraction::Write(path, bytes)) => {
            assert_eq!(path.display(), "/cache/tsgo");
            assert_eq!(bytes, vec![7, 8]);
        }
        _ => panic!("expected the bytes to be written"),
    }
    let refused = write_binary(FilePath::parse("/cache/tsgo"), Err("bad".to_string()));
    assert!(matches!(refused, Err(EmbeddedError::Binary(reason)) if reason == "bad"));
}

#[test]
fn messages_carry_the_protocol_version() {
    let request = JsonRpcRequest::new(7, "shutdown", ShutdownParams {});
    assert_eq!((request.jsonrpc, request.id, request.method), ("2.0", 7, "shutdown"));
    let notification = JsonRpcNotification::new("exit", ShutdownParams {});
    assert_eq!((notification.jsonrpc, notification.method), ("2.0", "exit"));

    let params = initialize_params(12345, "file:///path/to/project");
    assert_eq!(params.process_id, Some(12345));
    assert_eq!(params.root_uri, Some("file:///path/to/project".to_string()));
    assert_eq!(
        params.capabilities.text_document.hover.content_format,
        vec!["plaintext".to_string()]
    );
}

#[test]
fn frames_tell_the_length_in_bytes() {
    assert_eq!(frame("{}"), "Content-Length: 2\r\n\r\n{}");
    assert_eq!(frame("é"), "Content-Length: 2\r\n\r\né");
    assert_eq!(read_header(None, "Content-Length: 42\r\n"), Some(Some(42)));
    assert_eq!(read_header(Some(42), "Content-Type: x\r\n"), Some(Some(42)));
    assert_eq!(read_header(Some(42), "\r\n"), None);
}

#[test]
fn numbers_are_read_as_far_as_they_fit() {
    assert_eq!(parse_number("0"), Some(0));
    assert_eq!(parse_number("+17"), Some(17));
    assert_eq!(parse_number(""), None);
    assert_eq!(parse_number("-1"), None);
    assert_eq!(parse_number("12a"), None);
    assert_eq!(parse_number("99999999999999999999999999"), None);
}

fn message(text: &str) -> serde_json::Value {
    serde_json::from_str(text).unwrap()
}

#[test]
fn messages_of_the_server_are_told_apart() {
    let response = message(r#"{"id":1,"result":null}"#);
    let request = message(r#"{"id":"a\"b","method":"client/registerCapability"}"#);
    let notification = message(r#"{"method":"window/logMessage"}"#);

    assert_eq!(classify(&response), MessageKind::Response);
    assert_eq!(classify(&request), MessageKind::Request);
    assert_eq!(classify(&notification), MessageKind::Notification);
    assert_eq!(
        acknowledge(&request),
        Some(r#"{"jsonrpc":"2.0","id":"a\"b","result":null}"#.to_string())
    );
    assert_eq!(acknowledge(&notification), None);
}

#[test]
fn bodies_are_read_and_told_apart() {
    let body = br#"{"id":7,"method":"workspace/configuration"}"#.to_vec();
    let (kind, value) = read_message(&body).unwrap();
    assert_eq!(kind, MessageKind::Request);
    assert_eq!(value, message(r#"{"id":7,"method":"workspace/configuration"}"#));
    let (kind, _) = read_message(&br#"{"id":7,"result":null}"#.to_vec()).unwrap();
    assert_eq!(kind, MessageKind::Response);
    let (kind, _) = read_message(&b"[1]".to_vec()).unwrap();
    assert_eq!(kind, MessageKind::Notification);

    let fault = read_message(&b"{\"id\":".to_vec()).unwrap_err();
    assert_eq!(fault, "EOF while parsing a value at line 1 column 6");
    assert!(read_message(&b"\"\xff\"".to_vec()).is_err());
}

fn response<T>(result: Option<T>, error: Option<(i32, &str)>) -> JsonRpcResponse<T> {
    JsonRpcResponse {
        jsonrpc: "2.0".to_string(),
        id: None,
        result,
        error: error.map(|(code, message)| JsonRpcError {
            code,
            message: message.to_string(),
            data: None,
        }),
    }
}

fn is_refusal(fault: &AnswerFault) -> bool {
    matches!(fault, AnswerFault::Refused { code: -32601, message } if message == "no method")
}

#[test]
fn answers_give_their_error_before_their_result() {
    let refusal = Some((-32601, "no method"));
    assert_eq!(answer(response(Some(5), None)).unwrap(), 5);
    assert!(is_refusal(&answer(response(Some(5), refusal)).unwrap_err()));
    let empty = answer(response::<u32>(None, None)).unwrap_err();
    assert!(matches!(empty, AnswerFault::Empty));

    let hover = message(r#"{"contents":"const x: string"}"#);
    assert_eq!(hover_answer(response(Some(hover.clone()), None)).unwrap(), Some(hover.clone()));
    assert_eq!(hover_answer(response(Some(message("null")), None)).unwrap(), None);
    assert_eq!(hover_answer(response(None, None)).unwrap(), None);
    assert!(is_refusal(&hover_answer(response(Some(hover), refusal)).unwrap_err()));
}

fn plain(text: &str) -> HoverContents {
    HoverContents::Single(MarkedStringOrMarkup::String(text.to_string()))
}

#[test]
fn types_are_taken_out_of_hovers() {
    assert_eq!(extract_type(&plain("const x: string")), Some("const x: string".to_string()));
    let markup = HoverContents::Single(MarkedStringOrMarkup::MarkupContent(MarkupContent {
        kind: "plaintext".to_string(),
        value: "```typescript\nlet y: number\n```".to_string(),
    }));
    assert_eq!(extract_type(&markup), Some("let y: number".to_string()));
    let marked = HoverContents::Array(vec![MarkedStringOrMarkup::MarkedString(MarkedString {
        language: "typescript".to_string(),
        value: "const z: boolean".to_string(),
    })]);
    assert_eq!(extract_type(&marked), Some("const z: boolean".to_string()));
    let later = HoverContents::Array(vec![
        MarkedStringOrMarkup::String(String::new()),
        MarkedStringOrMarkup::String("later".to_string()),
    ]);
    assert_eq!(extract_type(&later), Some("later".to_string()));
    assert_eq!(extract_type(&HoverContents::Array(vec![])), None);
}

#[test]
fn a_session_numbers_versions_and_remembers() {
    let mut session = TsgoSession::new();
    assert!(matches!(session.open_file("file:///a.ts", "x"), Err(NotInitialized)));
    assert!(matches!(session.look_up("file:///a.ts", 0, 0), Err(NotInitialized)));
    assert!(session.files_to_close().is_none());

    session.note_initialized();
    assert_eq!(session.take_id(), 1);
    assert_eq!(session.take_id(), 2);
    match session.update_file("file:///a.ts", "one") {
        Ok(FileUpdate::Open(params)) => {
            assert_eq!(params.text_document.version, 1);
            assert_eq!(params.text_document.language_id, "typescript");
        }
        _ => panic!("expected the file to be opened"),
    }
    session.note_opened("file:///a.ts");
    match session.update_file("file:///a.ts", "two") {
        Ok(FileUpdate::Change(params)) => {
            assert_eq!(params.text_document.version, 2);
            assert_eq!(params.content_changes[0].text, "two");
        }
        _ => panic!("expected a change"),
    }

    assert!(matches!(session.look_up("file:///a.ts", 1, 2), Ok(TypeSource::Ask(_))));
    let told = session.note_hover("file:///a.ts", 1, 2, Some(&plain("const x: string")));
    assert_eq!(told, Some("const x: string".to_string()));
    match session.look_up("file:///a.ts", 1, 2) {
        Ok(TypeSource::Known(found)) => assert_eq!(found, "const x: string"),
        _ => panic!("expected a known type"),
    }
    assert_eq!(session.cache_stats(), (1, 1));

    assert_eq!(session.files_to_close(), Some(vec!["file:///a.ts".to_string()]));
    assert!(session.close_file("file:///a.ts").is_some());
    session.note_closed("file:///a.ts");
    assert!(session.close_file("file:///a.ts").is_none());
    session.note_shutdown();
    assert!(session.files_to_close().is_none());
}

#[test]
fn the_named_server_is_preferred() {
    let named = || FilePath::parse("/opt/tsgo");
    let found = || FilePath::parse("/usr/bin/tsgo");
    match choose_server(Some((named(), true)), Some(found()), &None) {
        Ok(ServerProgram::At(path)) => assert_eq!(path.display(), "/opt/tsgo"),
        _ => panic!("expected the named program"),
    }
    match choose_server(None, Some(found()), &None) {
        Ok(ServerProgram::At(path)) => assert_eq!(path.display(), "/usr/bin/tsgo"),
        _ => panic!("expected the found program"),
    }
    match choose_server(Some((named(), false)), Some(found()), &None) {
        Err(reason) => assert_eq!(reason, "Specified tsgo path does not exist: /opt/tsgo"),
        _ => panic!("expected an error"),
    }
    let copy = Some(bundle(vec![1], Vec::new()));
    assert!(matches!(choose_server(None, None, &copy), Ok(ServerProgram::Embedded)));
    match choose_server(None, None, &None) {
        Err(reason) => assert_eq!(reason, NO_SERVER),
        _ => panic!("expected an error"),
    }
}
