use declavatar2::compile::{CompileError, ScriptError};
use declavatar2::diagnostics::{DiagnosticStage, Diagnostics};
use declavatar2::header::{BlobKind, AVATAR_DATA_VERSION, DIAGNOSTICS_DATA_VERSION, SCHEMA_VERSION};
use declavatar2::host::{format_versions, status, text, Da2Context, Da2FormatVersions, Da2Status};
use declavatar2::interop::decode_diagnostics;
use declavatar2::modules::{after_candidate, first_candidate, CandidateStep, chunk_name, is_safe_module_name, DirectoryLoader, EvaluateOptions, Loader, ModuleSource};
use declavatar2::wire::EncodeError;

type Context = Da2Context<()>;

#[test]
fn versions_are_the_ones_the_encoder_writes() {
    assert_eq!(
        format_versions(),
        Da2FormatVersions {
            schema: SCHEMA_VERSION,
            avatar_data: AVATAR_DATA_VERSION,
            diagnostics_data: DIAGNOSTICS_DATA_VERSION,
        }
    );
}

#[test]
fn statuses_have_their_documented_numbers() {
    let codes = [
        (Da2Status::Success, 0),
        (Da2Status::CompileFailed, 1),
        (Da2Status::InvalidPointer, 100),
        (Da2Status::InvalidUtf8, 101),
        (Da2Status::NoResult, 102),
        (Da2Status::EncodeFailed, 200),
        (Da2Status::Panicked, 201),
    ];
    for (status, code) in codes {
        assert_eq!(status.code(), code);
    }
}

#[test]
fn a_call_reports_success_or_where_it_stopped() {
    assert_eq!(status(Ok(())), Da2Status::Success);
    assert_eq!(status(Err(Da2Status::InvalidUtf8)), Da2Status::InvalidUtf8);
}

#[test]
fn an_empty_string_may_be_a_null_pointer() {
    assert_eq!(text(None, 0), Ok(String::new()));
}

#[test]
fn a_null_string_with_a_length_is_rejected() {
    assert_eq!(text(None, 3), Err(Da2Status::InvalidPointer));
}

#[test]
fn invalid_utf8_is_rejected() {
    assert_eq!(text(Some(&[0xff, 0xfe]), 2), Err(Da2Status::InvalidUtf8));
    assert_eq!(text(Some("日本".as_bytes()), 6), Ok("日本".to_owned()));
    assert_eq!(text(Some(&[]), 0), Ok(String::new()));
}

#[test]
fn the_result_is_absent_until_a_compile_and_after_a_reset() {
    let mut context = Context::new();
    assert_eq!(context.result().unwrap_err(), Da2Status::NoResult);

    context.add_symbol("ENABLE_HAT".into());
    assert_eq!(context.store(Ok(vec![1, 2, 3]), BlobKind::Avatar), Da2Status::Success);
    assert_eq!(context.result().unwrap(), &vec![1, 2, 3]);

    context.reset();
    assert_eq!(context.result().unwrap_err(), Da2Status::NoResult);
    assert!(!context.evaluate_options().has_symbol("ENABLE_HAT"));
}

#[test]
fn each_compile_replaces_the_previous_result() {
    let mut context = Context::new();
    assert_eq!(context.store(Ok(vec![1]), BlobKind::Avatar), Da2Status::Success);
    assert_eq!(context.store(Ok(vec![2]), BlobKind::Diagnostics), Da2Status::CompileFailed);
    assert_eq!(context.result().unwrap(), &vec![2]);
}

#[test]
fn a_blob_that_cannot_be_encoded_leaves_no_result() {
    let mut context = Context::new();
    assert_eq!(context.store(Ok(vec![1]), BlobKind::Avatar), Da2Status::Success);
    let failed = context.store(Err(EncodeError::Unrepresentable("a value")), BlobKind::Avatar);
    assert_eq!(failed, Da2Status::EncodeFailed);
    assert_eq!(context.result().unwrap_err(), Da2Status::NoResult);
}

#[test]
fn a_script_error_yields_a_diagnostics_blob() {
    let mut context = Context::new();
    let error = CompileError::Script(ScriptError::Script("avatar.lua:2: boom".into()));
    assert_eq!(context.store_failure(&error), Da2Status::CompileFailed);

    let blob = context.result().expect("a result should be stored");
    assert_eq!(&blob[..4], b"DA2d");
    let diagnostics = decode_diagnostics(blob).expect("the result should be a diagnostics blob");
    assert_eq!(diagnostics.stage, DiagnosticStage::Script);
    assert_eq!(diagnostics.items.len(), 1);
    assert!(diagnostics.items[0].message.contains("avatar.lua:2: boom"), "{}", diagnostics.items[0].message);
}

#[test]
fn stored_diagnostics_read_back_unchanged() {
    let mut context = Context::new();
    let diagnostics = Diagnostics { stage: DiagnosticStage::Transform, items: vec![] };
    assert_eq!(context.store_diagnostics(&diagnostics), Da2Status::CompileFailed);
    assert_eq!(decode_diagnostics(context.result().unwrap()).unwrap(), diagnostics);
}

#[test]
fn symbols_and_library_paths_accumulate_in_the_context() {
    let mut context = Context::new();
    context.add_symbol("A".into());
    context.add_symbol("B".into());
    context.add_symbol("A".into());
    context.add_library_path("/lib/one".into());
    context.add_library_path("/lib/two".into());

    let options = context.evaluate_options();
    assert!(options.has_symbol("A"));
    assert!(options.has_symbol("B"));
    assert!(!options.has_symbol("C"));
    let loaders = options.loader_list();
    assert_eq!(loaders.len(), 2);
    let Loader::Directories(first) = &loaders[0] else {
        panic!("a library path is a directory loader");
    };
    assert_eq!(first.directory_list(), &vec!["/lib/one".to_owned()]);
    let Loader::Directories(second) = &loaders[1] else {
        panic!("a library path is a directory loader");
    };
    assert_eq!(second.directory_list(), &vec!["/lib/two".to_owned()]);
}

#[test]
fn symbols_come_from_the_host() {
    let options = EvaluateOptions::<()>::new().symbols(vec!["ENABLE_HAT".into()]);
    assert!(options.has_symbol("ENABLE_HAT"));
    assert!(!EvaluateOptions::<()>::new().has_symbol("ENABLE_HAT"));
    assert!(!EvaluateOptions::<()>::default().has_symbol("ENABLE_HAT"));
}

#[test]
fn loaders_are_consulted_in_the_order_they_were_added() {
    let options = EvaluateOptions::new()
        .loader("first")
        .library_paths(vec!["modules".into(), "vendor".into()])
        .loader("last");
    let loaders = options.loader_list();
    assert_eq!(loaders.len(), 3);
    assert!(matches!(loaders[0], Loader::Custom("first")));
    let Loader::Directories(directories) = &loaders[1] else {
        panic!("library paths become a directory loader");
    };
    assert_eq!(directories.directory_list(), &vec!["modules".to_owned(), "vendor".to_owned()]);
    assert!(matches!(loaders[2], Loader::Custom("last")));
}

#[test]
fn a_module_name_cannot_escape_the_library_directories() {
    for module in ["..", "pack...inner", "pack/inner", r"pack\inner", "/etc/passwd", ""] {
        assert!(!is_safe_module_name(module), "{module}");
    }
}

#[test]
fn ordinary_module_names_are_safe() {
    for module in ["greeting", "pack.inner", "a-b_c.D9", "x.y.z"] {
        assert!(is_safe_module_name(module), "{module}");
    }
    for module in [".hidden", "trailing.", "a..b", "ünicode", "with space"] {
        assert!(!is_safe_module_name(module), "{module}");
    }
}

#[test]
fn a_dotted_module_becomes_a_nested_path() {
    let loader = DirectoryLoader::new(vec!["first".into(), "second".into()]);
    let candidates = loader.candidates("pack.inner");
    assert_eq!(
        candidates,
        vec![
            ("first".to_owned(), "pack/inner.lua".to_owned()),
            ("first".to_owned(), "pack/inner/init.lua".to_owned()),
            ("second".to_owned(), "pack/inner.lua".to_owned()),
            ("second".to_owned(), "pack/inner/init.lua".to_owned()),
        ]
    );
    assert_eq!(
        DirectoryLoader::new(vec!["lib".into()]).candidates("greeting"),
        vec![("lib".to_owned(), "greeting.lua".to_owned()), ("lib".to_owned(), "greeting/init.lua".to_owned())]
    );
    assert!(DirectoryLoader::new(vec![]).candidates("greeting").is_empty());
}

#[test]
fn a_chunk_name_reports_itself_verbatim() {
    assert_eq!(chunk_name("avatar.lua"), "@avatar.lua");
    assert_eq!(chunk_name(""), "@");
}

#[test]
fn a_module_source_keeps_its_chunk_name() {
    let source = ModuleSource { chunk_name: "lib/hat.lua".into(), source: "return 1".into() };
    assert_eq!(source.clone(), source);
}

#[test]
fn the_module_search_reads_the_first_file_and_stops_after_the_last_candidate() {
    assert_eq!(first_candidate(0), CandidateStep::Exhausted);
    assert_eq!(first_candidate(4), CandidateStep::Look(0));
    assert_eq!(after_candidate(0, 4, false), CandidateStep::Look(1));
    assert_eq!(after_candidate(1, 4, true), CandidateStep::Read(1));
    assert_eq!(after_candidate(3, 4, false), CandidateStep::Exhausted);
    assert_eq!(after_candidate(3, 4, true), CandidateStep::Read(3));
}
