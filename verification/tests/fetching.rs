use mellonella::hf_fetch::{
    cache_root, cached_path, fetch_bundle, fetch_file, fetch_tse_prod_48k, model_url,
    partial_extension, path_below, tse_prod_48k_files, Download, FetchError, FetchKit, Reply,
    TSE_PROD_48K_REPO,
};
use mellonella::models::{prepare_models, read_models, Model};
use mellonella::embedding::EmbeddingError;
use mellonella::features::FbankError;
use mellonella::ort_threads::intra_op_threads;
use std::cell::RefCell;
use std::path::Path;

fn join(base: &str, rest: &str) -> String {
    Path::new(base).join(rest).to_string_lossy().into_owned()
}

fn extension(path: &str) -> Option<String> {
    Path::new(path).extension().map(|e| e.to_string_lossy().into_owned())
}

fn with_extension(path: &str, ext: &str) -> String {
    Path::new(path).with_extension(ext).to_string_lossy().into_owned()
}

fn no_dir(_: &str) -> Result<(), String> {
    Ok(())
}

fn cache_dir() -> Option<String> {
    dirs::cache_dir().map(|p| p.to_string_lossy().into_owned())
}

#[test]
fn cache_root_succeeds_or_skips() {
    let base = cache_dir();
    match cache_root(base.as_deref(), &join, &no_dir) {
        Ok(p) => assert!(p.starts_with('/'), "cache root must be absolute: {p:?}"),
        Err(e) => println!("[skip] no cache dir on this platform: {}", e.message()),
    }
}

#[test]
fn cached_path_includes_repo_and_file() {
    let base = cache_dir();
    let Ok(s) = cached_path("foo/bar", "baz.onnx", base.as_deref(), &join, &no_dir) else {
        println!("[skip] no cache dir");
        return;
    };
    assert!(s.contains("foo/bar") || s.contains("foo\\bar"), "{s}");
    assert!(s.ends_with("baz.onnx"), "{s}");
    let s = cached_path("foo/bar", "baz.onnx", Some("/c"), &join, &no_dir).unwrap();
    assert_eq!(s, "/c/mellonella/models/foo/bar/baz.onnx");
}

#[test]
fn tse_prod_48k_constants_are_consistent() {
    assert!(tse_prod_48k_files().iter().any(|f| f.ends_with(".onnx")));
    assert!(tse_prod_48k_files().iter().any(|f| f.ends_with(".onnx.data")));
}

#[test]
fn cache_that_is_not_there_is_reported() {
    let err = cache_root(None, &join, &no_dir).unwrap_err();
    assert_eq!(
        err.message(),
        "cache directory: platform cache directory not configured (no XDG_CACHE_HOME etc.)"
    );
    let refuse = |_: &str| Err("denied".to_string());
    let err = cache_root(Some("/c"), &join, &refuse).unwrap_err();
    assert_eq!(err.message(), "cache directory: denied");
}

#[test]
fn paths_are_put_together_by_the_platform() {
    assert_eq!(path_below("a", "b", "c", &join), "a/b/c");
    assert_eq!(path_below("a", "b", "/c", &join), "/c");
    let other = |a: &str, b: &str| format!("{a}\\{b}");
    assert_eq!(path_below("C:", "b", "c", &other), "C:\\b\\c");
    let s = cached_path("me", "x.onnx", Some("C:"), &other, &no_dir).unwrap();
    assert_eq!(s, "C:\\mellonella\\models\\me\\x.onnx");
    assert_eq!(partial_extension(Some("onnx")), "onnx.partial");
    assert_eq!(partial_extension(None), ".partial");
    assert_eq!(
        model_url("me/it", "x.onnx"),
        "https://huggingface.co/me/it/resolve/main/x.onnx"
    );
}

#[test]
fn download_counts_up_to_the_announced_length() {
    let mut d = Download::new(Some("12"));
    assert_eq!(d.total, Some(12));
    assert!(d.advance(5));
    assert!(d.advance(7));
    assert!(!d.advance(0));
    assert_eq!(d.so_far, 12);
    assert_eq!(Download::new(Some("much")).total, None);
    assert_eq!(Download::new(None).total, None);
    assert_eq!(Download::new(Some("18446744073709551615")).total, Some(u64::MAX));
    assert_eq!(Download::new(Some("18446744073709551616")).total, None);
    assert_eq!(Download::new(Some("+7")).total, Some(7));
    assert_eq!(Download::new(Some("+")).total, None);
    assert_eq!(Download::new(Some("")).total, None);
}

type Log<'a> = &'a RefCell<Vec<String>>;

fn run(
    log: Log<'_>,
    there: bool,
    status: u16,
    file: &str,
) -> Result<String, FetchError> {
    let kit = FetchKit {
        join,
        extension,
        with_extension,
        make_dir: no_dir,
        make_parent: no_dir,
        present: |_: &str| there,
        get: |url: &str| {
            log.borrow_mut().push(format!("get {url}"));
            if status == 0 {
                return Err("no route".to_string());
            }
            Ok(Reply {
                status,
                content_length: Some("9".to_string()),
            })
        },
        save: |path: &str, total: Option<u64>| {
            log.borrow_mut().push(format!("save {path} {total:?}"));
            if path.contains("full") {
                return Err("disk full".to_string());
            }
            Ok(())
        },
        rename: |a: &str, b: &str| {
            log.borrow_mut().push(format!("move {a} {b}"));
            if b.contains("stuck") {
                return Err("busy".to_string());
            }
            Ok(())
        },
        remove: |path: &str| log.borrow_mut().push(format!("remove {path}")),
    };
    fetch_file(&kit, "r", file, Some("/c"))
}

#[test]
fn file_is_brought_beside_its_place_and_moved() {
    let log = RefCell::new(Vec::new());
    let path = run(&log, false, 200, "x.onnx").unwrap();
    assert_eq!(path, "/c/mellonella/models/r/x.onnx");
    assert_eq!(
        *log.borrow(),
        vec![
            "get https://huggingface.co/r/resolve/main/x.onnx".to_string(),
            "save /c/mellonella/models/r/x.onnx.partial Some(9)".to_string(),
            "move /c/mellonella/models/r/x.onnx.partial /c/mellonella/models/r/x.onnx".to_string(),
        ]
    );
}

#[test]
fn any_name_is_asked_for() {
    let log = RefCell::new(Vec::new());
    for name in ["", ".", "..", "dir/"] {
        match run(&log, false, 404, name) {
            Err(FetchError::Status { url, code }) => {
                assert_eq!(url, format!("https://huggingface.co/r/resolve/main/{name}"));
                assert_eq!(code, 404);
            }
            _ => panic!("there is no such file"),
        }
    }
    // A directory's name cannot be stored under; what was begun is removed.
    log.borrow_mut().clear();
    assert!(run(&log, false, 200, "full/").is_err());
    assert_eq!(
        *log.borrow(),
        vec![
            "get https://huggingface.co/r/resolve/main/full/".to_string(),
            "save /c/mellonella/models/r/full..partial Some(9)".to_string(),
            "remove /c/mellonella/models/r/full..partial".to_string(),
        ]
    );
}

#[test]
fn cached_file_is_not_asked_for() {
    let log = RefCell::new(Vec::new());
    assert!(run(&log, true, 200, "x.onnx").is_ok());
    assert!(log.borrow().is_empty());
}

#[test]
fn every_step_of_a_download_can_fail() {
    let log = RefCell::new(Vec::new());
    let text = |r: Result<String, FetchError>| r.unwrap_err().message();
    assert_eq!(
        text(run(&log, false, 404, "x.onnx")),
        "GET https://huggingface.co/r/resolve/main/x.onnx returned HTTP 404"
    );
    assert_eq!(text(run(&log, false, 0, "x.onnx")), "HTTP transport: no route");
    assert_eq!(text(run(&log, false, 200, "full.onnx")), "I/O: disk full");
    assert_eq!(text(run(&log, false, 200, "stuck.onnx")), "I/O: busy");
    let removed: Vec<String> =
        log.borrow().iter().filter(|l| l.starts_with("remove")).cloned().collect();
    assert_eq!(
        removed,
        vec![
            "remove /c/mellonella/models/r/full.onnx.partial".to_string(),
            "remove /c/mellonella/models/r/stuck.onnx.partial".to_string(),
        ]
    );
}

#[test]
fn bundle_gives_the_graph() {
    let kit = FetchKit {
        join,
        extension,
        with_extension,
        make_dir: no_dir,
        make_parent: no_dir,
        present: |_: &str| true,
        get: |_: &str| Err::<Reply, String>("unused".to_string()),
        save: |_: &str, _: Option<u64>| Ok(()),
        rename: |_: &str, _: &str| Ok(()),
        remove: |_: &str| {},
    };
    let path = fetch_tse_prod_48k(&kit, Some("/c")).unwrap();
    assert_eq!(
        path,
        format!("/c/mellonella/models/{TSE_PROD_48K_REPO}/tse_prod_48k.onnx")
    );
    let err = fetch_bundle(&kit, "r", &["a.bin"], Some("/c")).unwrap_err();
    assert_eq!(
        err.message(),
        "cache directory: internal error: TSE_PROD_48K_FILES has no .onnx entry"
    );
}

#[test]
fn threads_follow_the_setting_and_then_the_machine() {
    assert_eq!(intra_op_threads(Some("6"), Some(1)), 6);
    assert_eq!(intra_op_threads(Some("0"), Some(8)), 1);
    assert_eq!(intra_op_threads(Some("many"), Some(8)), 2);
    assert_eq!(intra_op_threads(None, Some(1)), 1);
    assert_eq!(intra_op_threads(None, None), 1);
}

#[test]
fn models_are_brought_before_any_is_read() {
    let log = RefCell::new(Vec::new());
    let ensure = |m: Model| {
        log.borrow_mut().push(format!("{m:?}"));
        Ok(format!("/{m:?}"))
    };
    let read = |m: Model, p: &str| {
        log.borrow_mut().push(format!("{m:?}={p}"));
        Ok(())
    };
    let fbank = || Ok(());
    assert_eq!(prepare_models(&ensure, &read, &fbank).unwrap(), "/Dfn3");
    assert_eq!(
        *log.borrow(),
        vec!["Ecapa", "Vad", "Dfn3", "Ecapa=/Ecapa", "Vad=/Vad"]
    );
}

#[test]
fn failures_of_models_are_labelled() {
    let ok = |m: Model| Ok(format!("/{m:?}"));
    let read = |_: Model, _: &str| Ok(());
    let fbank = || Ok(());
    let no_vad = |m: Model| match m {
        Model::Vad => Err(FetchError::Io("full".to_string())),
        _ => Ok(String::new()),
    };
    assert_eq!(
        prepare_models(&no_vad, &read, &fbank).unwrap_err(),
        "VAD fetch: I/O: full"
    );
    let short = || Err(FbankError::BadFilterbankLength { got: 1, expected: 2 });
    assert_eq!(
        prepare_models(&ok, &read, &short).unwrap_err(),
        "Fbank init: filterbank buffer is 1 f32s, expected 2"
    );
    let broken = |m: Model, _: &str| match m {
        Model::Vad => Err(EmbeddingError::Ort("bad".to_string())),
        _ => Ok(()),
    };
    assert_eq!(
        prepare_models(&ok, &broken, &fbank).unwrap_err(),
        "VAD load: ONNX Runtime error: bad"
    );
    assert_eq!(read_models("/e", "/v", &read, &fbank), None);
}
