use libxch::fs_model::FsModel;
use libxch::platform::NativeCapability;
use libxch::platform::PlatformError;
use libxch::Error;

fn v(bytes: &[u8]) -> Vec<u8> {
    bytes.to_vec()
}

fn model_with_v(entries: &[(Vec<u8>, Vec<u8>)]) -> FsModel {
    let mut fs = FsModel::new();
    for (path, data) in entries {
        fs.create(path, data.clone());
    }
    fs
}

fn content_is(fs: &FsModel, path: &[u8], expected: &[u8]) -> bool {
    match fs.read(&path.to_vec()) {
        Some(data) => data == &expected.to_vec(),
        None => false,
    }
}

#[test]
fn test_success() {
    let mut fs = model_with_v(&[(v(b"test/file1"), v(b"content1")), (v(b"test/file2"), v(b"content2"))]);
    let file1 = b"test/file1".to_vec();
    let file2 = b"test/file2".to_vec();

    assert!(libxch::xch_non_atomic(&mut fs, &NativeCapability::Absent, &file1, &file2).is_ok());
    assert!(content_is(&fs, b"test/file1", b"content2"));
    assert!(content_is(&fs, b"test/file2", b"content1"));
}

#[test]
fn test_failure() {
    let mut fs = model_with_v(&[(v(b"test/file1"), v(b"content1"))]);
    let file1 = b"test/file1".to_vec();
    let dir = b"test".to_vec();

    assert!(libxch::xch_non_atomic(&mut fs, &NativeCapability::Absent, &file1, &dir).is_err());
    assert!(content_is(&fs, b"test/file1", b"content1"));
}

#[test]
fn fallback_success_concrete() {
    let mut fs = model_with_v(&[(v(b"f1"), v(b"content1")), (v(b"f2"), v(b"content2"))]);
    let f1 = b"f1".to_vec();
    let f2 = b"f2".to_vec();

    let r = libxch::xch_non_atomic(&mut fs, &NativeCapability::Absent, &f1, &f2);
    assert!(r.is_ok());
    assert!(content_is(&fs, b"f1", b"content2"));
    assert!(content_is(&fs, b"f2", b"content1"));
}

#[test]
fn fallback_error_leaves_first_path_alone() {
    // The second operand resolves to no entry and has no usable parent of
    // its own; the exchange fails and the first file is untouched.
    let mut fs = model_with_v(&[(v(b"f1"), v(b"content1"))]);
    let f1 = b"f1".to_vec();
    let root = b"/".to_vec();

    let r = libxch::xch_non_atomic(&mut fs, &NativeCapability::Absent, &f1, &root);
    assert!(r.is_err());
    assert!(content_is(&fs, b"f1", b"content1"));
}

#[test]
fn fallback_no_parent_is_logic_error() {
    let mut fs = FsModel::new();
    let root = b"/".to_vec();
    let empty = b"".to_vec();

    let r = libxch::xch_non_atomic(&mut fs, &NativeCapability::Absent, &root, &empty);
    match r {
        Err(Error::LogicError(_)) => {},
        _ => panic!("expected a logic error"),
    }
}

#[test]
fn native_success_swaps() {
    let mut fs = model_with_v(&[(v(b"a"), v(b"one")), (v(b"b"), v(b"two"))]);
    let a = b"a".to_vec();
    let b = b"b".to_vec();

    assert!(libxch::xch(&mut fs, &NativeCapability::Available, &a, &b).is_ok());
    assert!(content_is(&fs, b"a", b"two"));
    assert!(content_is(&fs, b"b", b"one"));
}

#[test]
fn native_missing_path_is_platform_error() {
    let mut fs = model_with_v(&[(v(b"a"), v(b"one"))]);
    let a = b"a".to_vec();
    let b = b"b".to_vec();

    match libxch::xch(&mut fs, &NativeCapability::Available, &a, &b) {
        Err(Error::PlatformError(pe)) => assert_eq!(pe.code, 2),
        _ => panic!("expected a platform error"),
    }
    assert!(content_is(&fs, b"a", b"one"));
}

#[test]
fn atomic_entry_point_never_falls_back() {
    let mut fs = model_with_v(&[(v(b"a"), v(b"one")), (v(b"b"), v(b"two"))]);
    let a = b"a".to_vec();
    let b = b"b".to_vec();

    match libxch::xch(&mut fs, &NativeCapability::Absent, &a, &b) {
        Err(Error::NotImplemented) => {},
        _ => panic!("expected not-implemented"),
    }
    assert!(content_is(&fs, b"a", b"one"));
    assert!(content_is(&fs, b"b", b"two"));
}

#[test]
fn fallback_gating_propagates_native_error() {
    // A concrete native failure must come back unchanged; the fallback runs
    // only when the capability is absent, never to mask a real error.
    let mut fs = model_with_v(&[(v(b"a"), v(b"one")), (v(b"b"), v(b"two"))]);
    let a = b"a".to_vec();
    let b = b"b".to_vec();
    let denied = PlatformError { code: 13 };

    match libxch::xch_non_atomic(&mut fs, &NativeCapability::Failing(denied), &a, &b) {
        Err(Error::PlatformError(pe)) => assert_eq!(pe.code, 13),
        _ => panic!("expected the native error back"),
    }
    assert!(content_is(&fs, b"a", b"one"));
    assert!(content_is(&fs, b"b", b"two"));
}

#[test]
fn involution_fallback_engine() {
    let mut fs = model_with_v(&[(v(b"x"), v(b"left")), (v(b"y"), v(b"right"))]);
    let x = b"x".to_vec();
    let y = b"y".to_vec();

    assert!(libxch::xch_non_atomic(&mut fs, &NativeCapability::Absent, &x, &y).is_ok());
    assert!(libxch::xch_non_atomic(&mut fs, &NativeCapability::Absent, &x, &y).is_ok());
    assert!(content_is(&fs, b"x", b"left"));
    assert!(content_is(&fs, b"y", b"right"));
}

#[test]
fn involution_native_engine() {
    let mut fs = model_with_v(&[(v(b"x"), v(b"left")), (v(b"y"), v(b"right"))]);
    let x = b"x".to_vec();
    let y = b"y".to_vec();

    assert!(libxch::xch(&mut fs, &NativeCapability::Available, &x, &y).is_ok());
    assert!(libxch::xch(&mut fs, &NativeCapability::Available, &x, &y).is_ok());
    assert!(content_is(&fs, b"x", b"left"));
    assert!(content_is(&fs, b"y", b"right"));
}

#[test]
fn rollback_on_second_step_failure() {
    // The second rename has no source, so the first is undone: both paths
    // keep their original content and the error is not chained.
    let mut fs = model_with_v(&[(v(b"dir/a"), v(b"alpha"))]);
    let a = b"dir/a".to_vec();
    let missing = b"dir/missing".to_vec();

    match libxch::xch_non_atomic(&mut fs, &NativeCapability::Absent, &a, &missing) {
        Err(Error::Fs(e)) => assert_eq!(e.code, 2),
        _ => panic!("expected a plain filesystem error"),
    }
    assert!(content_is(&fs, b"dir/a", b"alpha"));
    assert!(fs.read(&missing).is_none());
}

#[test]
fn chained_failure_exposes_both_errors() {
    // The final step cannot land back on the second path, and neither can
    // the rollback: both failures must surface.
    let mut fs = model_with_v(&[(v(b"dir/a"), v(b"alpha")), (v(b"dir/b"), v(b"beta"))]);
    let a = b"dir/a".to_vec();
    let b = b"dir/b".to_vec();
    fs.deny(&b);

    match libxch::xch_non_atomic(&mut fs, &NativeCapability::Absent, &a, &b) {
        Err(Error::ChainError(primary, secondary)) => {
            match *primary {
                Error::Fs(e) => assert_eq!(e.code, 13),
                _ => panic!("expected a filesystem error as the primary"),
            }
            match *secondary {
                Error::Fs(e) => assert_eq!(e.code, 13),
                _ => panic!("expected a filesystem error as the secondary"),
            }
        },
        _ => panic!("expected a chained error"),
    }
}

#[test]
fn chained_failure_on_denied_first_path() {
    // The second step cannot land on the first path, and the rollback of
    // the first step fails for the same reason.
    let mut fs = model_with_v(&[(v(b"dir/a"), v(b"alpha")), (v(b"dir/b"), v(b"beta"))]);
    let a = b"dir/a".to_vec();
    let b = b"dir/b".to_vec();
    fs.deny(&a);

    match libxch::xch_non_atomic(&mut fs, &NativeCapability::Absent, &a, &b) {
        Err(Error::ChainError(primary, secondary)) => {
            match *primary {
                Error::Fs(e) => assert_eq!(e.code, 13),
                _ => panic!("expected a filesystem error as the primary"),
            }
            match *secondary {
                Error::Fs(e) => assert_eq!(e.code, 13),
                _ => panic!("expected a filesystem error as the secondary"),
            }
        },
        _ => panic!("expected a chained error"),
    }
    // the displaced content still exists, under some temporary name
    assert!(fs.read(&a).is_none());
    assert!(content_is(&fs, b"dir/b", b"beta"));
}

#[test]
fn model_rename_semantics() {
    let mut fs = model_with_v(&[(v(b"a"), v(b"one"))]);
    let a = b"a".to_vec();
    let b = b"b".to_vec();
    let c = b"c".to_vec();

    assert!(fs.rename(&a, &b).is_ok());
    assert!(fs.read(&a).is_none());
    assert!(content_is(&fs, b"b", b"one"));

    let e = fs.rename(&a, &c).unwrap_err();
    assert_eq!(e.code, 2);

    fs.deny(&c);
    let e = fs.rename(&b, &c).unwrap_err();
    assert_eq!(e.code, 13);
    assert!(content_is(&fs, b"b", b"one"));
}

#[test]
fn model_rename_overwrites_destination() {
    let mut fs = model_with_v(&[(v(b"a"), v(b"one")), (v(b"b"), v(b"two"))]);
    let a = b"a".to_vec();
    let b = b"b".to_vec();

    assert!(fs.rename(&a, &b).is_ok());
    assert!(fs.read(&a).is_none());
    assert!(content_is(&fs, b"b", b"one"));
}

#[test]
fn model_exchange_requires_both() {
    let mut fs = model_with_v(&[(v(b"a"), v(b"one"))]);
    let a = b"a".to_vec();
    let b = b"b".to_vec();

    let e = fs.exchange(&a, &b).unwrap_err();
    assert_eq!(e.code, 2);
    assert!(content_is(&fs, b"a", b"one"));
}

#[test]
fn parent_and_join() {
    assert_eq!(libxch::paths::parent_of(&b"dir/file".to_vec()), Some(b"dir".to_vec()));
    assert_eq!(libxch::paths::parent_of(&b"file".to_vec()), Some(b"".to_vec()));
    assert_eq!(libxch::paths::parent_of(&b"/file".to_vec()), Some(b"/".to_vec()));
    assert_eq!(libxch::paths::parent_of(&b"/".to_vec()), None);
    assert_eq!(libxch::paths::parent_of(&b"".to_vec()), None);
    assert_eq!(libxch::paths::parent_of(&b"a/b/c".to_vec()), Some(b"a/b".to_vec()));

    assert_eq!(libxch::paths::join(&b"dir".to_vec(), &b"t".to_vec()), b"dir/t".to_vec());
    assert_eq!(libxch::paths::join(&b"".to_vec(), &b"t".to_vec()), b"t".to_vec());
    assert_eq!(libxch::paths::join(&b"/".to_vec(), &b"t".to_vec()), b"/t".to_vec());
}

#[test]
fn interpret_native_return_classifies() {
    assert!(libxch::platform::interpret_native_return(0, 0).is_ok());
    match libxch::platform::interpret_native_return(-1, 38) {
        Err(Error::NotImplemented) => {},
        _ => panic!("expected not-implemented for a missing syscall"),
    }
    match libxch::platform::interpret_native_return(-1, 13) {
        Err(Error::PlatformError(pe)) => assert_eq!(pe.code, 13),
        _ => panic!("expected a platform error"),
    }
}

#[test]
fn error_descriptions() {
    assert_eq!(Error::NotImplemented.description(), "Not supported on this platform");
    assert_eq!(Error::Fs(libxch::OsError { code: 2 }).description(), "Could not exchange paths");
    assert_eq!(
        Error::LogicError(String::from("no parent")).description(),
        "no parent"
    );
}

#[test]
fn fallback_works_among_many_entries() {
    // The temporary name must dodge every existing entry; the exchange
    // still succeeds in a well-populated directory.
    let mut fs = FsModel::new();
    for i in 0..50u8 {
        fs.create(&vec![b'd', b'/', b'n', i], vec![i]);
    }
    let p = b"d/p".to_vec();
    let q = b"d/q".to_vec();
    fs.create(&p, b"pp".to_vec());
    fs.create(&q, b"qq".to_vec());

    assert!(libxch::xch_non_atomic(&mut fs, &NativeCapability::Absent, &p, &q).is_ok());
    assert!(content_is(&fs, b"d/p", b"qq"));
    assert!(content_is(&fs, b"d/q", b"pp"));
    for i in 0..50u8 {
        assert_eq!(fs.read(&vec![b'd', b'/', b'n', i]), Some(&vec![i]));
    }
}

#[test]
fn exchange_path_with_itself_fails_cleanly() {
    // Renaming a path onto itself mid-sequence has no source left; the
    // rollback restores the entry.
    let mut fs = model_with_v(&[(v(b"dir/a"), v(b"alpha"))]);
    let a = b"dir/a".to_vec();

    match libxch::xch_non_atomic(&mut fs, &NativeCapability::Absent, &a, &a) {
        Err(Error::Fs(e)) => assert_eq!(e.code, 2),
        _ => panic!("expected a plain filesystem error"),
    }
    assert!(content_is(&fs, b"dir/a", b"alpha"));
}
