use spindle::fsroot::{split_names, time_ns, tmp_name, tmp_name_of, tmp_step, FsError, SysError, TmpStep, TMP_PREFIX, TMP_RETRIES};

#[test]
fn system_errors_have_their_meaning() {
    assert!(matches!(FsError::from_sys(SysError::Loop), FsError::Symlink));
    assert!(matches!(FsError::from_sys(SysError::CrossDevice), FsError::Escaped));
    assert!(matches!(FsError::from_sys(SysError::NoEntry), FsError::NotFound));
    assert!(matches!(FsError::from_sys(SysError::AlreadyExists), FsError::Exists));
    assert!(matches!(FsError::from_sys(SysError::NotImplemented), FsError::Openat2Unsupported));
    assert!(matches!(FsError::from_sys(SysError::Other("EIO".to_string())), FsError::Io(e) if e == "EIO"));
}

#[test]
fn file_errors_have_texts() {
    assert!(FsError::NotDirectory("/x".to_string()).message().contains("/x"));
    assert_eq!(FsError::Io("EIO".to_string()).message(), "I/O エラー: EIO");
    assert_eq!(FsError::NotFound.message(), "存在しない");
    for e in [FsError::Openat2Unsupported, FsError::Symlink, FsError::Escaped, FsError::NotFound, FsError::Exists] {
        assert!(!e.message().is_empty());
    }
}

#[test]
fn times_are_in_nanoseconds() {
    assert_eq!(time_ns(2, 5), 2_000_000_005);
    assert_eq!(time_ns(-1, 5), -999_999_995);
}

#[test]
fn temporary_names_are_the_prefix_and_the_bytes() {
    assert_eq!(tmp_name_of(&[0, 1, 2, 3, 4, 5, 6, 255]), ".spindle-tmp-00010203040506ff");
}

#[test]
fn temporary_names_differ_from_call_to_call() {
    let a = tmp_name();
    let b = tmp_name();
    if let (Some(a), Some(b)) = (a, b) {
        assert!(a.starts_with(TMP_PREFIX));
        assert_eq!(a.len(), TMP_PREFIX.len() + 16);
        assert_ne!(a, b);
    } else {
        panic!("no random bytes");
    }
}

#[test]
fn a_taken_temporary_name_is_tried_again() {
    assert_eq!(tmp_step(1, true, false), TmpStep::Made);
    assert_eq!(tmp_step(1, false, true), TmpStep::Again);
    assert_eq!(tmp_step(TMP_RETRIES, false, true), TmpStep::Taken);
    assert_eq!(tmp_step(1, false, false), TmpStep::Fail);
}

#[test]
fn attribute_names_are_separated_by_zeros() {
    assert_eq!(split_names(&b"user.a\0user.b\0".to_vec()), vec![b"user.a".to_vec(), b"user.b".to_vec()]);
    assert_eq!(split_names(&vec![]), Vec::<Vec<u8>>::new());
}
