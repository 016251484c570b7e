use la_template::{FileStr, FileTrait, FsError, MemFS, RootedFS};

fn debug_memfs() -> MemFS {
    Default::default()
}

fn validate_read_on_write<V>(
    f: &mut FileStr,
    validate_if_can_read: V,
) -> Result<Option<Vec<u8>>, String>
where
    V: Fn(&Vec<u8>) -> bool,
{
    match f.read_all() {
        // it's ok to throw err if we read in a file declared to write
        Err(_) => Ok(None),
        // if we may read a file declared to write, this file should be
        // empty because it is not yet existed
        Ok(v) => {
            if validate_if_can_read(&v) {
                Ok(Some(v))
            } else {
                Err(format!("Can read, but validation on {:?} failed", v))
            }
        }
    }
}

#[test]
fn memfs_empty_init() {
    let mfs = debug_memfs();
    let paths = mfs.path_iter();
    assert_eq!(paths.len(), 0);
}

#[test]
fn memfs_put_once() {
    let mut mfs = debug_memfs();
    let mut f = mfs.create("random_path");
    validate_read_on_write(&mut f, |v| v.is_empty()).expect("Reading on write bad behavior");
    f.write_all("hello world".as_bytes().to_vec())
        .expect("Fail to write to MemFS::create file");
    let paths = mfs.path_iter();
    assert_eq!(paths, vec!["random_path".to_string()]);
    // now test that the content is expected
    let content = mfs
        .open("random_path")
        .expect("Fail to open existing file")
        .read_all()
        .expect("Fail to read opened existing file");
    assert_eq!(std::str::from_utf8(&content).unwrap(), "hello world")
}

#[test]
fn memfs_open_missing_and_read_only() {
    let mut mfs = debug_memfs();
    assert!(matches!(mfs.open("nothing"), Err(FsError::NotFound)));
    mfs.create("a").write_all(b"x".to_vec()).unwrap();
    let mut f = mfs.open("a").unwrap();
    assert_eq!(f.write_all(b"y".to_vec()), Err(FsError::ReadOnly));
    assert_eq!(f.read_all().unwrap(), b"x".to_vec());
}

#[test]
fn memfs_create_replaces() {
    let mut mfs = debug_memfs();
    mfs.create("a").write_all(b"old".to_vec()).unwrap();
    let mut f = mfs.create("a");
    assert_eq!(f.read_all().unwrap(), Vec::<u8>::new());
    f.write_all(b"new".to_vec()).unwrap();
    assert_eq!(mfs.path_iter().len(), 1);
    assert_eq!(mfs.open("a").unwrap().read_all().unwrap(), b"new".to_vec());
}

#[test]
fn rooted_paths() {
    let mut fs = RootedFS::new("base");
    assert_eq!(fs.rooted_path_of("x/y"), "base/x/y");
    assert_eq!(fs.rooted_path_of("/abs"), "/abs");
    fs.change_root("other/");
    assert_eq!(fs.rooted_path_of("z"), "other/z");
    assert_eq!(RootedFS::default().rooted_path_of("z"), "z");
}
