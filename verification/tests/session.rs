use std::cell::Cell;
use std::rc::Rc;

use transformfs::output::{
    ContentProvider, FileKind, OutputFile, OutputFileEntry, OutputFileMetadata, Transform,
};
use transformfs::transformfs::{Config, FsError, TransformFs};

struct HookProvider {
    data: Vec<u8>,
    fail_open: bool,
    fail_close: bool,
    fail_read: bool,
}

impl ContentProvider for HookProvider {
    fn open_hook(&self) -> Result<(), ()> {
        if self.fail_open {
            Err(())
        } else {
            Ok(())
        }
    }

    fn close_hook(&self) -> Result<(), ()> {
        if self.fail_close {
            Err(())
        } else {
            Ok(())
        }
    }

    fn read_hook(&self, offset: u64, size: u32) -> Result<Vec<u8>, ()> {
        if self.fail_read {
            return Err(());
        }
        let start = if (offset as usize) < self.data.len() {
            offset as usize
        } else {
            self.data.len()
        };
        let end = if start + (size as usize) < self.data.len() {
            start + (size as usize)
        } else {
            self.data.len()
        };
        Ok(self.data[start..end].to_vec())
    }
}

#[derive(Clone)]
struct FileSpec {
    path: Vec<u8>,
    size: u64,
    block_size: Option<u32>,
    data: Vec<u8>,
    fail_open: bool,
    fail_close: bool,
    fail_read: bool,
}

fn plain(path: &[u8], size: u64, data: &[u8]) -> FileSpec {
    FileSpec {
        path: path.to_vec(),
        size,
        block_size: None,
        data: data.to_vec(),
        fail_open: false,
        fail_close: false,
        fail_read: false,
    }
}

/// A transform whose output is fixed per invocation; it counts its
/// invocations and can be told to fail from some invocation on.
struct ListTransform {
    files: Vec<FileSpec>,
    calls: Rc<Cell<u32>>,
    fail_from_call: Option<u32>,
}

impl Transform<HookProvider> for ListTransform {
    fn call_transform(
        &mut self,
        _inputs: &Vec<Vec<u8>>,
    ) -> Result<Vec<OutputFileEntry<HookProvider>>, String> {
        self.calls.set(self.calls.get() + 1);
        if let Some(n) = self.fail_from_call {
            if self.calls.get() >= n {
                return Err(String::from("transform failed"));
            }
        }
        Ok(self
            .files
            .iter()
            .map(|f| OutputFileEntry {
                path: f.path.clone(),
                file: OutputFile {
                    metadata: OutputFileMetadata { size: f.size, block_size: f.block_size },
                    provider: HookProvider {
                        data: f.data.clone(),
                        fail_open: f.fail_open,
                        fail_close: f.fail_close,
                        fail_read: f.fail_read,
                    },
                },
            })
            .collect())
    }
}

fn session(
    files: Vec<FileSpec>,
    timeout: u64,
) -> (TransformFs<HookProvider, ListTransform>, Rc<Cell<u32>>) {
    let calls = Rc::new(Cell::new(0));
    let t = ListTransform { files, calls: calls.clone(), fail_from_call: None };
    let fs = TransformFs::init(Vec::new(), t, Config { timeout }, 0, 1000, 1001).unwrap();
    (fs, calls)
}

#[test]
fn round_trip_lookup_getattr_read() {
    let (mut fs, _) = session(vec![plain(b"/a.txt", 5, b"hello")], 1000);
    let attr = fs.lookup(0, 1, &b"a.txt".to_vec()).unwrap();
    assert_eq!(attr.kind, FileKind::RegularFile);
    assert_eq!(attr.size, 5);
    let again = fs.getattr(0, attr.ino).unwrap();
    assert_eq!(again.kind, FileKind::RegularFile);
    assert_eq!(again.size, 5);
    assert_eq!(again.ino, attr.ino);
    let data = fs.read(attr.ino, 0, 5).unwrap();
    assert_eq!(data, b"hello".to_vec());
}

#[test]
fn hierarchy_readdir_lists_in_order() {
    let (mut fs, _) = session(
        vec![plain(b"/dir/a.txt", 1, b"x"), plain(b"/dir/b.txt", 1, b"y")],
        1000,
    );
    let root_list = fs.readdir(0, 1, 0).unwrap();
    assert_eq!(root_list.len(), 1);
    assert_eq!(root_list[0].0.name, b"dir".to_vec());
    assert_eq!(root_list[0].0.kind, FileKind::Directory);
    let dir_ino = root_list[0].0.ino;
    let dir_list = fs.readdir(0, dir_ino, 0).unwrap();
    assert_eq!(dir_list.len(), 2);
    assert_eq!(dir_list[0].0.name, b"a.txt".to_vec());
    assert_eq!(dir_list[1].0.name, b"b.txt".to_vec());
}

#[test]
fn conflicts_resolved_first_entry_wins() {
    let (mut fs, _) = session(vec![plain(b"/x", 3, b"abc"), plain(b"/x/y", 1, b"z")], 1000);
    let x = fs.lookup(0, 1, &b"x".to_vec()).unwrap();
    assert_eq!(x.kind, FileKind::RegularFile);
    assert_eq!(fs.lookup(0, x.ino, &b"y".to_vec()), Err(FsError::NotFound));

    let (mut fs2, _) = session(vec![plain(b"/x/y", 1, b"z"), plain(b"/x", 3, b"abc")], 1000);
    let x2 = fs2.lookup(0, 1, &b"x".to_vec()).unwrap();
    assert_eq!(x2.kind, FileKind::Directory);
    let y2 = fs2.lookup(0, x2.ino, &b"y".to_vec()).unwrap();
    assert_eq!(y2.kind, FileKind::RegularFile);
}

#[test]
fn refresh_skipped_within_interval() {
    let (mut fs, calls) = session(vec![plain(b"/a", 1, b"x")], 1000);
    assert_eq!(calls.get(), 1);
    fs.getattr(500, 1).unwrap();
    fs.getattr(900, 1).unwrap();
    fs.getattr(1000, 1).unwrap();
    assert_eq!(calls.get(), 1);
}

#[test]
fn refresh_invoked_after_interval() {
    let (mut fs, calls) = session(vec![plain(b"/a", 1, b"x")], 1000);
    assert_eq!(calls.get(), 1);
    fs.getattr(1001, 1).unwrap();
    assert_eq!(calls.get(), 2);
    // the rebuild reset the clock: the next request within the interval
    // does not invoke the transform again
    fs.getattr(1500, 1).unwrap();
    assert_eq!(calls.get(), 2);
}

#[test]
fn refresh_ignores_backwards_clock() {
    let (mut fs, calls) = session(vec![plain(b"/a", 1, b"x")], 1000);
    let ino = fs.lookup(0, 1, &b"a".to_vec()).unwrap().ino;
    fs.getattr(2000, ino).unwrap();
    assert_eq!(calls.get(), 2);
    // now < last rebuild time: no refresh, tree untouched
    fs.getattr(100, ino).unwrap();
    assert_eq!(calls.get(), 2);
}

#[test]
fn stale_tree_survives_transform_failure() {
    let calls = Rc::new(Cell::new(0));
    let t = ListTransform {
        files: vec![plain(b"/a.txt", 5, b"hello"), plain(b"/d/b.txt", 1, b"y")],
        calls: calls.clone(),
        fail_from_call: Some(2),
    };
    let mut fs = TransformFs::init(Vec::new(), t, Config { timeout: 1000 }, 0, 1, 1).unwrap();
    let a = fs.lookup(0, 1, &b"a.txt".to_vec()).unwrap();
    // past the interval: the transform is invoked again and fails
    let a_after = fs.lookup(5000, 1, &b"a.txt".to_vec()).unwrap();
    assert_eq!(calls.get(), 2);
    // the previous generation still answers, identities intact
    assert_eq!(a_after.ino, a.ino);
    assert_eq!(a_after.size, 5);
    assert_eq!(fs.read(a.ino, 0, 5).unwrap(), b"hello".to_vec());
    let d = fs.lookup(6000, 1, &b"d".to_vec()).unwrap();
    assert_eq!(d.kind, FileKind::Directory);
}

#[test]
fn refresh_replaces_identities() {
    let (mut fs, calls) = session(vec![plain(b"/a", 1, b"x"), plain(b"/b", 1, b"y")], 10);
    let b_before = fs.lookup(0, 1, &b"b".to_vec()).unwrap().ino;
    // rebuild: entries are placed again from scratch, in order
    fs.getattr(100, 1).unwrap();
    assert_eq!(calls.get(), 2);
    let b_after = fs.lookup(100, 1, &b"b".to_vec()).unwrap().ino;
    assert_eq!(b_before, b_after);
    assert_eq!(fs.statfs().files, 3);
}

#[test]
fn readdir_resumes_at_returned_offsets() {
    let (mut fs, _) = session(
        vec![
            plain(b"/a", 1, b"1"),
            plain(b"/b", 1, b"2"),
            plain(b"/c", 1, b"3"),
            plain(b"/d", 1, b"4"),
            plain(b"/e", 1, b"5"),
        ],
        1000,
    );
    // consume one entry per call, resuming at the returned offset, as a
    // kernel with a one-entry reply buffer would
    let mut names: Vec<Vec<u8>> = Vec::new();
    let mut offset: u64 = 0;
    loop {
        let entries = fs.readdir(0, 1, offset).unwrap();
        if entries.is_empty() {
            break;
        }
        names.push(entries[0].0.name.clone());
        offset = entries[0].1;
    }
    assert_eq!(
        names,
        vec![b"a".to_vec(), b"b".to_vec(), b"c".to_vec(), b"d".to_vec(), b"e".to_vec()]
    );
    // the same walk with a three-entry buffer yields the same list
    let first = fs.readdir(0, 1, 0).unwrap();
    let chunk: Vec<Vec<u8>> = first.iter().take(3).map(|e| e.0.name.clone()).collect();
    let rest = fs.readdir(0, 1, first[2].1).unwrap();
    let mut both = chunk;
    both.extend(rest.iter().map(|e| e.0.name.clone()));
    assert_eq!(both, names);
}

#[test]
fn readdir_rejects_files_and_dead_identities() {
    let (mut fs, _) = session(vec![plain(b"/a", 1, b"1")], 1000);
    let a = fs.lookup(0, 1, &b"a".to_vec()).unwrap().ino;
    assert_eq!(fs.readdir(0, a, 0), Err(FsError::InvalidOperation));
    assert_eq!(fs.readdir(0, 99, 0), Err(FsError::NotFound));
}

#[test]
fn open_and_release_run_hooks() {
    let (mut fs, _) = session(vec![plain(b"/a", 1, b"1")], 1000);
    let a = fs.lookup(0, 1, &b"a".to_vec()).unwrap().ino;
    assert_eq!(fs.open(a), Ok(()));
    assert_eq!(fs.release(a), Ok(()));
    assert_eq!(fs.open(1), Err(FsError::InvalidOperation));
    assert_eq!(fs.release(1), Err(FsError::InvalidOperation));
    assert_eq!(fs.open(42), Err(FsError::NotFound));
    assert_eq!(fs.release(42), Err(FsError::NotFound));
}

#[test]
fn failing_hooks_surface_as_hook_failures() {
    let mut bad_open = plain(b"/o", 1, b"1");
    bad_open.fail_open = true;
    let mut bad_close = plain(b"/c", 1, b"2");
    bad_close.fail_close = true;
    let mut bad_read = plain(b"/r", 1, b"3");
    bad_read.fail_read = true;
    let (mut fs, _) = session(vec![bad_open, bad_close, bad_read], 1000);
    let o = fs.lookup(0, 1, &b"o".to_vec()).unwrap().ino;
    let c = fs.lookup(0, 1, &b"c".to_vec()).unwrap().ino;
    let r = fs.lookup(0, 1, &b"r".to_vec()).unwrap().ino;
    assert_eq!(fs.open(o), Err(FsError::HookFailure));
    assert_eq!(fs.release(c), Err(FsError::HookFailure));
    assert_eq!(fs.read(r, 0, 1), Err(FsError::HookFailure));
    // a hook failure leaves the filesystem usable for other paths
    assert_eq!(fs.open(c), Ok(()));
    assert_eq!(fs.read(c, 0, 1).unwrap(), b"2".to_vec());
}

#[test]
fn read_passes_hook_buffer_through() {
    let (mut fs, _) = session(vec![plain(b"/a", 26, b"abcdefghijklmnopqrstuvwxyz")], 1000);
    let a = fs.lookup(0, 1, &b"a".to_vec()).unwrap().ino;
    assert_eq!(fs.read(a, 2, 3).unwrap(), b"cde".to_vec());
    assert_eq!(fs.read(a, 24, 10).unwrap(), b"yz".to_vec());
    assert_eq!(fs.read(1, 0, 1), Err(FsError::InvalidOperation));
    assert_eq!(fs.read(77, 0, 1), Err(FsError::NotFound));
}

#[test]
fn attribute_records_follow_metadata_and_template() {
    let mut sized = plain(b"/s", 1000, b"");
    sized.block_size = Some(256);
    let mut zero_bs = plain(b"/z", 10, b"");
    zero_bs.block_size = Some(0);
    let files = vec![sized, plain(b"/p", 1000, b""), plain(b"/e", 0, b""), zero_bs];
    let calls = Rc::new(Cell::new(0));
    let t = ListTransform { files, calls: calls.clone(), fail_from_call: None };
    let mut fs =
        TransformFs::init(Vec::new(), t, Config { timeout: 9 }, 123, 501, 502).unwrap();

    let s = fs.lookup(123, 1, &b"s".to_vec()).unwrap();
    assert_eq!(s.blksize, 256);
    assert_eq!(s.blocks, 4); // ceil(1000 / 256)
    assert_eq!(s.perm, 0o644);
    assert_eq!(s.uid, 501);
    assert_eq!(s.gid, 502);
    assert_eq!(s.nlink, 1);
    assert_eq!(s.atime, 123);
    assert_eq!(s.mtime, 123);
    assert_eq!(s.ctime, 123);
    assert_eq!(s.crtime, 123);

    let p = fs.lookup(123, 1, &b"p".to_vec()).unwrap();
    assert_eq!(p.blksize, 512); // template default
    assert_eq!(p.blocks, 2); // ceil(1000 / 512)

    let e = fs.lookup(123, 1, &b"e".to_vec()).unwrap();
    assert_eq!(e.blocks, 0);

    let z = fs.lookup(123, 1, &b"z".to_vec()).unwrap();
    assert_eq!(z.blksize, 0);
    assert_eq!(z.blocks, 0);

    let root = fs.getattr(123, 1).unwrap();
    assert_eq!(root.kind, FileKind::Directory);
    assert_eq!(root.perm, 0o755);
    assert_eq!(root.ino, 1);
    assert_eq!(root.uid, 501);
}

#[test]
fn statfs_reports_node_count_and_constants() {
    let (fs, _) = session(vec![plain(b"/d/a", 1, b"1"), plain(b"/d/b", 1, b"2")], 1000);
    let st = fs.statfs();
    assert_eq!(st.files, 4); // root, d, a, b
    assert_eq!(st.blocks, 0);
    assert_eq!(st.bfree, 0);
    assert_eq!(st.bavail, 0);
    assert_eq!(st.ffree, 0);
    assert_eq!(st.bsize, 512);
    assert_eq!(st.namelen, 255);
    assert_eq!(st.frsize, 512);
}

#[test]
fn lookup_misses_report_not_found() {
    let (mut fs, _) = session(vec![plain(b"/a", 1, b"1")], 1000);
    assert_eq!(fs.lookup(0, 1, &b"missing".to_vec()), Err(FsError::NotFound));
    assert_eq!(fs.lookup(0, 99, &b"a".to_vec()), Err(FsError::NotFound));
    assert_eq!(fs.getattr(0, 99), Err(FsError::NotFound));
}

#[test]
fn failed_init_surfaces_transform_error() {
    let calls = Rc::new(Cell::new(0));
    let t = ListTransform { files: Vec::new(), calls: calls.clone(), fail_from_call: Some(1) };
    let r = TransformFs::init(Vec::new(), t, Config { timeout: 1 }, 0, 1, 1);
    assert!(r.is_err());
    assert_eq!(calls.get(), 1);
}

#[test]
fn attribute_records_handle_extreme_sizes() {
    let mut huge = plain(b"/huge", u64::MAX, b"");
    huge.block_size = None;
    let mut unit = plain(b"/unit", u64::MAX, b"");
    unit.block_size = Some(1);
    let (mut fs, _) = session(vec![huge, unit], 1000);
    let h = fs.lookup(0, 1, &b"huge".to_vec()).unwrap();
    assert_eq!(h.size, u64::MAX);
    assert_eq!(h.blocks, 36028797018963968); // ceil(u64::MAX / 512)
    let u = fs.lookup(0, 1, &b"unit".to_vec()).unwrap();
    assert_eq!(u.blocks, u64::MAX);
}

#[test]
fn deep_paths_synthesize_each_ancestor() {
    let (mut fs, _) = session(vec![plain(b"/a/b/c/d/e/f.txt", 1, b"q")], 1000);
    let mut ino: u64 = 1;
    for name in [&b"a"[..], b"b", b"c", b"d", b"e"] {
        let attr = fs.lookup(0, ino, &name.to_vec()).unwrap();
        assert_eq!(attr.kind, FileKind::Directory);
        ino = attr.ino;
    }
    let f = fs.lookup(0, ino, &b"f.txt".to_vec()).unwrap();
    assert_eq!(f.kind, FileKind::RegularFile);
    assert_eq!(fs.statfs().files, 7);
}
