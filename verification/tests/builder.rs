use transformfs::output::{
    ContentProvider, FileKind, Output, OutputContent, OutputFile, OutputFileEntry,
    OutputFileMetadata,
};

struct ByteProvider {
    data: Vec<u8>,
}

impl ContentProvider for ByteProvider {
    fn open_hook(&self) -> Result<(), ()> {
        Ok(())
    }

    fn close_hook(&self) -> Result<(), ()> {
        Ok(())
    }

    fn read_hook(&self, offset: u64, size: u32) -> Result<Vec<u8>, ()> {
        let start = if (offset as usize) < self.data.len() {
            offset as usize
        } else {
            self.data.len()
        };
        let end = if start + (size as usize) < self.data.len() {
            start + (size as usize)
        } else {
            self.data.len()
        };
        Ok(self.data[start..end].to_vec())
    }
}

fn entry(path: &[u8], size: u64, data: &[u8]) -> OutputFileEntry<ByteProvider> {
    OutputFileEntry {
        path: path.to_vec(),
        file: OutputFile {
            metadata: OutputFileMetadata { size, block_size: None },
            provider: ByteProvider { data: data.to_vec() },
        },
    }
}

fn is_file(o: &Output<ByteProvider>, ino: u64) -> bool {
    matches!(o.node(ino).content, OutputContent::File(_))
}

#[test]
fn build_empty_output_has_only_root() {
    let (out, placed) = Output::<ByteProvider>::build(Vec::new());
    assert_eq!(placed, 0);
    assert_eq!(out.node_count(), 1);
    assert_eq!(out.lookup_path(&b"/".to_vec()), Some(1));
    let root = out.node(1);
    assert_eq!(root.path, b"/".to_vec());
    assert!(matches!(root.content, OutputContent::Dir));
}

#[test]
fn build_single_file() {
    let (out, placed) = Output::build(vec![entry(b"/a.txt", 5, b"hello")]);
    assert_eq!(placed, 1);
    assert_eq!(out.node_count(), 2);
    let ino = out.lookup_path(&b"/a.txt".to_vec()).unwrap();
    assert_eq!(ino, 2);
    let node = out.node(ino);
    assert_eq!(node.parent, 1);
    assert_eq!(node.name, b"a.txt".to_vec());
    assert!(is_file(&out, ino));
}

#[test]
fn build_synthesizes_directories() {
    let (out, placed) = Output::build(vec![
        entry(b"/dir/a.txt", 1, b"x"),
        entry(b"/dir/b.txt", 1, b"y"),
    ]);
    assert_eq!(placed, 2);
    // root, dir, a.txt, b.txt
    assert_eq!(out.node_count(), 4);
    let dir = out.lookup_path(&b"/dir".to_vec()).unwrap();
    assert!(!is_file(&out, dir));
    let a = out.lookup_path(&b"/dir/a.txt".to_vec()).unwrap();
    let b = out.lookup_path(&b"/dir/b.txt".to_vec()).unwrap();
    assert_eq!(out.node(a).parent, dir);
    assert_eq!(out.node(b).parent, dir);
    let children = out.children_from_offset(dir, 0);
    assert_eq!(children.len(), 2);
    assert_eq!(children[0].0.name, b"a.txt".to_vec());
    assert_eq!(children[1].0.name, b"b.txt".to_vec());
}

#[test]
fn conflict_file_then_nested_drops_second() {
    let (out, placed) = Output::build(vec![entry(b"/x", 3, b"abc"), entry(b"/x/y", 1, b"z")]);
    assert_eq!(placed, 1);
    let x = out.lookup_path(&b"/x".to_vec()).unwrap();
    assert!(is_file(&out, x));
    assert_eq!(out.lookup_path(&b"/x/y".to_vec()), None);
    assert_eq!(out.node_count(), 2);
}

#[test]
fn conflict_nested_then_file_drops_second() {
    let (out, placed) = Output::build(vec![entry(b"/x/y", 1, b"z"), entry(b"/x", 3, b"abc")]);
    assert_eq!(placed, 1);
    let x = out.lookup_path(&b"/x".to_vec()).unwrap();
    assert!(!is_file(&out, x));
    let y = out.lookup_path(&b"/x/y".to_vec()).unwrap();
    assert!(is_file(&out, y));
    assert_eq!(out.node(y).parent, x);
    assert_eq!(out.node_count(), 3);
}

#[test]
fn duplicate_path_first_entry_wins() {
    let (out, placed) = Output::build(vec![entry(b"/a", 1, b"1"), entry(b"/a", 2, b"22")]);
    assert_eq!(placed, 1);
    let a = out.lookup_path(&b"/a".to_vec()).unwrap();
    match &out.node(a).content {
        OutputContent::File(f) => assert_eq!(f.metadata.size, 1),
        OutputContent::Dir => panic!("expected a file at /a"),
    }
    // the root lists exactly one child
    assert_eq!(out.children_from_offset(1, 0).len(), 1);
}

#[test]
fn conflict_leaves_later_entries_unaffected() {
    let (out, placed) = Output::build(vec![
        entry(b"/x", 1, b"a"),
        entry(b"/x/y", 1, b"b"),
        entry(b"/z", 1, b"c"),
    ]);
    assert_eq!(placed, 2);
    assert!(out.lookup_path(&b"/z".to_vec()).is_some());
}

#[test]
fn empty_and_root_paths_are_dropped() {
    let (out, placed) = Output::build(vec![entry(b"", 1, b"a"), entry(b"/", 1, b"b")]);
    assert_eq!(placed, 0);
    assert_eq!(out.node_count(), 1);
}

#[test]
fn paths_are_normalized_when_split() {
    let (out, placed) = Output::build(vec![entry(b"//d///e.txt", 2, b"hi"), entry(b"d/./f", 1, b"j")]);
    assert_eq!(placed, 2);
    let e = out.lookup_path(&b"/d/e.txt".to_vec()).unwrap();
    assert!(is_file(&out, e));
    let f = out.lookup_path(&b"/d/f".to_vec()).unwrap();
    assert!(is_file(&out, f));
    // both were placed under the same synthesized directory
    assert_eq!(out.node(e).parent, out.node(f).parent);
}

#[test]
fn readdir_entries_carry_resume_positions() {
    let (out, _) = Output::build(vec![
        entry(b"/a", 1, b"1"),
        entry(b"/b", 1, b"2"),
        entry(b"/c", 1, b"3"),
    ]);
    let all = out.children_from_offset(1, 0);
    assert_eq!(all.len(), 3);
    for (k, e) in all.iter().enumerate() {
        assert_eq!(e.1, (k as u64) + 1);
    }
    let tail = out.children_from_offset(1, 2);
    assert_eq!(tail.len(), 1);
    assert_eq!(tail[0].0.name, b"c".to_vec());
    assert_eq!(out.children_from_offset(1, 3).len(), 0);
    assert_eq!(out.children_from_offset(1, 17).len(), 0);
}

#[test]
fn identities_resolve_back_through_paths() {
    let (out, _) = Output::build(vec![
        entry(b"/d/a", 1, b"1"),
        entry(b"/d/e/b", 1, b"2"),
        entry(b"/c", 1, b"3"),
    ]);
    // every identity reachable from any directory's child list resolves
    // through its node's recorded path to the same identity
    let n = out.node_count() as u64;
    for dir in 1..=n {
        for (child, _) in out.children_from_offset(dir, 0) {
            let node = out.node(child.ino);
            assert_eq!(out.lookup_path(&node.path), Some(child.ino));
            assert_eq!(node.name, child.name);
            let kind = match node.content {
                OutputContent::File(_) => FileKind::RegularFile,
                OutputContent::Dir => FileKind::Directory,
            };
            assert_eq!(kind, child.kind);
        }
    }
}
