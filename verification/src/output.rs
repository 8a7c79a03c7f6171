//! The virtual tree of one generation.
//!
//! A tree is an arena of nodes. The node at arena index `i` has identity
//! `i + 1`, so identities are issued monotonically from the reserved root
//! identity upward and are unique within the generation. Each node records
//! its absolute path, its parent's identity and its own name, so both
//! indices of the tree — identity to node, and path to identity — are
//! functions of the arena: a path resolves to the first (and, in a
//! well-formed tree, only) node carrying it, and a directory's ordered
//! child list consists of the nodes naming it as parent, in creation
//! order, which is insertion order.

use vstd::prelude::*;

use crate::paths::{components_of, join_path, root_path, SEP};
use crate::paths::{copy_bytes, join_path_exec, split_components};

verus! {

/// The reserved identity of the tree root.
pub const ROOT_INO: u64 = 1;

/// Largest number of nodes one tree generation may hold. An entry whose
/// placement would grow the tree beyond this machine limit is dropped like
/// a conflicting entry.
pub const MAX_NODES: usize = 0x1000_0000;

/// The kind of a node.
#[derive(Clone, Copy, Debug, PartialEq, Eq, Structural)]
pub enum FileKind {
    RegularFile,
    Directory,
}

/// Declared metadata of a file entry: its size, and an optional block-size
/// hint (the session's template block size is used when absent).
#[derive(Clone, Copy, Debug)]
pub struct OutputFileMetadata {
    pub size: u64,
    pub block_size: Option<u32>,
}

/// A file as the transform declared it: metadata plus the content provider
/// holding the file's open/close/read hooks.
pub struct OutputFile<P> {
    pub metadata: OutputFileMetadata,
    pub provider: P,
}

/// One output entry as returned by the transform: a virtual path and the
/// declared file under it.
pub struct OutputFileEntry<P> {
    pub path: Vec<u8>,
    pub file: OutputFile<P>,
}

/// What a node holds: a declared file, or a directory synthesized from the
/// path components of the file entries beneath it.
pub enum OutputContent<P> {
    File(OutputFile<P>),
    Dir,
}

/// One node of the tree. `parent` is the identity of the parent directory
/// (0 for the root, which has no parent) and `name` is the node's last path
/// component (empty for the root).
pub struct OutputEntry<P> {
    pub path: Vec<u8>,
    pub parent: u64,
    pub name: Vec<u8>,
    pub content: OutputContent<P>,
}

/// One emitted directory-listing entry.
#[derive(Debug, PartialEq, Eq)]
pub struct OutputDirEntry {
    pub ino: u64,
    pub name: Vec<u8>,
    pub kind: FileKind,
}

/// The mathematical view of a node's content: content providers are opaque,
/// only the declared metadata is modelled.
pub enum ContentView {
    File(OutputFileMetadata),
    Dir,
}

/// The mathematical view of one node.
pub struct NodeView {
    pub path: Seq<u8>,
    pub parent: u64,
    pub name: Seq<u8>,
    pub content: ContentView,
}

/// The mathematical view of one declared file entry.
pub struct FileEntryView {
    pub path: Seq<u8>,
    pub metadata: OutputFileMetadata,
}

/// The mathematical view of one directory-listing entry.
pub struct DirEntryView {
    pub ino: u64,
    pub name: Seq<u8>,
    pub kind: FileKind,
}

impl<P> View for OutputFile<P> {
    type V = OutputFileMetadata;

    open spec fn view(&self) -> OutputFileMetadata {
        self.metadata
    }
}

impl<P> View for OutputFileEntry<P> {
    type V = FileEntryView;

    open spec fn view(&self) -> FileEntryView {
        FileEntryView { path: self.path@, metadata: self.file.metadata }
    }
}

impl<P> View for OutputContent<P> {
    type V = ContentView;

    open spec fn view(&self) -> ContentView {
        match self {
            OutputContent::File(f) => ContentView::File(f.metadata),
            OutputContent::Dir => ContentView::Dir,
        }
    }
}

impl<P> View for OutputEntry<P> {
    type V = NodeView;

    open spec fn view(&self) -> NodeView {
        NodeView { path: self.path@, parent: self.parent, name: self.name@, content: self.content@ }
    }
}

impl View for OutputDirEntry {
    type V = DirEntryView;

    open spec fn view(&self) -> DirEntryView {
        DirEntryView { ino: self.ino, name: self.name@, kind: self.kind }
    }
}

/// The views of a sequence of declared entries.
pub open spec fn entries_view<P>(s: Seq<OutputFileEntry<P>>) -> Seq<FileEntryView> {
    s.map_values(|e: OutputFileEntry<P>| e@)
}

/// The kind a content gives its node.
pub open spec fn kind_of(c: ContentView) -> FileKind {
    match c {
        ContentView::File(_) => FileKind::RegularFile,
        ContentView::Dir => FileKind::Directory,
    }
}

/// Whether `ino` is an identity of the tree `t`.
pub open spec fn ino_valid(t: Seq<NodeView>, ino: u64) -> bool {
    1 <= ino && ino <= t.len()
}

/// The node an identity resolves to.
pub open spec fn node_of(t: Seq<NodeView>, ino: u64) -> NodeView {
    t[ino - 1]
}

/// The identity the path index holds for `p`, searching from arena index
/// `i`: the first node at or after `i` whose recorded path is `p`.
pub open spec fn find_path_from(t: Seq<NodeView>, p: Seq<u8>, i: int) -> Option<u64>
    decreases t.len() - i,
{
    if i < 0 || i >= t.len() {
        None
    } else if t[i].path == p {
        Some((i + 1) as u64)
    } else {
        find_path_from(t, p, i + 1)
    }
}

/// The identity the path index holds for `p`.
pub open spec fn find_path(t: Seq<NodeView>, p: Seq<u8>) -> Option<u64> {
    find_path_from(t, p, 0)
}

/// The ordered child list of the directory with identity `ino`, restricted
/// to the first `n` arena slots.
pub open spec fn children_upto(t: Seq<NodeView>, ino: u64, n: int) -> Seq<DirEntryView>
    decreases n,
{
    if n <= 0 {
        Seq::empty()
    } else {
        children_upto(t, ino, n - 1) + (if t[n - 1].parent == ino {
            seq![DirEntryView { ino: n as u64, name: t[n - 1].name, kind: kind_of(t[n - 1].content) }]
        } else {
            Seq::empty()
        })
    }
}

/// The ordered child list of the directory with identity `ino`: the nodes
/// naming it as parent, in insertion order.
pub open spec fn children_of(t: Seq<NodeView>, ino: u64) -> Seq<DirEntryView> {
    children_upto(t, ino, t.len() as int)
}

/// Consistency of the non-root node at arena index `i`: its parent is an
/// earlier directory node, and its recorded path is its parent's path with
/// its own (non-empty) name joined on.
pub open spec fn node_ok(t: Seq<NodeView>, i: int) -> bool {
    let n = t[i];
    &&& 1 <= n.parent as int <= i
    &&& t[n.parent - 1].content is Dir
    &&& n.path == join_path(t[n.parent - 1].path, n.name)
    &&& n.name.len() > 0
}

/// Well-formedness of a tree: the root is a directory at path "/" with no
/// parent, every other node is consistent, no two nodes share a path, and
/// the arena respects the machine limit on its size.
pub open spec fn wf_nodes(t: Seq<NodeView>) -> bool {
    &&& 1 <= t.len() && t.len() <= MAX_NODES as int
    &&& t[0].path == root_path()
    &&& t[0].content is Dir
    &&& t[0].parent == 0
    &&& forall|i: int| 1 <= i < t.len() ==> #[trigger] node_ok(t, i)
    &&& forall|i: int, j: int| 0 <= i < j < t.len() ==> t[i].path != t[j].path
}

/// The tree extended by one node under the directory at arena index
/// `parent_idx`.
pub open spec fn push_node(
    t: Seq<NodeView>,
    parent_idx: int,
    name: Seq<u8>,
    content: ContentView,
) -> Seq<NodeView> {
    t.push(
        NodeView {
            path: join_path(t[parent_idx].path, name),
            parent: (parent_idx + 1) as u64,
            name: name,
            content: content,
        },
    )
}

/// Placement of one entry's components `comps[j..]`, walking from the
/// directory at arena index `d`. Mirrors the builder: a prefix component
/// continues through an existing directory, creates a missing one, and
/// abandons the entry on a file conflict; the final component places the
/// file only if its path is still unregistered. The entry is dropped when
/// the tree is full. Returns the new tree and whether the entry was placed.
pub open spec fn place_from(
    t: Seq<NodeView>,
    d: int,
    comps: Seq<Seq<u8>>,
    j: int,
    meta: OutputFileMetadata,
) -> (Seq<NodeView>, bool)
    decreases comps.len() - j,
{
    if j < 0 || j >= comps.len() {
        (t, false)
    } else {
        let c = comps[j];
        let np = join_path(t[d].path, c);
        if j == comps.len() - 1 {
            if find_path(t, np) is Some {
                (t, false)
            } else if t.len() >= MAX_NODES as int {
                (t, false)
            } else {
                (push_node(t, d, c, ContentView::File(meta)), true)
            }
        } else {
            match find_path(t, np) {
                Some(ino) => if t[ino - 1].content is Dir {
                    place_from(t, ino - 1, comps, j + 1, meta)
                } else {
                    (t, false)
                },
                None => if t.len() >= MAX_NODES as int {
                    (t, false)
                } else {
                    place_from(push_node(t, d, c, ContentView::Dir), t.len() as int, comps, j + 1, meta)
                },
            }
        }
    }
}

/// Placement of one declared entry into the tree: walk its components from
/// the root. An entry with no components (a root or empty path) is dropped.
pub open spec fn place_entry_spec(t: Seq<NodeView>, e: FileEntryView) -> (Seq<NodeView>, bool) {
    let comps = components_of(e.path);
    if comps.len() == 0 {
        (t, false)
    } else {
        place_from(t, 0, comps, 0, e.metadata)
    }
}

/// The root node every generation starts from.
pub open spec fn root_node() -> NodeView {
    NodeView { path: root_path(), parent: 0, name: Seq::empty(), content: ContentView::Dir }
}

/// Folding the declared entries, in order, into a tree that starts as
/// `t` with `placed` entries already placed.
pub open spec fn build_from(
    t: Seq<NodeView>,
    es: Seq<FileEntryView>,
    placed: int,
) -> (Seq<NodeView>, int)
    decreases es.len(),
{
    if es.len() == 0 {
        (t, placed)
    } else {
        let r = place_entry_spec(t, es[0]);
        build_from(r.0, es.skip(1), placed + if r.1 {
            1 as int
        } else {
            0 as int
        })
    }
}

/// The tree built from the ordered output-entry sequence, and the count of
/// entries successfully placed.
pub open spec fn build_spec(es: Seq<FileEntryView>) -> (Seq<NodeView>, int) {
    build_from(seq![root_node()], es, 0)
}

/// The tree built from the ordered output-entry sequence.
pub open spec fn built_tree(es: Seq<FileEntryView>) -> Seq<NodeView> {
    build_spec(es).0
}

/// How many of the declared entries were successfully placed.
pub open spec fn built_count(es: Seq<FileEntryView>) -> int {
    build_spec(es).1
}

/// A `Some` answer of the path index names a valid identity carrying the
/// looked-up path; a `None` answer means no node at or after `i` carries it.
pub proof fn lemma_find_path_from(t: Seq<NodeView>, p: Seq<u8>, i: int)
    requires
        t.len() <= usize::MAX as int,
        0 <= i,
    ensures
        match find_path_from(t, p, i) {
            Some(ino) => i + 1 <= ino as int <= t.len() && t[ino - 1].path == p,
            None => forall|k: int| 0 <= k < t.len() && i <= k ==> #[trigger] t[k].path != p,
        },
    decreases t.len() - i,
{
    if i < 0 || i >= t.len() {
    } else if t[i].path == p {
    } else {
        lemma_find_path_from(t, p, i + 1);
    }
}

/// In a tree with pairwise distinct paths, looking up the path recorded at
/// arena index `k` yields exactly identity `k + 1`.
pub proof fn lemma_find_path_first(t: Seq<NodeView>, k: int, i: int)
    requires
        forall|a: int, b: int| 0 <= a < b < t.len() ==> t[a].path != t[b].path,
        0 <= i <= k < t.len(),
        t.len() <= MAX_NODES as int,
    ensures
        find_path_from(t, t[k].path, i) == Some((k + 1) as u64),
    decreases t.len() - i,
{
    if i == k {
    } else {
        assert(t[i].path != t[k].path);
        lemma_find_path_first(t, k, i + 1);
    }
}

/// A child list over `n` arena slots has at most `n` entries.
pub proof fn lemma_children_upto_len(t: Seq<NodeView>, ino: u64, n: int)
    ensures
        n >= 0 ==> children_upto(t, ino, n).len() <= n,
    decreases n,
{
    if n > 0 {
        lemma_children_upto_len(t, ino, n - 1);
    }
}

/// Every entry of a child list over `n` slots names a node among those
/// slots whose parent is the listed directory, and carries that node's name
/// and kind; entries are listed in strictly increasing identity order.
pub proof fn lemma_children_upto_elems(t: Seq<NodeView>, ino: u64, n: int)
    requires
        n <= MAX_NODES as int,
    ensures
        forall|k: int|
            0 <= k < children_upto(t, ino, n).len() ==> {
                let c = #[trigger] children_upto(t, ino, n)[k];
                &&& 1 <= c.ino as int <= n
                &&& t[c.ino - 1].parent == ino
                &&& c.name == t[c.ino - 1].name
                &&& c.kind == kind_of(t[c.ino - 1].content)
            },
        forall|k1: int, k2: int|
            0 <= k1 < k2 < children_upto(t, ino, n).len() ==> children_upto(t, ino, n)[k1].ino
                < children_upto(t, ino, n)[k2].ino,
    decreases n,
{
    if n <= 0 {
    } else {
        lemma_children_upto_elems(t, ino, n - 1);
        let prev = children_upto(t, ino, n - 1);
        let cur = children_upto(t, ino, n);
        assert forall|k: int| 0 <= k < cur.len() implies {
            let c = #[trigger] cur[k];
            &&& 1 <= c.ino as int <= n
            &&& t[c.ino - 1].parent == ino
            &&& c.name == t[c.ino - 1].name
            &&& c.kind == kind_of(t[c.ino - 1].content)
        } by {
            if k < prev.len() {
                assert(cur[k] == prev[k]);
            }
        }
    }
}

/// Pushing a node with a fresh path under an existing directory keeps the
/// tree well-formed.
pub proof fn lemma_push_preserves_wf(
    t: Seq<NodeView>,
    d: int,
    name: Seq<u8>,
    content: ContentView,
)
    requires
        wf_nodes(t),
        0 <= d < t.len(),
        t[d].content is Dir,
        name.len() > 0,
        find_path(t, join_path(t[d].path, name)) is None,
        t.len() < MAX_NODES as int,
    ensures
        wf_nodes(push_node(t, d, name, content)),
{
    let t2 = push_node(t, d, name, content);
    let np = join_path(t[d].path, name);
    lemma_find_path_from(t, np, 0);
    assert forall|i: int| 1 <= i < t2.len() implies #[trigger] node_ok(t2, i) by {
        if i < t.len() {
            assert(node_ok(t, i));
            assert(t2[i] == t[i]);
            assert(t2[t[i].parent - 1] == t[t[i].parent - 1]);
        } else {
            assert(t2[i] == t2[t.len() as int]);
            assert(t2[t2[i].parent - 1] == t[d]);
        }
    }
    assert forall|i: int, j: int| 0 <= i < j < t2.len() implies t2[i].path != t2[j].path by {
        if j < t.len() {
        } else {
            assert(t2[j].path == np);
            assert(t[i].path != np);
        }
    }
}

/// The output of the transform for the sole file system content: the user
/// transform callable, invoked with the flattened input identifiers. An
/// implementation returns the declared output entries, or a descriptive
/// error when the invocation failed or its output was malformed; nothing is
/// promised of the result, the tree builder validates placement itself.
pub trait Transform<P> {
    fn call_transform(&mut self, inputs: &Vec<Vec<u8>>) -> Result<Vec<OutputFileEntry<P>>, String>;
}

/// The open/close/read hooks of one file node. An implementation without an
/// open or close hook reports success from those methods; nothing is
/// promised of any result, the session states what holds of every outcome.
pub trait ContentProvider {
    fn open_hook(&self) -> Result<(), ()>;

    fn close_hook(&self) -> Result<(), ()>;

    fn read_hook(&self, offset: u64, size: u32) -> Result<Vec<u8>, ()>;
}

/// One fully built tree generation: the arena of nodes, where the node at
/// arena index `i` has identity `i + 1`.
pub struct Output<P> {
    nodes: Vec<OutputEntry<P>>,
}

impl<P> View for Output<P> {
    type V = Seq<NodeView>;

    open spec fn view(&self) -> Seq<NodeView> {
        self.arena().map_values(|n: OutputEntry<P>| n@)
    }
}

impl<P> Output<P> {
    /// The arena of nodes, as ghost state.
    pub closed spec fn arena(&self) -> Seq<OutputEntry<P>> {
        self.nodes@
    }

    /// How many nodes this generation holds.
    pub fn node_count(&self) -> (n: usize)
        ensures
            n == self@.len(),
    {
        self.nodes.len()
    }

    /// The node an identity of this generation resolves to.
    pub fn node(&self, ino: u64) -> (r: &OutputEntry<P>)
        requires
            ino_valid(self@, ino),
        ensures
            r@ == node_of(self@, ino),
    {
        proof {
            assert(self.nodes.len() == self.nodes@.len());
            assert(self@[ino - 1] == self.nodes@[ino - 1]@);
        }
        &self.nodes[(ino - 1) as usize]
    }

    /// The arena index of the first node recording path `p`, if any.
    #[verifier::loop_isolation(false)]
    fn find_path_idx(&self, p: &Vec<u8>) -> (r: Option<usize>)
        ensures
            match r {
                Some(k) => k < self@.len() && find_path(self@, p@) == Some((k + 1) as u64)
                    && self@[k as int].path == p@,
                None => find_path(self@, p@) is None,
            },
    {
        let ghost t = self@;
        let mut i: usize = 0;
        while i < self.nodes.len()
            invariant
                i <= self.nodes.len(),
                t == self@,
                t.len() == self.nodes@.len(),
                find_path_from(t, p@, 0) == find_path_from(t, p@, i as int),
            decreases self.nodes.len() - i,
        {
            if crate::paths::bytes_eq(&self.nodes[i].path, p) {
                proof {
                    assert(t[i as int] == self.nodes@[i as int]@);
                    assert(find_path_from(t, p@, i as int) == Some((i + 1) as u64));
                }
                return Some(i);
            }
            proof {
                assert(t[i as int] == self.nodes@[i as int]@);
                assert(find_path_from(t, p@, i as int) == find_path_from(t, p@, i + 1));
            }
            i = i + 1;
        }
        None
    }

    /// The identity the path index of this generation holds for `path`.
    pub fn lookup_path(&self, path: &Vec<u8>) -> (r: Option<u64>)
        ensures
            r == find_path(self@, path@),
            r matches Some(ino) ==> ino_valid(self@, ino) && node_of(self@, ino).path == path@,
    {
        proof {
            assert(self.nodes.len() == self.nodes@.len());
            lemma_find_path_from(self@, path@, 0);
        }
        match self.find_path_idx(path) {
            Some(k) => Some((k as u64) + 1),
            None => None,
        }
    }

    /// Places one declared entry into the partially built tree; returns
    /// whether the entry was placed or dropped.
    #[verifier::loop_isolation(false)]
    fn place_entry(&mut self, entry: OutputFileEntry<P>) -> (placed: bool)
        requires
            wf_nodes(old(self)@),
        ensures
            wf_nodes(final(self)@),
            final(self)@ == place_entry_spec(old(self)@, entry@).0,
            placed == place_entry_spec(old(self)@, entry@).1,
    {
        let ghost t0 = self@;
        let ghost ev = entry@;
        let ghost target = place_entry_spec(t0, ev);
        let OutputFileEntry { path, file } = entry;
        let comps = split_components(&path);
        let ghost cv = comps.deep_view();
        proof {
            assert(cv == components_of(ev.path));
            crate::paths::lemma_components_nonempty(ev.path);
        }
        if comps.len() == 0 {
            return false;
        }
        let meta = file.metadata;
        let mut d: usize = 0;
        let mut j: usize = 0;
        while j < comps.len() - 1
            invariant
                wf_nodes(self@),
                comps.deep_view() == cv,
                cv.len() == comps@.len(),
                j < comps.len(),
                (d as int) < self@.len(),
                self@[d as int].content is Dir,
                forall|k: int| 0 <= k < cv.len() ==> #[trigger] cv[k].len() > 0,
                meta == ev.metadata,
                place_from(self@, d as int, cv, j as int, meta) == target,
            decreases comps.len() - 1 - j,
        {
            let c: &Vec<u8> = &comps[j];
            proof {
                assert(c@ =~= cv[j as int]);
                assert(self@[d as int] == self.nodes@[d as int]@);
            }
            let np = join_path_exec(&self.nodes[d].path, c);
            match self.find_path_idx(&np) {
                Some(k) => {
                    proof {
                        assert(self@[k as int] == self.nodes@[k as int]@);
                    }
                    match &self.nodes[k].content {
                        OutputContent::Dir => {
                            proof {
                                assert(place_from(self@, d as int, cv, j as int, meta)
                                    == place_from(self@, k as int, cv, j + 1, meta));
                            }
                            d = k;
                        },
                        OutputContent::File(_) => {
                            proof {
                                assert(target == (self@, false));
                            }
                            return false;
                        },
                    }
                },
                None => {
                    if self.nodes.len() >= MAX_NODES {
                        proof {
                            assert(self@.len() >= MAX_NODES as int);
                            assert(target == (self@, false));
                        }
                        return false;
                    }
                    let name = copy_bytes(c);
                    let parent_ino = (d as u64) + 1;
                    let ghost tpre = self@;
                    self.nodes.push(
                        OutputEntry { path: np, parent: parent_ino, name, content: OutputContent::Dir },
                    );
                    proof {
                        assert(self@ =~= push_node(tpre, d as int, cv[j as int], ContentView::Dir));
                        lemma_push_preserves_wf(tpre, d as int, cv[j as int], ContentView::Dir);
                        assert(place_from(tpre, d as int, cv, j as int, meta) == place_from(
                            self@,
                            tpre.len() as int,
                            cv,
                            j + 1,
                            meta,
                        ));
                    }
                    d = self.nodes.len() - 1;
                },
            }
            j = j + 1;
        }
        let c: &Vec<u8> = &comps[j];
        proof {
            assert(c@ =~= cv[j as int]);
            assert(self@[d as int] == self.nodes@[d as int]@);
        }
        let np = join_path_exec(&self.nodes[d].path, c);
        match self.find_path_idx(&np) {
            Some(_) => {
                proof {
                    assert(target == (self@, false));
                }
                false
            },
            None => {
                if self.nodes.len() >= MAX_NODES {
                    proof {
                        assert(self@.len() >= MAX_NODES as int);
                        assert(target == (self@, false));
                    }
                    return false;
                }
                let name = copy_bytes(c);
                let parent_ino = (d as u64) + 1;
                let ghost tpre = self@;
                self.nodes.push(
                    OutputEntry {
                        path: np,
                        parent: parent_ino,
                        name,
                        content: OutputContent::File(file),
                    },
                );
                proof {
                    assert(self@ =~= push_node(tpre, d as int, cv[j as int], ContentView::File(meta)));
                    lemma_push_preserves_wf(tpre, d as int, cv[j as int], ContentView::File(meta));
                    assert(target == (self@, true));
                }
                true
            },
        }
    }

    /// Builds one tree generation from the ordered output-entry sequence.
    /// Returns the tree and the count of entries successfully placed.
    #[verifier::loop_isolation(false)]
    pub fn build(entries: Vec<OutputFileEntry<P>>) -> (r: (Output<P>, usize))
        ensures
            wf_nodes(r.0@),
            r.0@ == built_tree(entries_view(entries@)),
            r.1 as int == built_count(entries_view(entries@)),
    {
        let ghost all = entries_view(entries@);
        let mut rp: Vec<u8> = Vec::new();
        rp.push(SEP);
        proof {
            assert(rp@ =~= root_path());
        }
        let rootent = OutputEntry::<P> {
            path: rp,
            parent: 0,
            name: Vec::new(),
            content: OutputContent::Dir,
        };
        proof {
            assert(rootent.name@ =~= Seq::<u8>::empty());
            assert(rootent@ == root_node());
        }
        let mut nodes: Vec<OutputEntry<P>> = Vec::new();
        nodes.push(rootent);
        let mut out = Output { nodes };
        proof {
            assert(out@ =~= seq![root_node()]);
        }
        let mut remaining = entries;
        let mut placed: usize = 0;
        let ghost total = remaining@.len();
        proof {
            assert(remaining.len() == remaining@.len());
        }
        while remaining.len() > 0
            invariant
                wf_nodes(out@),
                placed <= total - remaining@.len(),
                build_spec(all) == build_from(out@, entries_view(remaining@), placed as int),
            decreases remaining.len(),
        {
            let ghost pre = entries_view(remaining@);
            let e = remaining.remove(0);
            let ghost post = entries_view(remaining@);
            proof {
                assert(post =~= pre.skip(1));
                assert(pre[0] == e@);
            }
            let ghost tpre = out@;
            proof {
                assert(placed < total);
            }
            let ok = out.place_entry(e);
            proof {
                assert(build_from(tpre, pre, placed as int) == build_from(
                    out@,
                    post,
                    placed as int + if ok {
                        1 as int
                    } else {
                        0 as int
                    },
                ));
            }
            if ok {
                placed = placed + 1;
            }
        }
        proof {
            assert(entries_view(remaining@) =~= Seq::<FileEntryView>::empty());
            assert(build_from(out@, entries_view(remaining@), placed as int) == (
                out@,
                placed as int,
            ));
        }
        (out, placed)
    }

    /// Invokes the transform on the input identifiers and builds the tree
    /// generation from what it declared. On transform failure the error is
    /// handed back and no tree is produced.
    pub fn init<T: Transform<P>>(transform: &mut T, inputs: &Vec<Vec<u8>>) -> (r: Result<
        (Output<P>, usize),
        String,
    >)
        ensures
            r matches Ok(o) ==> wf_nodes(o.0@) && exists|es: Seq<FileEntryView>|
                o.0@ == #[trigger] built_tree(es) && o.1 as int == built_count(es),
    {
        match transform.call_transform(inputs) {
            Ok(entries) => {
                let ghost es = entries_view(entries@);
                let r = Output::build(entries);
                proof {
                    assert(r.0@ == built_tree(es) && r.1 as int == built_count(es));
                }
                Ok(r)
            },
            Err(e) => Err(e),
        }
    }

    /// The ordered child descriptors of the directory with identity `ino`,
    /// starting at child position `offset`; each is paired with the position
    /// to resume at after consuming it.
    #[verifier::loop_isolation(false)]
    pub fn children_from_offset(&self, ino: u64, offset: u64) -> (r: Vec<(OutputDirEntry, u64)>)
        requires
            wf_nodes(self@),
        ensures
            ({
                let cs = children_of(self@, ino);
                &&& r@.len() == if offset <= cs.len() {
                    cs.len() - offset
                } else {
                    0
                }
                &&& forall|k: int|
                    0 <= k < r@.len() ==> (#[trigger] r@[k]).0@ == cs[offset + k] && r@[k].1
                        == offset + k + 1
            }),
    {
        let ghost t = self@;
        let ghost cs = children_of(t, ino);
        let mut r: Vec<(OutputDirEntry, u64)> = Vec::new();
        let mut pos: u64 = 0;
        let mut i: usize = 0;
        proof {
            lemma_children_upto_len(t, ino, t.len() as int);
        }
        while i < self.nodes.len()
            invariant
                wf_nodes(t),
                t == self@,
                t.len() == self.nodes@.len(),
                i <= self.nodes@.len(),
                pos as int == children_upto(t, ino, i as int).len(),
                pos <= i,
                r@.len() == if offset <= pos {
                    pos - offset
                } else {
                    0
                },
                forall|k: int|
                    0 <= k < r@.len() ==> (#[trigger] r@[k]).0@ == children_upto(t, ino, i as int)[
                        offset + k
                    ] && r@[k].1 == offset + k + 1,
            decreases self.nodes@.len() - i,
        {
            let ghost prev = children_upto(t, ino, i as int);
            let ghost cur = children_upto(t, ino, i + 1);
            proof {
                assert(t[i as int] == self.nodes@[i as int]@);
                lemma_children_upto_len(t, ino, i + 1);
            }
            if self.nodes[i].parent == ino {
                proof {
                    assert(cur =~= prev + seq![
                        DirEntryView {
                            ino: (i + 1) as u64,
                            name: t[i as int].name,
                            kind: kind_of(t[i as int].content),
                        },
                    ]);
                }
                if pos >= offset {
                    let kind = match &self.nodes[i].content {
                        OutputContent::File(_) => FileKind::RegularFile,
                        OutputContent::Dir => FileKind::Directory,
                    };
                    let de = OutputDirEntry {
                        ino: (i as u64) + 1,
                        name: copy_bytes(&self.nodes[i].name),
                        kind,
                    };
                    proof {
                        assert(de@ == cur[pos as int]);
                    }
                    r.push((de, pos + 1));
                }
                pos = pos + 1;
            } else {
                proof {
                    assert(cur =~= prev);
                }
            }
            proof {
                assert(forall|k: int|
                    0 <= k < prev.len() ==> #[trigger] cur[k] == prev[k]);
            }
            i = i + 1;
        }
        r
    }
}

/// Placement of one entry never changes or removes existing nodes: the
/// prior tree is preserved exactly as a prefix, placement only appends,
/// and the arena never outgrows its machine limit.
pub proof fn lemma_place_from_extends(
    t: Seq<NodeView>,
    d: int,
    comps: Seq<Seq<u8>>,
    j: int,
    meta: OutputFileMetadata,
)
    requires
        t.len() <= MAX_NODES as int,
    ensures
        ({
            let r = place_from(t, d, comps, j, meta);
            &&& r.0.len() >= t.len()
            &&& r.0.len() <= MAX_NODES as int
            &&& r.0.take(t.len() as int) == t
        }),
    decreases comps.len() - j,
{
    let r = place_from(t, d, comps, j, meta);
    if j < 0 || j >= comps.len() {
        assert(r.0.take(t.len() as int) =~= t);
    } else {
        let c = comps[j];
        let np = join_path(t[d].path, c);
        if j == comps.len() - 1 {
            if find_path(t, np) is Some || t.len() >= MAX_NODES as int {
                assert(r.0.take(t.len() as int) =~= t);
            } else {
                assert(r.0.take(t.len() as int) =~= t);
            }
        } else {
            match find_path(t, np) {
                Some(ino) => {
                    if t[ino - 1].content is Dir {
                        lemma_place_from_extends(t, ino - 1, comps, j + 1, meta);
                    } else {
                        assert(r.0.take(t.len() as int) =~= t);
                    }
                },
                None => {
                    if t.len() >= MAX_NODES as int {
                        assert(r.0.take(t.len() as int) =~= t);
                    } else {
                        let t2 = push_node(t, d, c, ContentView::Dir);
                        lemma_place_from_extends(t2, t.len() as int, comps, j + 1, meta);
                        assert(r.0.take(t2.len() as int) == t2);
                        assert(r.0.take(t.len() as int) =~= t) by {
                            assert(forall|k: int|
                                0 <= k < t.len() ==> r.0.take(t2.len() as int)[k] == #[trigger] t2[k]);
                        }
                    }
                },
            }
        }
    }
}

/// A path registered in the index stays registered under the same identity
/// when the tree is only extended with new nodes.
pub proof fn lemma_find_path_stable(t: Seq<NodeView>, t2: Seq<NodeView>, p: Seq<u8>, i: int)
    requires
        0 <= i,
        t2.len() >= t.len(),
        t2.take(t.len() as int) == t,
        find_path_from(t, p, i) is Some,
    ensures
        find_path_from(t2, p, i) == find_path_from(t, p, i),
    decreases t.len() - i,
{
    assert(t2.take(t.len() as int)[i] == t[i]);
    if t[i].path == p {
    } else {
        lemma_find_path_stable(t, t2, p, i + 1);
    }
}

/// The first entry wins: once a path is registered, building any further
/// entries into the tree never rebinds the path or changes its node — a
/// later colliding entry is dropped, never merged or overwritten.
pub proof fn lemma_first_entry_wins(
    t: Seq<NodeView>,
    es: Seq<FileEntryView>,
    c: int,
    p: Seq<u8>,
    ino: u64,
)
    requires
        t.len() <= MAX_NODES as int,
        find_path(t, p) == Some(ino),
    ensures
        ({
            let r = build_from(t, es, c);
            &&& find_path(r.0, p) == Some(ino)
            &&& ino_valid(r.0, ino)
            &&& node_of(r.0, ino) == node_of(t, ino)
        }),
    decreases es.len(),
{
    lemma_find_path_from(t, p, 0);
    if es.len() == 0 {
    } else {
        let r1 = place_entry_spec(t, es[0]);
        let comps = components_of(es[0].path);
        if comps.len() == 0 {
            assert(r1.0.take(t.len() as int) =~= t);
        } else {
            lemma_place_from_extends(t, 0, comps, 0, es[0].metadata);
        }
        lemma_find_path_stable(t, r1.0, p, 0);
        assert(node_of(r1.0, ino) == node_of(t, ino)) by {
            assert(r1.0.take(t.len() as int)[ino - 1] == t[ino - 1]);
        }
        lemma_first_entry_wins(r1.0, es.skip(1), c + if r1.1 {
            1 as int
        } else {
            0 as int
        }, p, ino);
    }
}

/// The reserved root identity of a well-formed tree is always live, always
/// resolves to a directory node recording the root path, and the root path
/// resolves back to it.
pub proof fn lemma_root_identity(t: Seq<NodeView>)
    requires
        wf_nodes(t),
    ensures
        ino_valid(t, ROOT_INO),
        node_of(t, ROOT_INO).path == root_path(),
        node_of(t, ROOT_INO).content is Dir,
        find_path(t, root_path()) == Some(ROOT_INO),
{
    lemma_find_path_first(t, 0, 0);
}

/// No two distinct identities of a well-formed tree record the same path:
/// together with the round-trip of `lemma_identity_roundtrip`, the two
/// indices are inverse to one another on the live identities.
pub proof fn lemma_paths_unique(t: Seq<NodeView>, a: u64, b: u64)
    requires
        wf_nodes(t),
        ino_valid(t, a),
        ino_valid(t, b),
        a != b,
    ensures
        node_of(t, a).path != node_of(t, b).path,
{
    if a < b {
        assert(t[a - 1].path != t[b - 1].path);
    } else {
        assert(t[b - 1].path != t[a - 1].path);
    }
}

/// Readdir resumability: the entries a listing emits from cursor `o`, cut
/// off after any `m` of them, followed by the entries emitted from the
/// cursor `o + m` that the last consumed entry carried, are exactly the
/// entries emitted from `o`; so repeated calls, each resuming at the
/// previous call's last returned cursor, enumerate the child list exactly
/// once each, in insertion order, regardless of how many entries fit per
/// call.
pub proof fn lemma_readdir_resumable(cs: Seq<DirEntryView>, o: int, m: int)
    requires
        0 <= o,
        0 <= m,
        o + m <= cs.len(),
    ensures
        cs.skip(o).take(m) + cs.skip(o + m) == cs.skip(o),
{
    assert(cs.skip(o).take(m) + cs.skip(o + m) =~= cs.skip(o));
}

/// Identity invariants: in a well-formed tree, every identity reachable
/// through a directory's child list is a live identity of the tree, and the
/// node it resolves to records a path that the path index maps back to the
/// same identity.
pub proof fn lemma_identity_roundtrip(t: Seq<NodeView>, dir: u64, k: int)
    requires
        wf_nodes(t),
        0 <= k < children_of(t, dir).len(),
    ensures
        ({
            let c = children_of(t, dir)[k];
            &&& ino_valid(t, c.ino)
            &&& find_path(t, node_of(t, c.ino).path) == Some(c.ino)
        }),
{
    lemma_children_upto_elems(t, dir, t.len() as int);
    let c = children_of(t, dir)[k];
    lemma_children_upto_len(t, dir, t.len() as int);
    lemma_find_path_first(t, c.ino - 1, 0);
}

/// No directory of a well-formed tree lists two children with the same
/// name: distinct children resolve to distinct nodes, and two nodes under
/// the same parent with equal names would record the same path.
pub proof fn lemma_child_names_unique(t: Seq<NodeView>, dir: u64, k1: int, k2: int)
    requires
        wf_nodes(t),
        0 <= k1 < k2 < children_of(t, dir).len(),
    ensures
        children_of(t, dir)[k1].name != children_of(t, dir)[k2].name,
{
    lemma_children_upto_elems(t, dir, t.len() as int);
    let c1 = children_of(t, dir)[k1];
    let c2 = children_of(t, dir)[k2];
    assert(c1.ino < c2.ino);
    let i1 = c1.ino - 1;
    let i2 = c2.ino - 1;
    if c1.name == c2.name {
        if i1 == 0 {
            assert(t[i1].parent == 0);
            assert(t[i2].parent == dir);
            assert(node_ok(t, i2));
        } else {
            assert(node_ok(t, i1));
            assert(node_ok(t, i2));
            assert(t[i1].path == join_path(t[dir - 1].path, t[i1].name));
            assert(t[i2].path == join_path(t[dir - 1].path, t[i2].name));
            assert(t[i1].path == t[i2].path);
        }
    }
}

} // verus!
