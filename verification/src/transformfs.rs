//! The virtual filesystem session: it owns the current tree generation,
//! the refresh interval and the default attribute template, answers every
//! request against the tree, and rebuilds the tree wholesale when the
//! interval has elapsed at the start of a read-sensitive request.
//!
//! Timestamps and the refresh interval are plain integers in one unit of
//! the caller's choosing (the caller supplies `now` on each read-sensitive
//! request); the session only compares elapsed time against the interval.

use vstd::prelude::*;

use crate::output::{
    built_tree, children_of, find_path, ino_valid, node_of, wf_nodes, ContentProvider,
    ContentView, FileEntryView, FileKind, NodeView, Output, OutputContent, OutputDirEntry,
    OutputEntry, Transform,
};
use crate::paths::{join_path, join_path_exec};

verus! {

/// Session configuration: the refresh interval for tree rebuilding, which
/// also serves as the kernel-side attribute-cache validity duration.
#[derive(Clone, Copy, Debug, PartialEq, Eq, Structural)]
pub struct Config {
    pub timeout: u64,
}

/// The errors a request handler reports through the kernel reply channel.
#[derive(Clone, Copy, Debug, PartialEq, Eq, Structural)]
pub enum FsError {
    /// The requested identity or path is absent from the current tree.
    NotFound,
    /// The operation is not valid for the node's kind.
    InvalidOperation,
    /// A user-supplied open/read/close hook failed.
    HookFailure,
}

/// What a refresh check did.
#[derive(Clone, Copy, Debug, PartialEq, Eq, Structural)]
pub enum UpdateOutcome {
    /// The interval had not elapsed (or the clock ran backwards): the
    /// transform was not invoked and the tree is untouched.
    Skipped,
    /// The transform was invoked and the tree was replaced wholesale.
    Refreshed,
    /// The transform was invoked and failed: the previous tree generation
    /// stays in effect.
    Stale,
}

/// The attribute record returned for any node.
#[derive(Clone, Copy, Debug, PartialEq, Eq, Structural)]
pub struct FileAttr {
    pub ino: u64,
    pub size: u64,
    pub blocks: u64,
    pub kind: FileKind,
    pub perm: u16,
    pub nlink: u32,
    pub uid: u32,
    pub gid: u32,
    pub rdev: u32,
    pub blksize: u32,
    pub flags: u32,
    pub atime: u64,
    pub mtime: u64,
    pub ctime: u64,
    pub crtime: u64,
}

/// The statfs reply: total node count as the files statistic, fixed block
/// size constants, free-space statistics reported as zero.
#[derive(Clone, Copy, Debug, PartialEq, Eq, Structural)]
pub struct StatFs {
    pub blocks: u64,
    pub bfree: u64,
    pub bavail: u64,
    pub files: u64,
    pub ffree: u64,
    pub bsize: u32,
    pub namelen: u32,
    pub frsize: u32,
}

/// The number of blocks a file of `size` bytes occupies at block size
/// `blksize`: the ceiling of `size / blksize`, and zero for an empty file
/// or a zero block size.
pub open spec fn blocks_of(size: u64, blksize: u32) -> u64 {
    if blksize == 0 || size == 0 {
        0
    } else {
        ((size - 1) as int / blksize as int + 1) as u64
    }
}

/// The attribute record composed for the node `n` under identity `ino`:
/// size and block size of a file come from its declared metadata (block
/// size falling back to the template), permission bits are fixed by kind,
/// and every other field comes from the session's default template `d`.
pub open spec fn attr_of(n: NodeView, ino: u64, d: FileAttr) -> FileAttr {
    match n.content {
        ContentView::File(m) => {
            let bs = match m.block_size {
                Some(b) => b,
                None => d.blksize,
            };
            FileAttr {
                ino: ino,
                size: m.size,
                blocks: blocks_of(m.size, bs),
                kind: FileKind::RegularFile,
                perm: 0o644,
                blksize: bs,
                ..d
            }
        },
        ContentView::Dir => FileAttr {
            ino: ino,
            kind: FileKind::Directory,
            perm: 0o755,
            ..d
        },
    }
}

/// The default attribute template captured at session start: owner and
/// group of the process, a fixed block size, all timestamps the session's
/// creation time, and placeholder identity/size fields that every
/// composed record overwrites.
pub open spec fn default_attr_spec(now: u64, uid: u32, gid: u32) -> FileAttr {
    FileAttr {
        ino: 0,
        size: 0,
        blocks: 0,
        kind: FileKind::RegularFile,
        perm: 0,
        nlink: 1,
        uid: uid,
        gid: gid,
        rdev: 0,
        blksize: 512,
        flags: 0,
        atime: now,
        mtime: now,
        ctime: now,
        crtime: now,
    }
}

/// Whether a refresh is due at time `now` given the last rebuild time and
/// the configured interval: strictly more than the interval has elapsed. A
/// clock that ran backwards (`now` before `last`) never makes a refresh
/// due.
pub open spec fn refresh_due(last: u64, timeout: u64, now: u64) -> bool {
    (last as int + timeout as int) < now as int
}

/// The virtual filesystem session.
pub struct TransformFs<P, T> {
    /// The configured input paths, handed unmodified to the transform.
    inputs: Vec<Vec<u8>>,
    /// Session configuration.
    pub config: Config,
    /// The transform invocation boundary.
    transform: T,
    /// Time of the last successful rebuild.
    last_updated: u64,
    /// The current tree generation.
    output: Output<P>,
    /// The default attribute template.
    default_attr: FileAttr,
}

impl<P, T> TransformFs<P, T> {
    /// The current tree generation, as ghost state.
    pub closed spec fn tree(&self) -> Seq<NodeView> {
        self.output@
    }

    /// The configured refresh interval, as ghost state.
    pub closed spec fn interval(&self) -> u64 {
        self.config.timeout
    }

    /// The time of the last successful rebuild, as ghost state.
    pub closed spec fn last_refresh(&self) -> u64 {
        self.last_updated
    }

    /// The default attribute template, as ghost state.
    pub closed spec fn attr_template(&self) -> FileAttr {
        self.default_attr
    }

    /// The configured input set, as ghost state.
    pub closed spec fn inputs_view(&self) -> Seq<Seq<u8>> {
        self.inputs.deep_view()
    }

    /// Session invariant: the current tree generation is well-formed.
    pub open spec fn inv(&self) -> bool {
        wf_nodes(self.tree())
    }
}

/// How a session may change across one refresh check at time `now`: the
/// configuration, input set and attribute template are untouched, nothing
/// changes unless a refresh was due, and the tree either stays exactly the
/// previous generation or is replaced wholesale by a freshly built one
/// with the rebuild time reset to `now`.
pub open spec fn update_rel<P, T>(
    pre: TransformFs<P, T>,
    post: TransformFs<P, T>,
    now: u64,
) -> bool {
    &&& post.interval() == pre.interval()
    &&& post.inputs_view() == pre.inputs_view()
    &&& post.attr_template() == pre.attr_template()
    &&& (!refresh_due(pre.last_refresh(), pre.interval(), now) ==> post.tree() == pre.tree()
        && post.last_refresh() == pre.last_refresh())
    &&& ((post.tree() == pre.tree() && post.last_refresh() == pre.last_refresh()) || (
    post.last_refresh() == now && exists|es: Seq<FileEntryView>|
        post.tree() == #[trigger] built_tree(es)))
}

impl<P: ContentProvider, T: Transform<P>> TransformFs<P, T> {
    /// Initializes a session: invokes the transform once to build the
    /// first tree generation, and captures the default attribute template
    /// from the session's creation time `now` and the process's owner and
    /// group. On transform failure the error is handed back.
    pub fn init(
        inputs: Vec<Vec<u8>>,
        transform: T,
        config: Config,
        now: u64,
        uid: u32,
        gid: u32,
    ) -> (r: Result<Self, String>)
        ensures
            r matches Ok(s) ==> {
                &&& s.inv()
                &&& s.last_refresh() == now
                &&& s.interval() == config.timeout
                &&& s.attr_template() == default_attr_spec(now, uid, gid)
                &&& exists|es: Seq<FileEntryView>| s.tree() == #[trigger] built_tree(es)
            },
    {
        let mut transform = transform;
        match Output::init(&mut transform, &inputs) {
            Ok(o) => Ok(
                TransformFs {
                    inputs,
                    config,
                    transform,
                    last_updated: now,
                    output: o.0,
                    default_attr: FileAttr {
                        ino: 0,
                        size: 0,
                        blocks: 0,
                        kind: FileKind::RegularFile,
                        perm: 0,
                        nlink: 1,
                        uid,
                        gid,
                        rdev: 0,
                        blksize: 512,
                        flags: 0,
                        atime: now,
                        mtime: now,
                        ctime: now,
                        crtime: now,
                    },
                },
            ),
            Err(e) => Err(e),
        }
    }

    /// The refresh check run at the start of every read-sensitive request:
    /// a no-op while the elapsed time since the last rebuild is within the
    /// interval (or the clock ran backwards); otherwise the transform is
    /// invoked and on success the tree is swapped wholesale and the
    /// rebuild time reset, while on failure the previous generation stays
    /// in effect with nothing invalidated.
    pub fn update(&mut self, now: u64) -> (r: UpdateOutcome)
        requires
            old(self).inv(),
        ensures
            final(self).inv(),
            update_rel(*old(self), *final(self), now),
            !refresh_due(old(self).last_refresh(), old(self).interval(), now)
                ==> r == UpdateOutcome::Skipped,
            r == UpdateOutcome::Skipped
                ==> final(self).tree() == old(self).tree()
                    && final(self).last_refresh() == old(self).last_refresh()
                    && !refresh_due(old(self).last_refresh(), old(self).interval(), now),
            r == UpdateOutcome::Stale
                ==> final(self).tree() == old(self).tree()
                    && final(self).last_refresh() == old(self).last_refresh()
                    && refresh_due(old(self).last_refresh(), old(self).interval(), now),
            r == UpdateOutcome::Refreshed
                ==> final(self).last_refresh() == now
                    && refresh_due(old(self).last_refresh(), old(self).interval(), now)
                    && exists|es: Seq<FileEntryView>| final(self).tree() == #[trigger] built_tree(es),
    {
        if now < self.last_updated {
            return UpdateOutcome::Skipped;
        }
        let elapsed = now - self.last_updated;
        if elapsed <= self.config.timeout {
            return UpdateOutcome::Skipped;
        }
        match Output::init(&mut self.transform, &self.inputs) {
            Ok(o) => {
                self.output = o.0;
                self.last_updated = now;
                UpdateOutcome::Refreshed
            },
            Err(_) => UpdateOutcome::Stale,
        }
    }

    /// Composes the attribute record for `entry` under identity `ino`.
    pub fn read_metadata(&self, ino: u64, entry: &OutputEntry<P>) -> (r: FileAttr)
        ensures
            r == attr_of(entry@, ino, self.attr_template()),
    {
        match &entry.content {
            OutputContent::File(f) => {
                let size = f.metadata.size;
                let bs = match f.metadata.block_size {
                    Some(b) => b,
                    None => self.default_attr.blksize,
                };
                let blocks = if bs == 0 || size == 0 {
                    0
                } else {
                    let q = (size - 1) / (bs as u64);
                    proof {
                        assert(((size - 1) as int / (bs as u64) as int) <= (size - 1) as int) by {
                            vstd::arithmetic::div_mod::lemma_div_is_ordered_by_denominator(
                                (size - 1) as int,
                                1,
                                (bs as u64) as int,
                            );
                        }
                    }
                    q + 1
                };
                FileAttr {
                    ino,
                    size,
                    blocks,
                    kind: FileKind::RegularFile,
                    perm: 0o644,
                    blksize: bs,
                    ..self.default_attr
                }
            },
            OutputContent::Dir => FileAttr {
                ino,
                kind: FileKind::Directory,
                perm: 0o755,
                ..self.default_attr
            },
        }
    }

    /// Looks a name up under the directory with identity `parent`: runs the
    /// refresh check, resolves the parent identity to its path, joins the
    /// name on, resolves the joined path, and returns the fresh attribute
    /// record of the node found; NotFound when either resolution fails.
    pub fn lookup(&mut self, now: u64, parent: u64, name: &Vec<u8>) -> (r: Result<
        FileAttr,
        FsError,
    >)
        requires
            old(self).inv(),
        ensures
            final(self).inv(),
            update_rel(*old(self), *final(self), now),
            match r {
                Ok(attr) => ({
                    let t = final(self).tree();
                    &&& ino_valid(t, parent)
                    &&& match find_path(t, join_path(node_of(t, parent).path, name@)) {
                        Some(ino) => attr == attr_of(
                            node_of(t, ino),
                            ino,
                            final(self).attr_template(),
                        ),
                        None => false,
                    }
                }),
                Err(e) => ({
                    let t = final(self).tree();
                    e == FsError::NotFound && (!ino_valid(t, parent) || find_path(
                        t,
                        join_path(node_of(t, parent).path, name@),
                    ) is None)
                }),
            },
    {
        self.update(now);
        let n = self.output.node_count();
        if parent < 1 || parent > n as u64 {
            return Err(FsError::NotFound);
        }
        let parent_entry = self.output.node(parent);
        let path = join_path_exec(&parent_entry.path, name);
        match self.output.lookup_path(&path) {
            Some(ino) => {
                let entry = self.output.node(ino);
                Ok(self.read_metadata(ino, entry))
            },
            None => Err(FsError::NotFound),
        }
    }

    /// Returns the fresh attribute record of the node with identity `ino`,
    /// after running the refresh check; NotFound when the identity is not
    /// part of the current generation.
    pub fn getattr(&mut self, now: u64, ino: u64) -> (r: Result<FileAttr, FsError>)
        requires
            old(self).inv(),
        ensures
            final(self).inv(),
            update_rel(*old(self), *final(self), now),
            match r {
                Ok(attr) => ino_valid(final(self).tree(), ino) && attr == attr_of(
                    node_of(final(self).tree(), ino),
                    ino,
                    final(self).attr_template(),
                ),
                Err(e) => e == FsError::NotFound && !ino_valid(final(self).tree(), ino),
            },
    {
        self.update(now);
        let n = self.output.node_count();
        if ino < 1 || ino > n as u64 {
            return Err(FsError::NotFound);
        }
        let entry = self.output.node(ino);
        Ok(self.read_metadata(ino, entry))
    }

    /// Opens the file with identity `ino`: invokes its open hook (which
    /// reports success when the transform supplied none); NotFound for a
    /// dead identity, InvalidOperation for a directory, HookFailure when
    /// the hook fails, in which case the open is refused.
    pub fn open(&self, ino: u64) -> (r: Result<(), FsError>)
        requires
            self.inv(),
        ensures
            match r {
                Ok(_) => ino_valid(self.tree(), ino) && node_of(self.tree(), ino).content is File,
                Err(e) => match e {
                    FsError::NotFound => !ino_valid(self.tree(), ino),
                    FsError::InvalidOperation => ino_valid(self.tree(), ino) && node_of(
                        self.tree(),
                        ino,
                    ).content is Dir,
                    FsError::HookFailure => ino_valid(self.tree(), ino) && node_of(
                        self.tree(),
                        ino,
                    ).content is File,
                },
            },
    {
        let n = self.output.node_count();
        if ino < 1 || ino > n as u64 {
            return Err(FsError::NotFound);
        }
        match &self.output.node(ino).content {
            OutputContent::File(f) => match f.provider.open_hook() {
                Ok(_) => Ok(()),
                Err(_) => Err(FsError::HookFailure),
            },
            OutputContent::Dir => Err(FsError::InvalidOperation),
        }
    }

    /// Closes the file with identity `ino`: invokes its close hook (which
    /// reports success when the transform supplied none); errors as for
    /// `open`.
    pub fn release(&self, ino: u64) -> (r: Result<(), FsError>)
        requires
            self.inv(),
        ensures
            match r {
                Ok(_) => ino_valid(self.tree(), ino) && node_of(self.tree(), ino).content is File,
                Err(e) => match e {
                    FsError::NotFound => !ino_valid(self.tree(), ino),
                    FsError::InvalidOperation => ino_valid(self.tree(), ino) && node_of(
                        self.tree(),
                        ino,
                    ).content is Dir,
                    FsError::HookFailure => ino_valid(self.tree(), ino) && node_of(
                        self.tree(),
                        ino,
                    ).content is File,
                },
            },
    {
        let n = self.output.node_count();
        if ino < 1 || ino > n as u64 {
            return Err(FsError::NotFound);
        }
        match &self.output.node(ino).content {
            OutputContent::File(f) => match f.provider.close_hook() {
                Ok(_) => Ok(()),
                Err(_) => Err(FsError::HookFailure),
            },
            OutputContent::Dir => Err(FsError::InvalidOperation),
        }
    }

    /// Reads from the file with identity `ino`: returns exactly the byte
    /// buffer its read hook produces for `(offset, size)`, unmodified and
    /// without added bounds checking; errors as for `open`.
    pub fn read(&self, ino: u64, offset: u64, size: u32) -> (r: Result<Vec<u8>, FsError>)
        requires
            self.inv(),
        ensures
            match r {
                Ok(_) => ino_valid(self.tree(), ino) && node_of(self.tree(), ino).content is File,
                Err(e) => match e {
                    FsError::NotFound => !ino_valid(self.tree(), ino),
                    FsError::InvalidOperation => ino_valid(self.tree(), ino) && node_of(
                        self.tree(),
                        ino,
                    ).content is Dir,
                    FsError::HookFailure => ino_valid(self.tree(), ino) && node_of(
                        self.tree(),
                        ino,
                    ).content is File,
                },
            },
    {
        let n = self.output.node_count();
        if ino < 1 || ino > n as u64 {
            return Err(FsError::NotFound);
        }
        match &self.output.node(ino).content {
            OutputContent::File(f) => match f.provider.read_hook(offset, size) {
                Ok(data) => Ok(data),
                Err(_) => Err(FsError::HookFailure),
            },
            OutputContent::Dir => Err(FsError::InvalidOperation),
        }
    }

    /// Lists the directory with identity `ino` from child position
    /// `offset` on, after running the refresh check: every remaining child
    /// descriptor in insertion order, each paired with the position to
    /// resume at after consuming it; NotFound for a dead identity,
    /// InvalidOperation for a file.
    pub fn readdir(&mut self, now: u64, ino: u64, offset: u64) -> (r: Result<
        Vec<(OutputDirEntry, u64)>,
        FsError,
    >)
        requires
            old(self).inv(),
        ensures
            final(self).inv(),
            update_rel(*old(self), *final(self), now),
            match r {
                Ok(entries) => ({
                    let t = final(self).tree();
                    let cs = children_of(t, ino);
                    &&& ino_valid(t, ino)
                    &&& node_of(t, ino).content is Dir
                    &&& entries@.len() == if offset <= cs.len() {
                        cs.len() - offset
                    } else {
                        0
                    }
                    &&& forall|k: int|
                        0 <= k < entries@.len() ==> (#[trigger] entries@[k]).0@ == cs[offset + k]
                            && entries@[k].1 == offset + k + 1
                }),
                Err(e) => ({
                    let t = final(self).tree();
                    match e {
                        FsError::NotFound => !ino_valid(t, ino),
                        FsError::InvalidOperation => ino_valid(t, ino) && node_of(
                            t,
                            ino,
                        ).content is File,
                        FsError::HookFailure => false,
                    }
                }),
            },
    {
        self.update(now);
        let n = self.output.node_count();
        if ino < 1 || ino > n as u64 {
            return Err(FsError::NotFound);
        }
        match &self.output.node(ino).content {
            OutputContent::File(_) => Err(FsError::InvalidOperation),
            OutputContent::Dir => Ok(self.output.children_from_offset(ino, offset)),
        }
    }

    /// The statfs reply derived from the current tree: the total node
    /// count as the files statistic, fixed block-size constants, and zero
    /// for the free-space statistics, which are not meaningful for a
    /// synthetic filesystem.
    pub fn statfs(&self) -> (r: StatFs)
        ensures
            r.files == self.tree().len(),
            r.blocks == 0 && r.bfree == 0 && r.bavail == 0 && r.ffree == 0,
            r.bsize == 512 && r.namelen == 255 && r.frsize == 512,
    {
        StatFs {
            blocks: 0,
            bfree: 0,
            bavail: 0,
            files: self.output.node_count() as u64,
            ffree: 0,
            bsize: 512,
            namelen: 255,
            frsize: 512,
        }
    }
}

/// Refresh timing, first half: while no more than the refresh interval has
/// elapsed since the last rebuild, a check does not rebuild — so two
/// read-sensitive requests separated by less than the interval invoke the
/// transform at most once between them.
pub proof fn lemma_no_refresh_within_interval(last: u64, timeout: u64, now: u64)
    requires
        now as int <= (last as int + timeout as int),
    ensures
        !refresh_due(last, timeout, now),
{
}

/// Refresh timing, second half: once strictly more than the refresh
/// interval has elapsed since the last rebuild, the next check does invoke
/// the transform.
pub proof fn lemma_refresh_after_interval(last: u64, timeout: u64, now: u64)
    requires
        now as int > (last as int + timeout as int),
    ensures
        refresh_due(last, timeout, now),
{
}

} // verus!
