//! The tree walker: a step machine for the depth-first, depth-bounded,
//! exclusion-pruning traversal.
//!
//! The machine holds the whole traversal state — an explicit stack of
//! directory frames — and makes every decision: the depth bound, the
//! exclusion check, the symlink policy, the classification dispatch, and the
//! choice to emit a record. It never touches the filesystem itself: each
//! [`Action`] it hands out asks the caller to list a directory, stat a file,
//! or write one finished line, and the caller answers with the matching
//! [`Event`]. A listing failure is answered with an empty listing and a stat
//! failure with no metadata, so a scan degrades per entry and never aborts;
//! only a failed write ends it, as a failed scan.

use vstd::prelude::*;

use crate::pattern::excluded;
use crate::pattern::should_exclude_dir;
use crate::record::record_line;
use crate::record::render_record;
use crate::strutil::child_rel;
use crate::strutil::child_rel_spec;
use crate::strutil::join_path;
use crate::strutil::join_path_spec;

verus! {

/// What one scan is told to do: where to start, how deep to go, whether to
/// descend into symlinked directories, and which directories to exclude.
#[derive(Debug)]
pub struct ScanConfig {
    /// The scan's fixed origin.
    pub root: String,
    /// The deepest directory level that is still listed; the root is level
    /// zero.
    pub max_depth: usize,
    /// Whether to descend into a directory reached through a symlink.
    pub follow_symlinks: bool,
    /// The exclusion patterns, in the order supplied.
    pub exclude_patterns: Vec<String>,
}

/// The ghost form of [`ScanConfig`].
#[verifier::ext_equal]
pub struct ScanConfigV {
    pub root: Seq<char>,
    pub max_depth: int,
    pub follow_symlinks: bool,
    pub exclude_patterns: Seq<Seq<char>>,
}

impl View for ScanConfig {
    type V = ScanConfigV;

    open spec fn view(&self) -> ScanConfigV {
        ScanConfigV {
            root: self.root@,
            max_depth: self.max_depth as int,
            follow_symlinks: self.follow_symlinks,
            exclude_patterns: self.exclude_patterns.deep_view(),
        }
    }
}

/// How one directory entry is classified.
#[derive(Clone, Copy)]
pub enum EntryKind {
    /// A directory, possibly reached through a symlink.
    Directory,
    /// A regular file.
    RegularFile,
    /// Anything else: devices, sockets, unresolvable entries.
    Other,
}

/// One entry of a directory listing, as the caller reports it.
pub struct DirEntryInfo {
    /// The entry's bare name.
    pub name: String,
    /// Its classification.
    pub kind: EntryKind,
    /// Whether the entry itself is a symlink.
    pub is_symlink: bool,
}

/// The ghost form of [`DirEntryInfo`].
#[verifier::ext_equal]
pub struct EntryV {
    pub name: Seq<char>,
    pub kind: EntryKind,
    pub is_symlink: bool,
}

impl View for DirEntryInfo {
    type V = EntryV;

    open spec fn view(&self) -> EntryV {
        EntryV { name: self.name@, kind: self.kind, is_symlink: self.is_symlink }
    }
}

/// The views of a listing's entries, in order.
pub open spec fn entries_view(es: Seq<DirEntryInfo>) -> Seq<EntryV> {
    es.map_values(|e: DirEntryInfo| e@)
}

/// The metadata of one regular file, as the caller reports it.
pub struct FileMeta {
    /// Modified time, in whole seconds since the epoch; zero when the
    /// filesystem gave none.
    pub mtime: i64,
    /// Size in bytes.
    pub size: u64,
}

/// One directory being traversed: its listing path, its root-relative
/// slash-normalized path, its bare name, its depth, how it was reached, its
/// listed entries, and how many of them have been handled.
pub struct Frame {
    pub path: String,
    pub rel: String,
    pub name: String,
    pub depth: usize,
    pub via_symlink: bool,
    pub entries: Vec<DirEntryInfo>,
    pub next: usize,
}

/// The ghost form of [`Frame`].
#[verifier::ext_equal]
pub struct FrameV {
    pub path: Seq<char>,
    pub rel: Seq<char>,
    pub name: Seq<char>,
    pub depth: int,
    pub via_symlink: bool,
    pub entries: Seq<EntryV>,
    pub next: int,
}

impl View for Frame {
    type V = FrameV;

    open spec fn view(&self) -> FrameV {
        FrameV {
            path: self.path@,
            rel: self.rel@,
            name: self.name@,
            depth: self.depth as int,
            via_symlink: self.via_symlink,
            entries: entries_view(self.entries@),
            next: self.next as int,
        }
    }
}

/// Where the machine stands between two events.
pub enum Phase {
    /// The top frame was just opened; its listing is awaited.
    Listing,
    /// Entries of the top frame are being worked through.
    Walking,
    /// A regular file at this path was found; its metadata is awaited.
    Statting { path: String },
    /// A record line was handed out; the write's outcome is awaited.
    Emitting,
    /// The scan is over.
    Done { ok: bool },
}

/// The ghost form of [`Phase`].
#[verifier::ext_equal]
pub enum PhaseV {
    Listing,
    Walking,
    Statting { path: Seq<char> },
    Emitting,
    Done { ok: bool },
}

impl View for Phase {
    type V = PhaseV;

    open spec fn view(&self) -> PhaseV {
        match self {
            Phase::Listing => PhaseV::Listing,
            Phase::Walking => PhaseV::Walking,
            Phase::Statting { path } => PhaseV::Statting { path: path@ },
            Phase::Emitting => PhaseV::Emitting,
            Phase::Done { ok } => PhaseV::Done { ok: *ok },
        }
    }
}

/// What the caller answers with: the listing of the directory it was asked
/// to list (empty on any listing failure), the metadata of the file it was
/// asked to stat (nothing on failure), the outcome of the write it was asked
/// to make, or a plain go-ahead when nothing was asked.
pub enum Event {
    Tick,
    Listed { entries: Vec<DirEntryInfo> },
    Statted { meta: Option<FileMeta> },
    Wrote { ok: bool },
}

/// What the machine asks of the caller: list a directory, stat a file, write
/// one line, call again, or stop.
pub enum Action {
    List { path: String },
    Stat { path: String },
    Emit { line: String },
    Continue,
    Finished { ok: bool },
}

/// The ghost form of [`Action`].
#[verifier::ext_equal]
pub enum ActionV {
    List { path: Seq<char> },
    Stat { path: Seq<char> },
    Emit { line: Seq<char> },
    Continue,
    Finished { ok: bool },
}

impl View for Action {
    type V = ActionV;

    open spec fn view(&self) -> ActionV {
        match self {
            Action::List { path } => ActionV::List { path: path@ },
            Action::Stat { path } => ActionV::Stat { path: path@ },
            Action::Emit { line } => ActionV::Emit { line: line@ },
            Action::Continue => ActionV::Continue,
            Action::Finished { ok } => ActionV::Finished { ok: *ok },
        }
    }
}

/// The whole machine: the configuration, the stack of open directories, and
/// the phase.
pub struct Walker {
    pub config: ScanConfig,
    pub stack: Vec<Frame>,
    pub phase: Phase,
}

/// The ghost form of [`Walker`].
#[verifier::ext_equal]
pub struct WalkerV {
    pub config: ScanConfigV,
    pub stack: Seq<FrameV>,
    pub phase: PhaseV,
}

impl View for Walker {
    type V = WalkerV;

    open spec fn view(&self) -> WalkerV {
        WalkerV {
            config: self.config@,
            stack: self.stack@.map_values(|f: Frame| f@),
            phase: self.phase@,
        }
    }
}

/// What always holds of one open directory frame at position `idx` of the
/// stack: it sits at depth `idx`; it has handled no more entries than it
/// holds; below the root it is not excluded (nor under an excluded
/// directory, which exclusion of an ancestor path already covers); and it
/// was reached through a symlink only if the scan follows symlinks.
pub open spec fn frame_wf(fr: FrameV, cfg: ScanConfigV, idx: int) -> bool {
    &&& fr.depth == idx
    &&& 0 <= fr.next <= fr.entries.len()
    &&& idx > 0 ==> !excluded(fr.name, fr.rel, cfg.exclude_patterns)
    &&& fr.via_symlink ==> (idx > 0 && cfg.follow_symlinks)
}

/// What always holds of the machine: every open frame is well formed, and
/// the stack never reaches past the depth bound.
pub open spec fn walker_wf(w: WalkerV) -> bool {
    &&& forall|i: int| 0 <= i < w.stack.len() ==> frame_wf(#[trigger] w.stack[i], w.config, i)
    &&& w.stack.len() <= w.config.max_depth + 1
}

/// The machine's first state: one frame for the root, at depth zero, with
/// the empty relative path, awaiting its listing.
pub open spec fn start_state(cfg: ScanConfigV) -> WalkerV {
    WalkerV {
        config: cfg,
        stack: seq![
            FrameV {
                path: cfg.root,
                rel: Seq::empty(),
                name: Seq::empty(),
                depth: 0,
                via_symlink: false,
                entries: Seq::empty(),
                next: 0,
            },
        ],
        phase: PhaseV::Listing,
    }
}

/// An event that does not answer what the machine asked ends the scan as
/// failed.
pub open spec fn protocol_failure(pre: WalkerV) -> (WalkerV, ActionV) {
    (
        WalkerV { phase: PhaseV::Done { ok: false }, ..pre },
        ActionV::Finished { ok: false },
    )
}

/// One step of the walking phase: take the next entry of the top frame and
/// decide what to do with it. A finished frame is closed; an empty stack
/// ends the scan as succeeded. A directory entry is skipped when excluded,
/// when it is a symlink and symlinks are not followed, or when it lies past
/// the depth bound; otherwise a frame is opened for it and its listing
/// requested. A regular file's metadata is requested. Every other entry is
/// ignored.
pub open spec fn walk_step(pre: WalkerV) -> (WalkerV, ActionV) {
    if pre.stack.len() == 0 {
        (
            WalkerV { phase: PhaseV::Done { ok: true }, ..pre },
            ActionV::Finished { ok: true },
        )
    } else {
        let fr = pre.stack.last();
        if fr.next >= fr.entries.len() {
            (WalkerV { stack: pre.stack.drop_last(), ..pre }, ActionV::Continue)
        } else {
            let e = fr.entries[fr.next];
            let advanced = pre.stack.update(
                pre.stack.len() - 1,
                FrameV { next: fr.next + 1, ..fr },
            );
            let rel = child_rel_spec(fr.rel, e.name);
            let path = join_path_spec(fr.path, e.name);
            match e.kind {
                EntryKind::Other => (WalkerV { stack: advanced, ..pre }, ActionV::Continue),
                EntryKind::Directory => {
                    if excluded(e.name, rel, pre.config.exclude_patterns) {
                        (WalkerV { stack: advanced, ..pre }, ActionV::Continue)
                    } else if e.is_symlink && !pre.config.follow_symlinks {
                        (WalkerV { stack: advanced, ..pre }, ActionV::Continue)
                    } else if fr.depth >= pre.config.max_depth {
                        (WalkerV { stack: advanced, ..pre }, ActionV::Continue)
                    } else {
                        (
                            WalkerV {
                                stack: advanced.push(
                                    FrameV {
                                        path: path,
                                        rel: rel,
                                        name: e.name,
                                        depth: fr.depth + 1,
                                        via_symlink: e.is_symlink,
                                        entries: Seq::empty(),
                                        next: 0,
                                    },
                                ),
                                phase: PhaseV::Listing,
                                ..pre
                            },
                            ActionV::List { path: path },
                        )
                    }
                },
                EntryKind::RegularFile => {
                    (
                        WalkerV { stack: advanced, phase: PhaseV::Statting { path: path }, ..pre },
                        ActionV::Stat { path: path },
                    )
                },
            }
        }
    }
}

/// The machine's whole transition function: what the next state and the next
/// action are, given the state and the answering event.
pub open spec fn step_spec(pre: WalkerV, ev: Event) -> (WalkerV, ActionV) {
    match pre.phase {
        PhaseV::Listing => match ev {
            Event::Listed { entries } => {
                if pre.stack.len() == 0 {
                    protocol_failure(pre)
                } else {
                    let fr = pre.stack.last();
                    (
                        WalkerV {
                            stack: pre.stack.update(
                                pre.stack.len() - 1,
                                FrameV { entries: entries_view(entries@), next: 0, ..fr },
                            ),
                            phase: PhaseV::Walking,
                            ..pre
                        },
                        ActionV::Continue,
                    )
                }
            },
            _ => protocol_failure(pre),
        },
        PhaseV::Walking => match ev {
            Event::Tick => walk_step(pre),
            _ => protocol_failure(pre),
        },
        PhaseV::Statting { path } => match ev {
            Event::Statted { meta } => match meta {
                Some(m) => (
                    WalkerV { phase: PhaseV::Emitting, ..pre },
                    ActionV::Emit { line: record_line(path, m.mtime as int, m.size as int) },
                ),
                None => (WalkerV { phase: PhaseV::Walking, ..pre }, ActionV::Continue),
            },
            _ => protocol_failure(pre),
        },
        PhaseV::Emitting => match ev {
            Event::Wrote { ok } => {
                if ok {
                    (WalkerV { phase: PhaseV::Walking, ..pre }, ActionV::Continue)
                } else {
                    (
                        WalkerV { phase: PhaseV::Done { ok: false }, ..pre },
                        ActionV::Finished { ok: false },
                    )
                }
            },
            _ => protocol_failure(pre),
        },
        PhaseV::Done { ok } => (pre, ActionV::Finished { ok }),
    }
}

impl Walker {
    /// Opens a scan: the machine stands at the root frame and asks for the
    /// root's listing.
    pub fn start(config: ScanConfig) -> (r: (Walker, Action))
        ensures
            r.0@ == start_state(config@),
            r.1@ == (ActionV::List { path: config@.root }),
            walker_wf(r.0@),
    {
        let path = config.root.clone();
        let frame = Frame {
            path: config.root.clone(),
            rel: String::new(),
            name: String::new(),
            depth: 0,
            via_symlink: false,
            entries: Vec::new(),
            next: 0,
        };
        let mut stack: Vec<Frame> = Vec::new();
        stack.push(frame);
        let w = Walker { config, stack, phase: Phase::Listing };
        proof {
            assert(w@.stack =~~= start_state(w.config@).stack);
            assert(w@ =~~= start_state(w.config@));
        }
        (w, Action::List { path })
    }

    /// One transition: consumes the machine and the answering event, returns
    /// the next machine and the next request, exactly as [`step_spec`] lays
    /// down, and keeps the machine well formed.
    pub fn step(self, ev: Event) -> (r: (Walker, Action))
        ensures
            r.0@ == step_spec(self@, ev).0,
            r.1@ == step_spec(self@, ev).1,
            walker_wf(self@) ==> walker_wf(r.0@),
    {
        let ghost pre = self@;
        let Walker { config, mut stack, phase } = self;
        let r: (Walker, Action) = match phase {
            Phase::Listing => match ev {
                Event::Listed { entries } => {
                    if stack.len() == 0 {
                        (
                            Walker { config, stack, phase: Phase::Done { ok: false } },
                            Action::Finished { ok: false },
                        )
                    } else {
                        let mut fr = stack.pop().unwrap();
                        fr.entries = entries;
                        fr.next = 0;
                        stack.push(fr);
                        proof {
                            let (sw, sa) = step_spec(pre, ev);
                            assert(stack@.map_values(|f: Frame| f@) =~~= sw.stack);
                        }
                        (Walker { config, stack, phase: Phase::Walking }, Action::Continue)
                    }
                },
                _ => (
                    Walker { config, stack, phase: Phase::Done { ok: false } },
                    Action::Finished { ok: false },
                ),
            },
            Phase::Walking => match ev {
                Event::Tick => {
                    if stack.len() == 0 {
                        (
                            Walker { config, stack, phase: Phase::Done { ok: true } },
                            Action::Finished { ok: true },
                        )
                    } else {
                        let mut fr = stack.pop().unwrap();
                        if fr.next >= fr.entries.len() {
                            proof {
                                let (sw, sa) = step_spec(pre, ev);
                                assert(stack@.map_values(|f: Frame| f@) =~~= sw.stack);
                            }
                            (Walker { config, stack, phase: Phase::Walking }, Action::Continue)
                        } else {
                            let name = fr.entries[fr.next].name.clone();
                            let kind = fr.entries[fr.next].kind;
                            let is_symlink = fr.entries[fr.next].is_symlink;
                            let rel = child_rel(fr.rel.as_str(), name.as_str());
                            let path = join_path(fr.path.as_str(), name.as_str());
                            let depth = fr.depth;
                            fr.next = fr.next + 1;
                            stack.push(fr);
                            proof {
                                let top = pre.stack.last();
                                assert(stack@.map_values(|f: Frame| f@) =~~= pre.stack.update(
                                    pre.stack.len() - 1,
                                    FrameV { next: top.next + 1, ..top },
                                ));
                                assert(pre.stack.last().entries[pre.stack.last().next]
                                    == entries_view(stack@.last().entries@)[pre.stack.last().next]);
                            }
                            match kind {
                                EntryKind::Other => (
                                    Walker { config, stack, phase: Phase::Walking },
                                    Action::Continue,
                                ),
                                EntryKind::Directory => {
                                    if should_exclude_dir(
                                        name.as_str(),
                                        rel.as_str(),
                                        &config.exclude_patterns,
                                    ) {
                                        (
                                            Walker { config, stack, phase: Phase::Walking },
                                            Action::Continue,
                                        )
                                    } else if is_symlink && !config.follow_symlinks {
                                        (
                                            Walker { config, stack, phase: Phase::Walking },
                                            Action::Continue,
                                        )
                                    } else if depth >= config.max_depth {
                                        (
                                            Walker { config, stack, phase: Phase::Walking },
                                            Action::Continue,
                                        )
                                    } else {
                                        let child = Frame {
                                            path: path.clone(),
                                            rel,
                                            name,
                                            depth: depth + 1,
                                            via_symlink: is_symlink,
                                            entries: Vec::new(),
                                            next: 0,
                                        };
                                        stack.push(child);
                                        proof {
                                            let (sw, sa) = step_spec(pre, ev);
                                            assert(stack@.map_values(|f: Frame| f@)
                                                =~~= sw.stack);
                                        }
                                        (
                                            Walker { config, stack, phase: Phase::Listing },
                                            Action::List { path },
                                        )
                                    }
                                },
                                EntryKind::RegularFile => (
                                    Walker {
                                        config,
                                        stack,
                                        phase: Phase::Statting { path: path.clone() },
                                    },
                                    Action::Stat { path },
                                ),
                            }
                        }
                    }
                },
                _ => (
                    Walker { config, stack, phase: Phase::Done { ok: false } },
                    Action::Finished { ok: false },
                ),
            },
            Phase::Statting { path } => match ev {
                Event::Statted { meta } => match meta {
                    Some(m) => {
                        let line = render_record(path.as_str(), m.mtime, m.size);
                        (
                            Walker { config, stack, phase: Phase::Emitting },
                            Action::Emit { line },
                        )
                    },
                    None => (Walker { config, stack, phase: Phase::Walking }, Action::Continue),
                },
                _ => (
                    Walker { config, stack, phase: Phase::Done { ok: false } },
                    Action::Finished { ok: false },
                ),
            },
            Phase::Emitting => match ev {
                Event::Wrote { ok } => {
                    if ok {
                        (Walker { config, stack, phase: Phase::Walking }, Action::Continue)
                    } else {
                        (
                            Walker { config, stack, phase: Phase::Done { ok: false } },
                            Action::Finished { ok: false },
                        )
                    }
                },
                _ => (
                    Walker { config, stack, phase: Phase::Done { ok: false } },
                    Action::Finished { ok: false },
                ),
            },
            Phase::Done { ok } => (
                Walker { config, stack, phase: Phase::Done { ok } },
                Action::Finished { ok },
            ),
        };
        proof {
            let (sw, sa) = step_spec(pre, ev);
            assert(r.0@ =~~= sw);
            assert(r.1@ =~~= sa);
            if walker_wf(pre) {
                lemma_step_preserves_wf(pre, ev);
            }
        }
        r
    }
}

/// Every transition keeps the machine well formed: frames keep their depths,
/// a frame is opened only below the bound, only when not excluded, and only
/// through a symlink when symlinks are followed.
pub proof fn lemma_step_preserves_wf(pre: WalkerV, ev: Event)
    requires
        walker_wf(pre),
    ensures
        walker_wf(step_spec(pre, ev).0),
{
    let (post, act) = step_spec(pre, ev);
    match pre.phase {
        PhaseV::Listing => {},
        PhaseV::Walking => {
            if ev is Tick && pre.stack.len() > 0 {
                let fr = pre.stack.last();
                assert(frame_wf(fr, pre.config, pre.stack.len() - 1));
                if fr.next < fr.entries.len() {
                    let advanced = pre.stack.update(
                        pre.stack.len() - 1,
                        FrameV { next: fr.next + 1, ..fr },
                    );
                    assert(forall|i: int|
                        0 <= i < advanced.len() ==> frame_wf(
                            #[trigger] advanced[i],
                            pre.config,
                            i,
                        ));
                }
            }
        },
        PhaseV::Statting { .. } => {},
        PhaseV::Emitting => {},
        PhaseV::Done { .. } => {},
    }
}

/// No open directory ever sits past the depth bound: files are listed, and
/// hence statted and emitted, only from directories at depth at most
/// `max_depth`.
pub proof fn lemma_depth_bounded(w: WalkerV)
    requires
        walker_wf(w),
    ensures
        forall|i: int| 0 <= i < w.stack.len() ==> #[trigger] w.stack[i].depth <= w.config.max_depth,
{
}

/// No open directory below the root is excluded, nor lies under an excluded
/// one: exclusion of an ancestor is itself an exclusion of the descendant's
/// relative path, so no file under an excluded directory is ever reached.
pub proof fn lemma_no_open_frame_excluded(w: WalkerV)
    requires
        walker_wf(w),
    ensures
        forall|i: int|
            1 <= i < w.stack.len() ==> !excluded(
                #[trigger] w.stack[i].name,
                w.stack[i].rel,
                w.config.exclude_patterns,
            ),
{
}

/// When symlinks are not followed, no open directory was reached through
/// one: no file reachable only through a symlinked directory is ever
/// reached.
pub proof fn lemma_no_symlinked_frame_unless_followed(w: WalkerV)
    requires
        walker_wf(w),
        !w.config.follow_symlinks,
    ensures
        forall|i: int| 0 <= i < w.stack.len() ==> !(#[trigger] w.stack[i].via_symlink),
{
}

/// Metadata is requested only for an entry classified as a regular file, at
/// the path joined from its directory's listing path, and only from a
/// directory within the depth bound.
pub proof fn lemma_stat_only_for_regular_files(w: WalkerV, ev: Event)
    requires
        walker_wf(w),
    ensures
        forall|p: Seq<char>|
            step_spec(w, ev).1 == (ActionV::Stat { path: p }) ==> {
                &&& w.phase is Walking
                &&& w.stack.len() > 0
                &&& w.stack.last().next < w.stack.last().entries.len()
                &&& w.stack.last().entries[w.stack.last().next].kind is RegularFile
                &&& p == join_path_spec(
                    w.stack.last().path,
                    w.stack.last().entries[w.stack.last().next].name,
                )
                &&& w.stack.last().depth <= w.config.max_depth
            },
{
}

/// A record line is handed out only right after a stat answered with
/// metadata, and it renders exactly the statted path with that metadata;
/// a failed stat, like every skipped entry, emits nothing.
pub proof fn lemma_emit_only_after_stat(w: WalkerV, ev: Event)
    requires
        walker_wf(w),
    ensures
        forall|l: Seq<char>|
            step_spec(w, ev).1 == (ActionV::Emit { line: l }) ==> {
                &&& w.phase matches PhaseV::Statting { path }
                &&& ev matches Event::Statted { meta }
                &&& meta matches Some(m)
                &&& l == record_line(
                    w.phase->Statting_path,
                    m.mtime as int,
                    m.size as int,
                )
            },
{
}

/// A directory entry that is not excluded, not a symlink when symlinks are
/// not followed, and not past the depth bound is always descended into: its
/// listing is requested and a frame is opened for it, one level deeper. In
/// particular, with `follow_symlinks` set a symlinked directory is entered
/// like any other.
pub proof fn lemma_eligible_directory_descended(w: WalkerV)
    requires
        walker_wf(w),
        w.phase is Walking,
        w.stack.len() > 0,
        w.stack.last().next < w.stack.last().entries.len(),
        w.stack.last().entries[w.stack.last().next].kind is Directory,
        !excluded(
            w.stack.last().entries[w.stack.last().next].name,
            child_rel_spec(w.stack.last().rel, w.stack.last().entries[w.stack.last().next].name),
            w.config.exclude_patterns,
        ),
        w.stack.last().entries[w.stack.last().next].is_symlink ==> w.config.follow_symlinks,
        w.stack.last().depth < w.config.max_depth,
    ensures
        step_spec(w, Event::Tick).1 == (ActionV::List {
            path: join_path_spec(
                w.stack.last().path,
                w.stack.last().entries[w.stack.last().next].name,
            ),
        }),
        step_spec(w, Event::Tick).0.stack.len() == w.stack.len() + 1,
        step_spec(w, Event::Tick).0.stack.last().depth == w.stack.last().depth + 1,
        step_spec(w, Event::Tick).0.stack.last().rel == child_rel_spec(
            w.stack.last().rel,
            w.stack.last().entries[w.stack.last().next].name,
        ),
        step_spec(w, Event::Tick).0.stack.last().via_symlink == w.stack.last().entries[w.stack.last().next].is_symlink,
{
}

/// Why a directory entry of the frame `fr` is skipped: it is excluded, or it
/// is a symlink while symlinks are not followed, or it lies past the depth
/// bound.
pub open spec fn directory_skipped(e: EntryV, fr: FrameV, cfg: ScanConfigV) -> bool {
    ||| excluded(e.name, child_rel_spec(fr.rel, e.name), cfg.exclude_patterns)
    ||| (e.is_symlink && !cfg.follow_symlinks)
    ||| fr.depth >= cfg.max_depth
}

/// A directory entry that is excluded, or is a symlink while symlinks are
/// not followed, or lies past the depth bound, is skipped outright: no frame
/// is opened for it, no listing of it is requested, and the walk simply
/// moves on. Pruning an excluded directory therefore prunes its whole
/// subtree, whatever the depth bound.
pub proof fn lemma_ineligible_directory_skipped(w: WalkerV)
    requires
        walker_wf(w),
        w.phase is Walking,
        w.stack.len() > 0,
        w.stack.last().next < w.stack.last().entries.len(),
        w.stack.last().entries[w.stack.last().next].kind is Directory,
        directory_skipped(
            w.stack.last().entries[w.stack.last().next],
            w.stack.last(),
            w.config,
        ),
    ensures
        (step_spec(w, Event::Tick).1 is Continue),
        step_spec(w, Event::Tick).0.stack.len() == w.stack.len(),
        (step_spec(w, Event::Tick).0.phase is Walking),
{
}

/// Whether two events say the same thing: the same kind of answer, with the
/// same listing contents, the same metadata, or the same write outcome. The
/// strings and vectors carrying them may be distinct allocations.
pub open spec fn events_equiv(e1: Event, e2: Event) -> bool {
    match (e1, e2) {
        (Event::Tick, Event::Tick) => true,
        (Event::Listed { entries: a }, Event::Listed { entries: b }) => entries_view(a@)
            == entries_view(b@),
        (Event::Statted { meta: a }, Event::Statted { meta: b }) => a == b,
        (Event::Wrote { ok: a }, Event::Wrote { ok: b }) => a == b,
        _ => false,
    }
}

/// The lines a run emits: feed the machine the given events, one per step,
/// and gather every line it hands out to be written.
pub open spec fn run_emits(w: WalkerV, evs: Seq<Event>) -> Seq<Seq<char>>
    decreases evs.len(),
{
    if evs.len() == 0 {
        Seq::empty()
    } else {
        let stepped = step_spec(w, evs[0]);
        let rest = run_emits(stepped.0, evs.drop_first());
        match stepped.1 {
            ActionV::Emit { line } => seq![line] + rest,
            _ => rest,
        }
    }
}

/// One step depends only on what the event says, never on which allocation
/// carried it: events that say the same thing step to the same state and the
/// same action.
pub proof fn lemma_step_deterministic(w: WalkerV, e1: Event, e2: Event)
    requires
        events_equiv(e1, e2),
    ensures
        step_spec(w, e1) == step_spec(w, e2),
{
}

/// Scanning an unmodified tree twice yields identical output: two runs from
/// the same state, answered step for step with events that say the same
/// thing, emit exactly the same lines.
pub proof fn lemma_run_deterministic(w: WalkerV, evs1: Seq<Event>, evs2: Seq<Event>)
    requires
        evs1.len() == evs2.len(),
        forall|i: int| 0 <= i < evs1.len() ==> events_equiv(#[trigger] evs1[i], evs2[i]),
    ensures
        run_emits(w, evs1) == run_emits(w, evs2),
    decreases evs1.len(),
{
    if evs1.len() > 0 {
        lemma_step_deterministic(w, evs1[0], evs2[0]);
        let stepped = step_spec(w, evs1[0]);
        assert(forall|i: int|
            0 <= i < evs1.drop_first().len() ==> events_equiv(
                #[trigger] evs1.drop_first()[i],
                evs2.drop_first()[i],
            ));
        lemma_run_deterministic(stepped.0, evs1.drop_first(), evs2.drop_first());
    }
}

} // verus!
