//! File-system change classification.
//!
//! The OS change source (wrapped outside this library) delivers raw events as
//! an event kind plus the affected paths.  This module turns those raw events
//! into typed change records: only content-data modifications yield
//! `Modified` records, removals yield `Removed` records, and every other kind
//! (creation, access, metadata-only modification) is ignored, since a file
//! creation is always followed by a content modification and must not fire
//! twice.  Paths whose text contains a dependency-cache, version-control or
//! build-output marker segment are excluded from every record.

use vstd::prelude::*;

verus! {

/// `pat` occurs as a contiguous run of characters inside `s`.
pub open spec fn contains_seq(s: Seq<char>, pat: Seq<char>) -> bool {
    exists|i: int| 0 <= i && i + pat.len() <= s.len() && #[trigger] s.subrange(i, i + pat.len())
        == pat
}

fn matches_at(s: &str, pat: &str, i: usize) -> (r: bool)
    requires
        i + pat@.len() <= s@.len(),
    ensures
        r == (s@.subrange(i as int, i + pat@.len()) == pat@),
{
    let sn = s.unicode_len();
    let n = pat.unicode_len();
    let mut j: usize = 0;
    while j < n
        invariant
            j <= n,
            n == pat@.len(),
            sn == s@.len(),
            i + n <= sn,
            forall|k: int| 0 <= k < j ==> s@[i + k] == pat@[k],
        decreases n - j,
    {
        if s.get_char(i + j) != pat.get_char(j) {
            proof {
                assert(s@.subrange(i as int, i + pat@.len())[j as int] == s@[i + j]);
            }
            return false;
        }
        j += 1;
    }
    proof {
        assert(s@.subrange(i as int, i + pat@.len()) =~= pat@);
    }
    true
}

/// Substring search, the executable counterpart of [`contains_seq`].
pub fn str_contains(s: &str, pat: &str) -> (r: bool)
    ensures
        r == contains_seq(s@, pat@),
{
    let sn = s.unicode_len();
    let pn = pat.unicode_len();
    if pn > sn {
        return false;
    }
    if pn == 0 {
        proof {
            assert(s@.subrange(0, 0 + pat@.len() as int) =~= pat@);
        }
        return true;
    }
    let mut i: usize = 0;
    while i <= sn - pn
        invariant
            sn == s@.len(),
            pn == pat@.len(),
            0 < pn <= sn,
            i <= sn - pn + 1,
            forall|k: int| 0 <= k < i ==> #[trigger] s@.subrange(k, k + pat@.len()) != pat@,
        decreases sn - pn + 1 - i,
    {
        if matches_at(s, pat, i) {
            return true;
        }
        i += 1;
    }
    proof {
        assert forall|k: int| 0 <= k && k + pat@.len() <= s@.len() implies #[trigger] s@.subrange(
            k,
            k + pat@.len(),
        ) != pat@ by {
            assert(k < i);
        }
    }
    false
}

/// A path that names a dependency cache, a version-control store or a build
/// output directory; such subtrees are never watched and never reported.
pub open spec fn is_ignored_path(s: Seq<char>) -> bool {
    ||| contains_seq(s, "node_modules"@)
    ||| contains_seq(s, ".git"@)
    ||| contains_seq(s, "dist"@)
}

/// Exclusion policy over a path's text, the executable counterpart of
/// [`is_ignored_path`].
pub fn path_is_ignored(path: &str) -> (r: bool)
    ensures
        r == is_ignored_path(path@),
{
    str_contains(path, "node_modules") || str_contains(path, ".git") || str_contains(path, "dist")
}

/// Raw event kinds as the OS change source reports them, flattened to the
/// distinctions the classifier acts on.
#[derive(Clone, Copy, PartialEq, Eq, Structural, Debug)]
pub enum RawEventKind {
    /// An unclassified event.
    Any,
    /// A read access; never a content change.
    Access,
    /// A file creation; the accompanying content modification follows
    /// separately, so creation alone is never reported.
    Create,
    /// A modification of file content data.
    DataModify,
    /// A modification of metadata only (permissions, timestamps).
    MetaModify,
    /// A removal.
    Remove,
    /// Any other kind.
    Other,
}

/// The change kind carried by one update pair handed to a rebuild trigger.
#[derive(Clone, Copy, PartialEq, Eq, Structural, Debug)]
pub enum UpdateType {
    Modify,
    Remove,
}

/// A classified change record: the paths affected, tagged with the kind of
/// change.
pub enum WatchEvent {
    Modified(Vec<String>),
    Removed(Vec<String>),
}

/// Mathematical form of a change record.
pub enum WatchEventView {
    Modified(Seq<Seq<char>>),
    Removed(Seq<Seq<char>>),
}

impl View for WatchEvent {
    type V = WatchEventView;

    open spec fn view(&self) -> WatchEventView {
        match self {
            WatchEvent::Modified(ps) => WatchEventView::Modified(ps.deep_view()),
            WatchEvent::Removed(ps) => WatchEventView::Removed(ps.deep_view()),
        }
    }
}

/// The paths carried by a record, whatever its kind.
pub open spec fn event_paths(ev: WatchEventView) -> Seq<Seq<char>> {
    match ev {
        WatchEventView::Modified(ps) => ps,
        WatchEventView::Removed(ps) => ps,
    }
}

/// The sub-sequence of `ps` whose paths the ignore policy admits, in order.
pub open spec fn kept_paths(ps: Seq<Seq<char>>) -> Seq<Seq<char>>
    decreases ps.len(),
{
    if ps.len() == 0 {
        Seq::empty()
    } else {
        let rest = kept_paths(ps.drop_last());
        if is_ignored_path(ps.last()) {
            rest
        } else {
            rest.push(ps.last())
        }
    }
}

/// Drops the paths that the ignore policy excludes, keeping the rest in
/// order.
pub fn filter_ignored(paths: &Vec<String>) -> (r: Vec<String>)
    ensures
        r.deep_view() == kept_paths(paths.deep_view()),
{
    let mut out: Vec<String> = Vec::new();
    let mut i: usize = 0;
    while i < paths.len()
        invariant
            i <= paths.len(),
            out.deep_view() == kept_paths(paths.deep_view().take(i as int)),
        decreases paths.len() - i,
    {
        proof {
            assert(paths.deep_view().take(i + 1).drop_last() =~= paths.deep_view().take(i as int));
            assert(paths.deep_view().take(i + 1).last() == paths.deep_view()[i as int]);
        }
        if !path_is_ignored(paths[i].as_str()) {
            out.push(paths[i].clone());
            proof {
                assert(out.deep_view() =~= kept_paths(paths.deep_view().take(i + 1)));
            }
        } else {
            proof {
                assert(out.deep_view() =~= kept_paths(paths.deep_view().take(i + 1)));
            }
        }
        i += 1;
    }
    proof {
        assert(paths.deep_view().take(paths.len() as int) =~= paths.deep_view());
    }
    out
}

/// What one raw event classifies to: `Modified` for a content-data change,
/// `Removed` for a removal, nothing for every other kind; ignored paths are
/// dropped, and a record is only produced when an admitted path remains.
pub open spec fn classify_spec(kind: RawEventKind, paths: Seq<Seq<char>>) -> Option<
    WatchEventView,
> {
    let kept = kept_paths(paths);
    match kind {
        RawEventKind::DataModify => if kept.len() > 0 {
            Some(WatchEventView::Modified(kept))
        } else {
            None
        },
        RawEventKind::Remove => if kept.len() > 0 {
            Some(WatchEventView::Removed(kept))
        } else {
            None
        },
        _ => None,
    }
}

/// Spec-level image of an optional record.
pub open spec fn classify_result_view(r: Option<WatchEvent>) -> Option<WatchEventView> {
    match r {
        Some(ev) => Some(ev@),
        None => None,
    }
}

/// Turns one raw event into at most one typed change record, applying the
/// ignore policy to its paths.
pub fn classify(kind: RawEventKind, paths: &Vec<String>) -> (r: Option<WatchEvent>)
    ensures
        classify_result_view(r) == classify_spec(kind, paths.deep_view()),
{
    match kind {
        RawEventKind::DataModify => {
            let kept = filter_ignored(paths);
            if kept.len() > 0 {
                Some(WatchEvent::Modified(kept))
            } else {
                None
            }
        },
        RawEventKind::Remove => {
            let kept = filter_ignored(paths);
            if kept.len() > 0 {
                Some(WatchEvent::Removed(kept))
            } else {
                None
            }
        },
        _ => None,
    }
}

impl WatchEvent {
    /// Flattens the record into (path, change kind) pairs for the rebuild
    /// trigger, one pair per path, in order.
    pub fn to_updates(self) -> (r: Vec<(String, UpdateType)>)
        ensures
            r@.len() == event_paths(self@).len(),
            forall|i: int|
                0 <= i < r@.len() ==> r@[i].0.deep_view() == event_paths(self@)[i],
            forall|i: int|
                0 <= i < r@.len() ==> r@[i].1 == (match self@ {
                    WatchEventView::Modified(_) => UpdateType::Modify,
                    WatchEventView::Removed(_) => UpdateType::Remove,
                }),
    {
        let (paths, kind) = match self {
            WatchEvent::Modified(ps) => (ps, UpdateType::Modify),
            WatchEvent::Removed(ps) => (ps, UpdateType::Remove),
        };
        let ghost gpaths = paths.deep_view();
        let mut out: Vec<(String, UpdateType)> = Vec::new();
        let mut i: usize = 0;
        while i < paths.len()
            invariant
                i <= paths.len(),
                gpaths == paths.deep_view(),
                out@.len() == i,
                forall|k: int| 0 <= k < i ==> out@[k].0.deep_view() == gpaths[k],
                forall|k: int| 0 <= k < i ==> out@[k].1 == kind,
            decreases paths.len() - i,
        {
            out.push((paths[i].clone(), kind));
            i += 1;
        }
        out
    }
}

/// Where to register one directory entry with the OS change source.
#[derive(Clone, Copy, PartialEq, Eq, Structural, Debug)]
pub enum WatchMode {
    /// Do not register the entry at all (ignored subtree).
    Skip,
    /// Register a plain file, non-recursively.
    WatchFile,
    /// Register a directory with its whole subtree.
    WatchRecursive,
}

/// Decides how one immediate entry of the watched root is registered: files
/// are watched individually, ignored directories are skipped, and every other
/// directory is watched recursively.
pub fn entry_watch_mode(path: &str, is_file: bool) -> (m: WatchMode)
    ensures
        m == (if is_file {
            WatchMode::WatchFile
        } else if is_ignored_path(path@) {
            WatchMode::Skip
        } else {
            WatchMode::WatchRecursive
        }),
{
    if is_file {
        WatchMode::WatchFile
    } else if path_is_ignored(path) {
        WatchMode::Skip
    } else {
        WatchMode::WatchRecursive
    }
}

/// The watch session's two states: before registration, and after the root
/// and its entries have been registered.  The transition happens once and is
/// terminal for the session's lifetime.
#[derive(Clone, Copy, PartialEq, Eq, Structural, Debug)]
pub enum WatchState {
    Idle,
    Watching,
}

/// A watch session: tracks whether registration has happened.
pub struct WatchSession {
    state: WatchState,
}

impl WatchSession {
    /// A fresh session, not yet watching anything.
    pub fn new() -> (s: WatchSession)
        ensures
            s.state_of() == WatchState::Idle,
    {
        WatchSession { state: WatchState::Idle }
    }

    pub closed spec fn state_of(&self) -> WatchState {
        self.state
    }

    /// Registration is complete: the session moves to `Watching`, once, and
    /// never returns to `Idle`.
    pub fn start(&mut self)
        requires
            old(self).state_of() == WatchState::Idle,
        ensures
            final(self).state_of() == WatchState::Watching,
    {
        self.state = WatchState::Watching;
    }

    pub fn is_watching(&self) -> (r: bool)
        ensures
            r == (self.state_of() == WatchState::Watching),
    {
        match self.state {
            WatchState::Idle => false,
            WatchState::Watching => true,
        }
    }
}

/// Every path of every kept record satisfies the ignore policy: no change
/// record is ever produced for a path whose text contains a marker segment.
pub proof fn lemma_ignore_policy(kind: RawEventKind, paths: Seq<Seq<char>>, ev: WatchEventView)
    requires
        classify_spec(kind, paths) == Some(ev),
    ensures
        forall|i: int| 0 <= i < event_paths(ev).len() ==> !is_ignored_path(event_paths(ev)[i]),
{
    lemma_kept_paths_admitted(paths);
}

/// Every path that survives the filter is admitted by the policy.
proof fn lemma_kept_paths_admitted(ps: Seq<Seq<char>>)
    ensures
        forall|i: int| 0 <= i < kept_paths(ps).len() ==> !is_ignored_path(kept_paths(ps)[i]),
    decreases ps.len(),
{
    if ps.len() > 0 {
        lemma_kept_paths_admitted(ps.drop_last());
        let rest = kept_paths(ps.drop_last());
        assert forall|i: int|
            0 <= i < kept_paths(ps).len() implies !is_ignored_path(kept_paths(ps)[i]) by {
            if !is_ignored_path(ps.last()) {
                assert(kept_paths(ps) == rest.push(ps.last()));
                if i < rest.len() {
                    assert(kept_paths(ps)[i] == rest[i]);
                }
            }
        }
    }
}

/// Watch classification: a data-content modification of one admitted path
/// yields exactly one `Modified` record carrying exactly that path, while a
/// metadata-only modification, a standalone creation, an access and an
/// unrecognized kind yield no record at all.  A creation immediately
/// followed by its content modification therefore yields exactly one record:
/// the one for the modification.
pub proof fn lemma_watch_classification(p: Seq<char>, other: Seq<Seq<char>>)
    requires
        !is_ignored_path(p),
    ensures
        classify_spec(RawEventKind::DataModify, seq![p]) == Some(
            WatchEventView::Modified(seq![p]),
        ),
        classify_spec(RawEventKind::MetaModify, other) is None,
        classify_spec(RawEventKind::Create, other) is None,
        classify_spec(RawEventKind::Access, other) is None,
        classify_spec(RawEventKind::Any, other) is None,
        classify_spec(RawEventKind::Other, other) is None,
{
    assert(seq![p].drop_last() =~= Seq::<Seq<char>>::empty());
    assert(kept_paths(Seq::<Seq<char>>::empty()) =~= Seq::<Seq<char>>::empty());
    assert(kept_paths(seq![p]) =~= seq![p]);
}

} // verus!
