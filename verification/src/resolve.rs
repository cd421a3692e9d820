//! The dependency resolver.
//!
//! Starting from an entry file, the resolver walks the dependency tree
//! depth-first and in preorder: each file is comment-stripped and scanned,
//! each discovered call site is recorded the moment it is found, and when
//! the site's module path — resolved against the *requiring file's* parent
//! directory — names a file that exists, that file is entered before the
//! next sibling site is handled.
//!
//! The resolver performs no I/O itself. It asks for one file at a time
//! ([`ResolveStep::Read`]); the caller reads the file and answers with its
//! bytes ([`ResolveEvent::Loaded`]) or with [`ResolveEvent::Missing`] when
//! no file exists at that path. A missing module file is recorded but not
//! entered — its path may name a runtime dependency rather than a local
//! file — while a missing entry file ends resolution with an error.
//!
//! A module path that re-enters a file still being resolved would recurse
//! forever; the resolver keeps the active path stack and answers such a
//! step with [`ResolveError::Cycle`] instead.
//!
//! Paths are plain byte strings joined textually: `/` separates components,
//! no search path and no extension inference exist.

use vstd::prelude::*;
use vstd::slice::slice_to_vec;

use crate::ascii::SLASH;
use crate::comments::{remove_comments, strip_comments};
use crate::scan::{scan_requires, scan_spec, sites_view, CallSite, SiteSpec};

verus! {

/// The length of `p`'s directory prefix: everything before the last `/`,
/// or nothing when `p` has no `/`.
pub open spec fn dir_len(p: Seq<u8>) -> int
    decreases p.len(),
{
    if p.len() == 0 {
        0
    } else if p[p.len() - 1] == SLASH {
        p.len() - 1
    } else {
        dir_len(p.drop_last())
    }
}

/// The directory part of `p`: what remains when the last component and its
/// `/` are removed; empty when `p` is a bare file name.
pub open spec fn parent_dir_spec(p: Seq<u8>) -> Seq<u8> {
    p.subrange(0, dir_len(p))
}

/// `dir` and `file` joined with a `/`: `file` alone when it is absolute or
/// when `dir` is empty.
pub open spec fn join_path_spec(dir: Seq<u8>, file: Seq<u8>) -> Seq<u8> {
    if file.len() > 0 && file[0] == SLASH {
        file
    } else if dir.len() == 0 {
        file
    } else {
        dir + seq![SLASH] + file
    }
}

/// The directory part of `p`.
pub fn parent_dir(p: &[u8]) -> (d: Vec<u8>)
    ensures
        d@ == parent_dir_spec(p@),
{
    let mut j = p.len();
    proof {
        assert(p@.subrange(0, p@.len() as int) =~= p@);
    }
    while j > 0 && p[j - 1] != SLASH
        invariant
            j <= p@.len(),
            dir_len(p@) == dir_len(p@.subrange(0, j as int)),
        decreases j,
    {
        proof {
            assert(p@.subrange(0, j as int).drop_last() =~= p@.subrange(0, j as int - 1));
        }
        j = j - 1;
    }
    if j == 0 {
        Vec::new()
    } else {
        proof {
            assert(dir_len(p@.subrange(0, j as int)) == j - 1);
        }
        slice_to_vec(vstd::slice::slice_subrange(p, 0, j - 1))
    }
}

/// `dir` and `file` joined with a `/`.
pub fn join_path(dir: &[u8], file: &[u8]) -> (p: Vec<u8>)
    ensures
        p@ == join_path_spec(dir@, file@),
{
    if file.len() > 0 && file[0] == SLASH {
        slice_to_vec(file)
    } else if dir.len() == 0 {
        slice_to_vec(file)
    } else {
        let mut v = slice_to_vec(dir);
        v.push(SLASH);
        crate::subst::append_bytes(&mut v, file);
        proof {
            assert(v@ =~= dir@ + seq![SLASH] + file@);
        }
        v
    }
}

/// Do two byte strings hold the same bytes?
fn bytes_eq(a: &[u8], b: &[u8]) -> (r: bool)
    ensures
        r == (a@ == b@),
{
    if a.len() != b.len() {
        return false;
    }
    let mut j: usize = 0;
    while j < a.len()
        invariant
            a@.len() == b@.len(),
            j <= a@.len(),
            forall|t: int| 0 <= t < j ==> a@[t] == b@[t],
        decreases a@.len() - j,
    {
        if a[j] != b[j] {
            return false;
        }
        j = j + 1;
    }
    proof {
        assert(a@ =~= b@);
    }
    true
}

/// One file on the active resolution path: its path, its parent directory,
/// its scanned call sites and how many of them have been handled.
pub struct Frame {
    pub file: Vec<u8>,
    pub dir: Vec<u8>,
    pub sites: Vec<CallSite>,
    pub next: usize,
}

/// The mathematical value of a [`Frame`].
pub ghost struct FrameSpec {
    pub file: Seq<u8>,
    pub dir: Seq<u8>,
    pub sites: Seq<SiteSpec>,
    pub next: int,
}

impl View for Frame {
    type V = FrameSpec;

    open spec fn view(&self) -> FrameSpec {
        FrameSpec {
            file: self.file@,
            dir: self.dir@,
            sites: sites_view(self.sites@),
            next: self.next as int,
        }
    }
}

/// The views of a frame stack.
pub open spec fn frames_view(fs: Seq<Frame>) -> Seq<FrameSpec> {
    fs.map_values(|f: Frame| f@)
}

/// What the caller must do next: read the file at `path` and answer with an
/// event, or stop — every site has been recorded.
pub enum ResolveStep {
    Read { path: Vec<u8> },
    Done,
}

/// The caller's answer to a [`ResolveStep::Read`]: the file's raw bytes, or
/// word that no file exists at that path.
pub enum ResolveEvent {
    Loaded { text: Vec<u8> },
    Missing,
}

/// Why resolution stopped early: the entry file itself does not exist, or
/// a module path re-enters a file that is still being resolved.
pub enum ResolveError {
    EntryMissing,
    Cycle { path: Vec<u8> },
}

/// The mathematical value of a [`ResolveStep`].
pub ghost enum StepView {
    Read { path: Seq<u8> },
    Done,
}

/// The mathematical value of a [`ResolveError`].
pub ghost enum ErrorView {
    EntryMissing,
    Cycle { path: Seq<u8> },
}

impl View for ResolveStep {
    type V = StepView;

    open spec fn view(&self) -> StepView {
        match self {
            ResolveStep::Read { path } => StepView::Read { path: path@ },
            ResolveStep::Done => StepView::Done,
        }
    }
}

impl View for ResolveError {
    type V = ErrorView;

    open spec fn view(&self) -> ErrorView {
        match self {
            ResolveError::EntryMissing => ErrorView::EntryMissing,
            ResolveError::Cycle { path } => ErrorView::Cycle { path: path@ },
        }
    }
}

/// The resolver's state: the active frame stack, the flattened preorder
/// list of every call site recorded so far, and the path whose read is
/// awaited (`None` once resolution has ended).
pub struct Resolver {
    pub frames: Vec<Frame>,
    pub found: Vec<CallSite>,
    pub awaiting: Option<Vec<u8>>,
}

/// The mathematical value of a [`Resolver`].
pub ghost struct ResolverView {
    pub frames: Seq<FrameSpec>,
    pub found: Seq<SiteSpec>,
    pub awaiting: Option<Seq<u8>>,
}

impl View for Resolver {
    type V = ResolverView;

    open spec fn view(&self) -> ResolverView {
        ResolverView {
            frames: frames_view(self.frames@),
            found: sites_view(self.found@),
            awaiting: match self.awaiting {
                Some(p) => Some(p@),
                None => None,
            },
        }
    }
}

/// The sites a loaded file contributes: its text is comment-stripped, then
/// scanned.
pub open spec fn scanned_sites(text: Seq<u8>) -> Seq<SiteSpec> {
    scan_spec(strip_comments(text))
}

/// The frame a file loaded from `path` pushes onto the stack.
pub open spec fn frame_for(path: Seq<u8>, text: Seq<u8>) -> FrameSpec {
    FrameSpec { file: path, dir: parent_dir_spec(path), sites: scanned_sites(text), next: 0 }
}

/// The stack after every exhausted top frame — one whose sites are all
/// handled — is popped.
pub open spec fn live(fs: Seq<FrameSpec>) -> Seq<FrameSpec>
    decreases fs.len(),
{
    if fs.len() == 0 {
        fs
    } else if fs.last().next == fs.last().sites.len() {
        live(fs.drop_last())
    } else {
        fs
    }
}

/// Is the file at `path` on the active stack `fs`?
pub open spec fn path_on_stack(fs: Seq<FrameSpec>, path: Seq<u8>) -> bool {
    exists|k: int| 0 <= k < fs.len() && fs[k].file == path
}

/// Every frame's progress index stays within its site list.
pub open spec fn frames_wf(fs: Seq<FrameSpec>) -> bool {
    forall|k: int| 0 <= k < fs.len() ==> (#[trigger] fs[k]).next <= fs[k].sites.len()
}

/// What advancing does, over views: exhausted frames are popped; with none
/// left, resolution is done. Otherwise the top frame's next site is
/// recorded, and its module path, joined to that frame's directory, is the
/// next file to probe — unless it is already on the active stack, which
/// ends resolution with a cycle error.
pub open spec fn advance_spec(frames: Seq<FrameSpec>, found: Seq<SiteSpec>) -> (
    ResolverView,
    Result<StepView, ErrorView>,
) {
    let fs = live(frames);
    if fs.len() == 0 {
        (ResolverView { frames: fs, found, awaiting: None }, Ok(StepView::Done))
    } else {
        let top = fs.last();
        let site = top.sites[top.next];
        let cand = join_path_spec(top.dir, site.path);
        let fs2 = fs.update(fs.len() - 1, FrameSpec { next: top.next + 1, ..top });
        let found2 = found + seq![site];
        if path_on_stack(fs2, cand) {
            (
                ResolverView { frames: fs2, found: found2, awaiting: None },
                Err(ErrorView::Cycle { path: cand }),
            )
        } else {
            (
                ResolverView { frames: fs2, found: found2, awaiting: Some(cand) },
                Ok(StepView::Read { path: cand }),
            )
        }
    }
}

/// What one step does, over views: a loaded file pushes its frame (the
/// awaited path, its directory, its scanned sites); a missing file pushes
/// nothing — or ends resolution with an error when it was the entry file —
/// and either way the resolver advances to its next request.
pub open spec fn step_spec(v: ResolverView, loaded: Option<Seq<u8>>) -> (
    ResolverView,
    Result<StepView, ErrorView>,
) {
    match loaded {
        Some(text) => advance_spec(v.frames + seq![frame_for(v.awaiting->0, text)], v.found),
        None => if v.frames.len() == 0 {
            (
                ResolverView { frames: v.frames, found: v.found, awaiting: None },
                Err(ErrorView::EntryMissing),
            )
        } else {
            advance_spec(v.frames, v.found)
        },
    }
}

/// The view of the event: the loaded bytes, or `None` for a missing file.
pub open spec fn event_view(ev: ResolveEvent) -> Option<Seq<u8>> {
    match ev {
        ResolveEvent::Loaded { text } => Some(text@),
        ResolveEvent::Missing => None,
    }
}

impl Resolver {
    /// Every frame's progress index stays within its site list.
    pub open spec fn wf(&self) -> bool {
        frames_wf(self@.frames)
    }

    /// Starts resolving at `entry`: the caller's first duty is to read the
    /// entry file and answer with a [`ResolveEvent`].
    pub fn begin(entry: Vec<u8>) -> (r: Resolver)
        ensures
            r.wf(),
            r@.frames == Seq::<FrameSpec>::empty(),
            r@.found == Seq::<SiteSpec>::empty(),
            r@.awaiting == Some(entry@),
    {
        let r = Resolver { frames: Vec::new(), found: Vec::new(), awaiting: Some(entry) };
        proof {
            assert(frames_view(r.frames@) =~= Seq::<FrameSpec>::empty());
            assert(sites_view(r.found@) =~= Seq::<SiteSpec>::empty());
        }
        r
    }

    /// Is the file at `p` on the active stack?
    fn path_active(&self, p: &[u8]) -> (r: bool)
        ensures
            r == path_on_stack(self@.frames, p@),
    {
        let mut k: usize = 0;
        while k < self.frames.len()
            invariant
                k <= self.frames@.len(),
                self@.frames.len() == self.frames@.len(),
                forall|t: int| 0 <= t < k ==> self@.frames[t].file != p@,
            decreases self.frames@.len() - k,
        {
            if bytes_eq(self.frames[k].file.as_slice(), p) {
                assert(self@.frames[k as int].file == p@);
                return true;
            }
            k = k + 1;
        }
        false
    }

    /// Pops exhausted frames and issues the next request, as
    /// [`advance_spec`] says.
    fn advance(&mut self) -> (r: Result<ResolveStep, ResolveError>)
        requires
            old(self).wf(),
        ensures
            final(self).wf(),
            ({
                let (post, res) = advance_spec(old(self)@.frames, old(self)@.found);
                &&& final(self)@ == post
                &&& match r {
                    Ok(s) => res == Ok::<StepView, ErrorView>(s@),
                    Err(e) => res == Err::<StepView, ErrorView>(e@),
                }
            }),
    {
        loop
            invariant
                self.wf(),
                live(old(self)@.frames) == live(frames_view(self.frames@)),
                self.found == old(self).found,
                self.awaiting == old(self).awaiting,
            ensures
                self.wf(),
                live(old(self)@.frames) == live(frames_view(self.frames@)),
                self.found == old(self).found,
                self.awaiting == old(self).awaiting,
                self.frames@.len() == 0 || frames_view(self.frames@).last().next < frames_view(
                    self.frames@,
                ).last().sites.len(),
            decreases self.frames@.len(),
        {
            if self.frames.len() == 0 {
                break;
            }
            let flen = self.frames.len();
            let ghost pre = frames_view(self.frames@);
            let nx = self.frames[flen - 1].next;
            let sl = self.frames[flen - 1].sites.len();
            proof {
                assert(pre.last() == self.frames@[flen as int - 1]@);
                assert(pre.last().next == nx as int);
                assert(pre.last().sites.len() == sl as int);
            }
            if nx < sl {
                break;
            }
            proof {
                // The top frame is exhausted (well-formedness bounds its
                // index from above), so `live` discards it.
                assert(pre.last().next == pre.last().sites.len());
                assert(forall|k: int|
                    0 <= k < pre.len() ==> (#[trigger] pre[k]).next <= pre[k].sites.len());
            }
            self.frames.pop();
            proof {
                assert(frames_view(self.frames@) =~= pre.drop_last());
                assert forall|k: int| 0 <= k < frames_view(self.frames@).len() implies (
                #[trigger] frames_view(self.frames@)[k]).next <= frames_view(
                    self.frames@,
                )[k].sites.len() by {
                    assert(frames_view(self.frames@)[k] == pre[k]);
                }
                assert(frames_wf(frames_view(self.frames@)));
            }
        }
        if self.frames.len() == 0 {
            self.awaiting = None;
            Ok(ResolveStep::Done)
        } else {
            let ghost fs = live(old(self)@.frames);
            proof {
                assert(fs == frames_view(self.frames@));
                assert(fs.last() == frames_view(self.frames@).last());
            }
            let mut top = self.frames.pop().unwrap();
            proof {
                assert(top@ == fs.last());
                assert(sites_view(top.sites@).len() == top.sites@.len());
            }
            let site = top.sites[top.next].duplicate();
            proof {
                assert(site@ == fs.last().sites[fs.last().next]);
            }
            let cand = join_path(top.dir.as_slice(), site.required_path.as_slice());
            let cap = top.sites.len();
            assert(top.next < cap);
            top.next = top.next + 1;
            let ghost topv = top@;
            self.frames.push(top);
            proof {
                assert(topv == FrameSpec { next: fs.last().next + 1, ..fs.last() });
                assert(frames_view(self.frames@) =~= fs.update(
                    fs.len() - 1,
                    FrameSpec { next: fs.last().next + 1, ..fs.last() },
                ));
            }
            let ghost sitev = site@;
            let ghost pre_found = sites_view(self.found@);
            self.found.push(site);
            proof {
                assert(sites_view(self.found@) =~= pre_found + seq![sitev]);
            }
            if self.path_active(cand.as_slice()) {
                self.awaiting = None;
                Err(ResolveError::Cycle { path: cand })
            } else {
                let ghost candv = cand@;
                let back = slice_to_vec(cand.as_slice());
                self.awaiting = Some(cand);
                Ok(ResolveStep::Read { path: back })
            }
        }
    }

    /// Feeds the answer to the last request and returns the next one, as
    /// [`step_spec`] says.
    pub fn step(&mut self, ev: ResolveEvent) -> (r: Result<ResolveStep, ResolveError>)
        requires
            old(self).wf(),
            old(self).awaiting is Some,
        ensures
            final(self).wf(),
            ({
                let (post, res) = step_spec(old(self)@, event_view(ev));
                &&& final(self)@ == post
                &&& match r {
                    Ok(s) => res == Ok::<StepView, ErrorView>(s@),
                    Err(e) => res == Err::<StepView, ErrorView>(e@),
                }
            }),
    {
        match ev {
            ResolveEvent::Loaded { text } => {
                let stripped = remove_comments(text.as_slice());
                let sites = scan_requires(stripped.as_slice());
                let mut taken: Option<Vec<u8>> = None;
                core::mem::swap(&mut taken, &mut self.awaiting);
                let path = taken.unwrap();
                let dir = parent_dir(path.as_slice());
                let ghost pre = frames_view(self.frames@);
                let frame = Frame { file: path, dir, sites, next: 0 };
                let ghost fv = frame@;
                self.frames.push(frame);
                proof {
                    assert(frames_view(self.frames@) =~= pre + seq![fv]);
                }
                self.advance()
            },
            ResolveEvent::Missing => {
                if self.frames.len() == 0 {
                    self.awaiting = None;
                    proof {
                        assert(frames_view(self.frames@) =~= Seq::<FrameSpec>::empty());
                    }
                    Err(ResolveError::EntryMissing)
                } else {
                    self.advance()
                }
            },
        }
    }

    /// Hands out the flattened preorder list of recorded call sites.
    pub fn into_sites(self) -> (sites: Vec<CallSite>)
        ensures
            sites_view(sites@) == self@.found,
    {
        self.found
    }
}

} // verus!
