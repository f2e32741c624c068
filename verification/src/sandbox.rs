//! Confinement of a requested path to a sandbox root.
//!
//! Resolving a path alternates questions to the file system with decisions;
//! [`resolve_safe_path`] makes each decision from the current stage and the
//! answer to the last question.
use vstd::prelude::*;
use crate::fs::{FsReply, FsRequest};
use crate::path::{
    components, file_name, is_absolute, is_normal_absolute, join, lead_parts,
    lemma_file_name_is_a_name, lemma_join_name, parts_of_pieces, split_slash, PartView, join_paths, parent, path_file_name, path_parent, path_starts_with, starts_with,
};

verus! {

/// Why a requested path was refused.
#[derive(Debug)]
pub enum PathError {
    /// The sandbox root could not be canonicalized.
    RootUnavailable { root: String, detail: String },
    /// The requested path exists but could not be canonicalized.
    TargetUnavailable { target: String, detail: String },
    /// The requested path has no parent directory.
    NoParent { path: String },
    /// The requested path does not end in a file name.
    NoFileName { path: String },
    /// The parent directory of a new file could not be canonicalized.
    ParentUnavailable { parent: String, detail: String },
    /// The path leads outside the sandbox root.
    EscapesRoot { path: String },
    /// A symbolic link on the way to the path to be created could not be read.
    LinkUnreadable { path: String, detail: String },
    /// The path to be created goes through more symbolic links than are followed.
    TooManyLinks { path: String },
}

impl PathError {
    /// The error's text, as it is reported to the model.
    pub open spec fn text(&self) -> Seq<char> {
        match self {
            PathError::RootUnavailable { root, detail } => "Failed to canonicalize root "@ + root@
                + ": "@ + detail@,
            PathError::TargetUnavailable { target, detail } => "Failed to canonicalize target "@
                + target@ + ": "@ + detail@,
            PathError::NoParent { path } => "Path has no parent: "@ + path@,
            PathError::NoFileName { path } => "Path has no filename: "@ + path@,
            PathError::ParentUnavailable { parent, detail } => "Failed to canonicalize parent "@
                + parent@ + ": "@ + detail@,
            PathError::EscapesRoot { path } => "Path escapes project root: "@ + path@,
            PathError::LinkUnreadable { path, detail } => "Failed to read link "@ + path@ + ": "@
                + detail@,
            PathError::TooManyLinks { path } => "Too many levels of symbolic links: "@ + path@,
        }
    }

    pub fn message(&self) -> (r: String)
        ensures
            r@ == self.text(),
    {
        let mut r = String::new();
        match self {
            PathError::RootUnavailable { root, detail } => {
                r.push_str("Failed to canonicalize root ");
                r.push_str(root.as_str());
                r.push_str(": ");
                r.push_str(detail.as_str());
            },
            PathError::TargetUnavailable { target, detail } => {
                r.push_str("Failed to canonicalize target ");
                r.push_str(target.as_str());
                r.push_str(": ");
                r.push_str(detail.as_str());
            },
            PathError::NoParent { path } => {
                r.push_str("Path has no parent: ");
                r.push_str(path.as_str());
            },
            PathError::NoFileName { path } => {
                r.push_str("Path has no filename: ");
                r.push_str(path.as_str());
            },
            PathError::ParentUnavailable { parent, detail } => {
                r.push_str("Failed to canonicalize parent ");
                r.push_str(parent.as_str());
                r.push_str(": ");
                r.push_str(detail.as_str());
            },
            PathError::EscapesRoot { path } => {
                r.push_str("Path escapes project root: ");
                r.push_str(path.as_str());
            },
            PathError::LinkUnreadable { path, detail } => {
                r.push_str("Failed to read link ");
                r.push_str(path.as_str());
                r.push_str(": ");
                r.push_str(detail.as_str());
            },
            PathError::TooManyLinks { path } => {
                r.push_str("Too many levels of symbolic links: ");
                r.push_str(path.as_str());
            },
        }
        r
    }
}

/// The stage a path resolution has reached.
pub enum SafePath {
    /// Waiting for the canonical form of the sandbox root.
    AwaitRoot { root: String, requested: String },
    /// Waiting to learn whether the joined path exists.
    AwaitExists { canonical_root: String, joined: String },
    /// Waiting for the canonical form of the existing joined path.
    AwaitTarget { canonical_root: String, joined: String },
    /// Waiting for the canonical form of the parent of a path to be created.
    AwaitParent { canonical_root: String, parent: String, file_name: String },
    /// Waiting to learn whether `probe`, in the canonical directory `dir`, is a
    /// symbolic link. `probe` is the path to be created, or where the links
    /// from it have led after `hops` of them; `resolved` is the path to be
    /// created, which the resolution returns.
    AwaitLinkCheck {
        canonical_root: String,
        resolved: String,
        dir: String,
        probe: String,
        hops: usize,
    },
    /// Waiting for the canonical form of the directory a link leads into.
    AwaitLinkParent {
        canonical_root: String,
        resolved: String,
        parent: String,
        file_name: String,
        hops: usize,
    },
}

/// How many symbolic links are followed from a path to be created, as many as
/// Linux follows in one path resolution.
pub const MAX_LINK_HOPS: usize = 40;

/// What follows a step of a path resolution.
pub enum Resolution {
    /// Perform `FsRequest` and hand its reply to the new stage.
    Ask(SafePath, FsRequest),
    /// The resolution is over.
    Done(Result<String, PathError>),
}

impl SafePath {
    /// The canonical sandbox root, once it is known.
    pub open spec fn canonical_root(&self) -> Option<Seq<char>> {
        match self {
            SafePath::AwaitRoot { .. } => None,
            SafePath::AwaitExists { canonical_root, .. } => Some(canonical_root@),
            SafePath::AwaitTarget { canonical_root, .. } => Some(canonical_root@),
            SafePath::AwaitParent { canonical_root, .. } => Some(canonical_root@),
            SafePath::AwaitLinkCheck { canonical_root, .. } => Some(canonical_root@),
            SafePath::AwaitLinkParent { canonical_root, .. } => Some(canonical_root@),
        }
    }

    /// The invariant of a resolution: while links are followed, the path to be
    /// created and the path being checked lie under the canonical root, and no
    /// more links than allowed have been followed.
    pub open spec fn wf(&self) -> bool {
        match self {
            SafePath::AwaitLinkCheck { canonical_root, resolved, probe, hops, .. } => {
                &&& path_starts_with(resolved@, canonical_root@)
                &&& path_starts_with(probe@, canonical_root@)
                &&& hops <= MAX_LINK_HOPS
            },
            SafePath::AwaitLinkParent { canonical_root, resolved, hops, .. } => {
                &&& path_starts_with(resolved@, canonical_root@)
                &&& hops <= MAX_LINK_HOPS
            },
            _ => true,
        }
    }

    /// Whether `reply` answers the question this stage waits on.
    pub open spec fn expects(&self, reply: FsReply) -> bool {
        match self {
            SafePath::AwaitExists { .. } => reply is Exists,
            SafePath::AwaitLinkCheck { .. } => reply is Link,
            _ => reply is Canonical,
        }
    }

    /// Starts resolving `requested` against the sandbox `root`: the first
    /// question is the canonical form of the root.
    pub fn start(root: &str, requested: &str) -> (r: (SafePath, FsRequest))
        ensures
            r.0.wf(),
            r.0 matches SafePath::AwaitRoot { root: rt, requested: rq } && rt@ == root@ && rq@
                == requested@,
            r.1 matches FsRequest::Canonicalize(p) && p@ == root@,
    {
        (
            SafePath::AwaitRoot { root: root.to_owned(), requested: requested.to_owned() },
            FsRequest::Canonicalize(root.to_owned()),
        )
    }
}

/// The outcome of checking a canonical target against the canonical root.
pub open spec fn confined(canonical_root: Seq<char>, target: Seq<char>, r: Resolution) -> bool {
    if path_starts_with(target, canonical_root) {
        r matches Resolution::Done(Ok(t)) && t@ == target
    } else {
        r matches Resolution::Done(Err(PathError::EscapesRoot { path })) && path@ == target
    }
}

/// The outcome of checking where a path to be created leads, `probe` in the
/// canonical directory `dir`, against the canonical root: outside it, the path
/// is refused; inside it, whether `probe` is a symbolic link is asked next.
pub open spec fn confined_link(
    canonical_root: Seq<char>,
    resolved: Seq<char>,
    dir: Seq<char>,
    probe: Seq<char>,
    hops: int,
    r: Resolution,
) -> bool {
    if path_starts_with(probe, canonical_root) {
        r matches Resolution::Ask(
            SafePath::AwaitLinkCheck { canonical_root: c, resolved: t, dir: d, probe: p, hops: h },
            FsRequest::ReadLink(q),
        ) && c@ == canonical_root && t@ == resolved && d@ == dir && p@ == probe && h == hops
            && q@ == probe
    } else {
        r matches Resolution::Done(Err(PathError::EscapesRoot { path })) && path@ == probe
    }
}

/// A resolved path is confined: it is either the operating system's canonical
/// form of an existing path, or a path to be created whose links, when it
/// has any, all lead under the canonical root, the last of them to a path that
/// is no link.
pub open spec fn resolved_confined(s: SafePath, a: FsReply, t: Seq<char>) -> bool {
    ||| (s is AwaitTarget && (a matches FsReply::Canonical(Ok(c)) && c@ == t))
    ||| (s matches SafePath::AwaitLinkCheck { canonical_root, resolved, probe, .. }
        && a == FsReply::Link(Ok(None)) && resolved@ == t && path_starts_with(
        probe@,
        canonical_root@,
    ))
}

/// The step that `resolve_safe_path` takes from stage `s` on reply `a`.
pub open spec fn resolution_step(s: SafePath, a: FsReply, r: Resolution) -> bool {
    match s {
        SafePath::AwaitRoot { root, requested } => match a {
            FsReply::Canonical(Err(d)) => r matches Resolution::Done(
                Err(PathError::RootUnavailable { root: rt, detail }),
            ) && rt@ == root@ && detail@ == d@,
            FsReply::Canonical(Ok(cr)) => r matches Resolution::Ask(
                SafePath::AwaitExists { canonical_root, joined },
                FsRequest::Exists(q),
            ) && canonical_root@ == cr@ && joined@ == join(cr@, requested@) && q@ == joined@,
            _ => false,
        },
        SafePath::AwaitExists { canonical_root, joined } => match a {
            FsReply::Exists(true) => r matches Resolution::Ask(
                SafePath::AwaitTarget { canonical_root: c, joined: j },
                FsRequest::Canonicalize(q),
            ) && c@ == canonical_root@ && j@ == joined@ && q@ == joined@,
            FsReply::Exists(false) => match parent(joined@) {
                None => r matches Resolution::Done(Err(PathError::NoParent { path })) && path@
                    == joined@,
                Some(p) => match file_name(joined@) {
                    None => r matches Resolution::Done(Err(PathError::NoFileName { path })) && path@
                        == joined@,
                    Some(f) => r matches Resolution::Ask(
                        SafePath::AwaitParent { canonical_root: c, parent: pp, file_name: ff },
                        FsRequest::Canonicalize(q),
                    ) && c@ == canonical_root@ && pp@ == p && ff@ == f && q@ == p,
                },
            },
            _ => false,
        },
        SafePath::AwaitTarget { canonical_root, joined } => match a {
            FsReply::Canonical(Err(d)) => r matches Resolution::Done(
                Err(PathError::TargetUnavailable { target, detail }),
            ) && target@ == joined@ && detail@ == d@,
            FsReply::Canonical(Ok(t)) => confined(canonical_root@, t@, r),
            _ => false,
        },
        SafePath::AwaitParent { canonical_root, parent, file_name } => match a {
            FsReply::Canonical(Err(d)) => r matches Resolution::Done(
                Err(PathError::ParentUnavailable { parent: p, detail }),
            ) && p@ == parent@ && detail@ == d@,
            FsReply::Canonical(Ok(cp)) => {
                let t = join(cp@, file_name@);
                confined_link(canonical_root@, t, cp@, t, 0, r)
            },
            _ => false,
        },
        SafePath::AwaitLinkCheck { canonical_root, resolved, dir, probe, hops } => match a {
            FsReply::Link(Err(d)) => r matches Resolution::Done(
                Err(PathError::LinkUnreadable { path, detail }),
            ) && path@ == probe@ && detail@ == d@,
            FsReply::Link(Ok(None)) => r matches Resolution::Done(Ok(t)) && t@ == resolved@,
            FsReply::Link(Ok(Some(l))) => if hops >= MAX_LINK_HOPS {
                r matches Resolution::Done(Err(PathError::TooManyLinks { path })) && path@
                    == resolved@
            } else {
                let dest = join(dir@, l@);
                match parent(dest) {
                    None => r matches Resolution::Done(Err(PathError::NoParent { path })) && path@
                        == dest,
                    Some(p) => match file_name(dest) {
                        None => r matches Resolution::Done(Err(PathError::NoFileName { path }))
                            && path@ == dest,
                        Some(f) => r matches Resolution::Ask(
                            SafePath::AwaitLinkParent {
                                canonical_root: c,
                                resolved: t,
                                parent: pp,
                                file_name: ff,
                                hops: h,
                            },
                            FsRequest::Canonicalize(q),
                        ) && c@ == canonical_root@ && t@ == resolved@ && pp@ == p && ff@ == f && h
                            == hops + 1 && q@ == p,
                    },
                }
            },
            _ => false,
        },
        SafePath::AwaitLinkParent { canonical_root, resolved, parent, file_name, hops } => match a {
            FsReply::Canonical(Err(d)) => r matches Resolution::Done(
                Err(PathError::ParentUnavailable { parent: p, detail }),
            ) && p@ == parent@ && detail@ == d@,
            FsReply::Canonical(Ok(cp)) => confined_link(
                canonical_root@,
                resolved@,
                cp@,
                join(cp@, file_name@),
                hops as int,
                r,
            ),
            _ => false,
        },
    }
}

fn confine_link(
    canonical_root: String,
    resolved: String,
    dir: String,
    probe: String,
    hops: usize,
) -> (r: Resolution)
    ensures
        confined_link(canonical_root@, resolved@, dir@, probe@, hops as int, r),
{
    if starts_with(probe.as_str(), canonical_root.as_str()) {
        let q = probe.clone();
        Resolution::Ask(
            SafePath::AwaitLinkCheck { canonical_root, resolved, dir, probe, hops },
            FsRequest::ReadLink(q),
        )
    } else {
        Resolution::Done(Err(PathError::EscapesRoot { path: probe }))
    }
}

fn confine(canonical_root: String, target: String) -> (r: Resolution)
    ensures
        confined(canonical_root@, target@, r),
{
    if starts_with(target.as_str(), canonical_root.as_str()) {
        Resolution::Done(Ok(target))
    } else {
        Resolution::Done(Err(PathError::EscapesRoot { path: target }))
    }
}

/// One decision of a path resolution: from stage `state` and the reply to its
/// question, the next question or the resolved path.
///
/// A resolved path always lies under the canonical sandbox root; a path to be
/// created is accepted only when every symbolic link it goes through, up to
/// [`MAX_LINK_HOPS`] of them, leads under that root. Once known, the canonical
/// root stays the same.
pub fn resolve_safe_path(state: SafePath, reply: FsReply) -> (r: Resolution)
    requires
        state.wf(),
        state.expects(reply),
    ensures
        resolution_step(state, reply, r),
        r matches Resolution::Ask(next, _) ==> next.wf(),
        r matches Resolution::Done(Ok(t)) ==> state.canonical_root() matches Some(cr)
            && path_starts_with(t@, cr) && resolved_confined(state, reply, t@),
        state.canonical_root() is Some ==> (r matches Resolution::Ask(next, _)
            ==> next.canonical_root() == state.canonical_root()),
{
    match state {
        SafePath::AwaitRoot { root, requested } => match reply {
            FsReply::Canonical(Err(d)) => Resolution::Done(
                Err(PathError::RootUnavailable { root, detail: d }),
            ),
            FsReply::Canonical(Ok(cr)) => {
                let joined = join_paths(cr.as_str(), requested.as_str());
                let q = joined.clone();
                Resolution::Ask(
                    SafePath::AwaitExists { canonical_root: cr, joined },
                    FsRequest::Exists(q),
                )
            },
            _ => Resolution::Done(Err(PathError::NoParent { path: root })),
        },
        SafePath::AwaitExists { canonical_root, joined } => match reply {
            FsReply::Exists(true) => {
                let q = joined.clone();
                Resolution::Ask(
                    SafePath::AwaitTarget { canonical_root, joined },
                    FsRequest::Canonicalize(q),
                )
            },
            FsReply::Exists(false) => match path_parent(joined.as_str()) {
                None => Resolution::Done(Err(PathError::NoParent { path: joined })),
                Some(p) => match path_file_name(joined.as_str()) {
                    None => Resolution::Done(Err(PathError::NoFileName { path: joined })),
                    Some(f) => {
                        let q = p.clone();
                        Resolution::Ask(
                            SafePath::AwaitParent { canonical_root, parent: p, file_name: f },
                            FsRequest::Canonicalize(q),
                        )
                    },
                },
            },
            _ => Resolution::Done(Err(PathError::NoParent { path: joined })),
        },
        SafePath::AwaitTarget { canonical_root, joined } => match reply {
            FsReply::Canonical(Err(d)) => Resolution::Done(
                Err(PathError::TargetUnavailable { target: joined, detail: d }),
            ),
            FsReply::Canonical(Ok(t)) => confine(canonical_root, t),
            _ => Resolution::Done(Err(PathError::NoParent { path: joined })),
        },
        SafePath::AwaitParent { canonical_root, parent, file_name } => match reply {
            FsReply::Canonical(Err(d)) => Resolution::Done(
                Err(PathError::ParentUnavailable { parent, detail: d }),
            ),
            FsReply::Canonical(Ok(cp)) => {
                let t = join_paths(cp.as_str(), file_name.as_str());
                let probe = t.clone();
                confine_link(canonical_root, t, cp, probe, 0)
            },
            _ => Resolution::Done(Err(PathError::NoParent { path: parent })),
        },
        SafePath::AwaitLinkCheck { canonical_root, resolved, dir, probe, hops } => match reply {
            FsReply::Link(Err(d)) => Resolution::Done(
                Err(PathError::LinkUnreadable { path: probe, detail: d }),
            ),
            FsReply::Link(Ok(None)) => Resolution::Done(Ok(resolved)),
            FsReply::Link(Ok(Some(l))) => {
                if hops >= MAX_LINK_HOPS {
                    return Resolution::Done(Err(PathError::TooManyLinks { path: resolved }));
                }
                let dest = join_paths(dir.as_str(), l.as_str());
                match path_parent(dest.as_str()) {
                    None => Resolution::Done(Err(PathError::NoParent { path: dest })),
                    Some(p) => match path_file_name(dest.as_str()) {
                        None => Resolution::Done(Err(PathError::NoFileName { path: dest })),
                        Some(f) => {
                            let q = p.clone();
                            Resolution::Ask(
                                SafePath::AwaitLinkParent {
                                    canonical_root,
                                    resolved,
                                    parent: p,
                                    file_name: f,
                                    hops: hops + 1,
                                },
                                FsRequest::Canonicalize(q),
                            )
                        },
                    },
                }
            },
            _ => Resolution::Done(Err(PathError::TooManyLinks { path: resolved })),
        },
        SafePath::AwaitLinkParent { canonical_root, resolved, parent, file_name, hops } => match reply {
            FsReply::Canonical(Err(d)) => Resolution::Done(
                Err(PathError::ParentUnavailable { parent, detail: d }),
            ),
            FsReply::Canonical(Ok(cp)) => {
                let probe = join_paths(cp.as_str(), file_name.as_str());
                confine_link(canonical_root, resolved, cp, probe, hops)
            },
            _ => Resolution::Done(Err(PathError::NoParent { path: parent })),
        },
    }
}

proof fn lemma_pieces_have_no_root(ps: Seq<Seq<char>>, i: int)
    requires
        0 <= i < parts_of_pieces(ps).len(),
    ensures
        !(parts_of_pieces(ps)[i] is Root),
    decreases ps.len(),
{
    if ps.len() > 0 {
        let r = parts_of_pieces(ps.drop_last());
        if i < r.len() {
            lemma_pieces_have_no_root(ps.drop_last(), i);
        }
    }
}

/// A path under an absolute path is itself absolute; so every path that
/// `resolve_safe_path` returns is absolute when the canonical root it was
/// confined to is.
pub proof fn lemma_under_absolute_is_absolute(t: Seq<char>, cr: Seq<char>)
    requires
        is_absolute(cr),
        path_starts_with(t, cr),
    ensures
        is_absolute(t),
{
    assert(components(cr)[0] == PartView::Root);
    assert(components(t).take(components(cr).len() as int)[0] == components(t)[0]);
    if !is_absolute(t) {
        assert(lead_parts(t).len() == 0 || lead_parts(t)[0] == PartView::Current);
        if lead_parts(t).len() == 0 {
            assert(components(t) =~= parts_of_pieces(split_slash(t)));
            lemma_pieces_have_no_root(split_slash(t), 0);
        }
    }
}

/// Resolving a resolved path gives it back, as long as the file system answers
/// as it did: the root canonicalizes to the same absolute path, and the
/// resolved path, which now exists, is its own canonical form.
pub proof fn lemma_resolving_resolved_path(
    root: String,
    t: String,
    cr: String,
    r1: Resolution,
    r2: Resolution,
    r3: Resolution,
)
    requires
        is_absolute(cr@),
        path_starts_with(t@, cr@),
        resolution_step(
            SafePath::AwaitRoot { root, requested: t },
            FsReply::Canonical(Ok(cr)),
            r1,
        ),
        r1 matches Resolution::Ask(s1, _) && resolution_step(s1, FsReply::Exists(true), r2),
        r2 matches Resolution::Ask(s2, _) && resolution_step(s2, FsReply::Canonical(Ok(t)), r3),
    ensures
        r1 matches Resolution::Ask(_, FsRequest::Exists(q)) && q@ == t@,
        r2 matches Resolution::Ask(_, FsRequest::Canonicalize(q)) && q@ == t@,
        r3 matches Resolution::Done(Ok(p)) && p@ == t@,
{
    lemma_under_absolute_is_absolute(t@, cr@);
    assert(join(cr@, t@) == t@);
}

/// Resolving a resolved path to be created takes it through its parent again
/// and reaches the link check the first resolution made, with the same texts;
/// from there on the same answers give the same result, the path itself when
/// it is no link. This holds as long as the file system answers as it did: the
/// root canonicalizes to the same absolute path, the path still does not
/// exist, and its directory is its own canonical form.
pub proof fn lemma_resolving_resolved_new_path(
    root: String,
    cr: String,
    j: String,
    cp: String,
    t: String,
    ra: Resolution,
    rb: Resolution,
    r1: Resolution,
    r2: Resolution,
    r3: Resolution,
)
    requires
        is_absolute(cr@),
        is_normal_absolute(cp@),
        resolution_step(
            SafePath::AwaitExists { canonical_root: cr, joined: j },
            FsReply::Exists(false),
            ra,
        ),
        ra matches Resolution::Ask(sp, _) && resolution_step(sp, FsReply::Canonical(Ok(cp)), rb),
        rb matches Resolution::Ask(SafePath::AwaitLinkCheck { resolved, .. }, _) && resolved@
            == t@,
        resolution_step(
            SafePath::AwaitRoot { root, requested: t },
            FsReply::Canonical(Ok(cr)),
            r1,
        ),
        r1 matches Resolution::Ask(s1, _) && resolution_step(s1, FsReply::Exists(false), r2),
        r2 matches Resolution::Ask(s2, _) && resolution_step(s2, FsReply::Canonical(Ok(cp)), r3),
    ensures
        r1 matches Resolution::Ask(_, FsRequest::Exists(q)) && q@ == t@,
        r2 matches Resolution::Ask(_, FsRequest::Canonicalize(q)) && q@ == cp@,
        r3 matches Resolution::Ask(
            SafePath::AwaitLinkCheck { canonical_root: c, resolved, dir, probe, hops },
            FsRequest::ReadLink(q),
        ) && c@ == cr@ && resolved@ == t@ && dir@ == cp@ && probe@ == t@ && hops == 0 && q@
            == t@,
        rb matches Resolution::Ask(
            SafePath::AwaitLinkCheck { canonical_root: c, resolved, dir, probe, hops },
            FsRequest::ReadLink(q),
        ) && c@ == cr@ && resolved@ == t@ && dir@ == cp@ && probe@ == t@ && hops == 0 && q@
            == t@,
        forall|r4: Resolution|
            #![trigger resolution_step(r3->Ask_0, FsReply::Link(Ok(None)), r4)]
            resolution_step(r3->Ask_0, FsReply::Link(Ok(None)), r4) ==> (r4 matches Resolution::Done(
                Ok(p),
            ) && p@ == t@),
{
    lemma_file_name_is_a_name(j@);
    let f = file_name(j@)->Some_0;
    assert(t@ == join(cp@, f));
    assert(path_starts_with(t@, cr@));
    lemma_under_absolute_is_absolute(t@, cr@);
    assert(join(cr@, t@) == t@);
    lemma_join_name(cp@, f);
}

/// A new file is resolved through its parent, whatever its name: when the
/// joined path does not exist and has a parent and a file name, the parent's
/// canonical form is asked for next; when that, joined with the file name, lies
/// under the canonical root, whether it is a link is asked next; and when it is
/// no link, the resolution ends with exactly that path. Otherwise a missing
/// path is refused only for a missing parent or file name.
pub proof fn lemma_new_file_resolves_through_parent(
    cr: String,
    j: String,
    cp: String,
    r1: Resolution,
)
    requires
        resolution_step(
            SafePath::AwaitExists { canonical_root: cr, joined: j },
            FsReply::Exists(false),
            r1,
        ),
    ensures
        r1 matches Resolution::Done(Err(e)) ==> (e matches PathError::NoParent { path } && path@
            == j@ && parent(j@) is None) || (e matches PathError::NoFileName { path } && path@
            == j@ && file_name(j@) is None),
        !(r1 matches Resolution::Done(Ok(_))),
        parent(j@) matches Some(p) ==> (file_name(j@) matches Some(f) ==> {
            &&& r1 matches Resolution::Ask(
                SafePath::AwaitParent { canonical_root: c, parent: pp, file_name: ff },
                FsRequest::Canonicalize(q),
            ) && c@ == cr@ && pp@ == p && ff@ == f && q@ == p
            &&& path_starts_with(join(cp@, f), cr@) ==> forall|r2: Resolution|
                #[trigger] resolution_step(r1->Ask_0, FsReply::Canonical(Ok(cp)), r2) ==> {
                    &&& r2 matches Resolution::Ask(s2, FsRequest::ReadLink(q2)) && q2@ == join(
                        cp@,
                        f,
                    )
                    &&& forall|r3: Resolution|
                        #[trigger] resolution_step(r2->Ask_0, FsReply::Link(Ok(None)), r3) ==> (
                        r3 matches Resolution::Done(Ok(t)) && t@ == join(cp@, f))
                }
        }),
{
}

} // verus!
