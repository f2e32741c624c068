//! The `edit` tool: replaces text that occurs exactly once in a file inside
//! the sandbox.
use vstd::prelude::*;
use vstd::utf8::encode_utf8;
use crate::fs::{touched_path, FsReply, FsRequest};
use crate::path::path_starts_with;
use crate::replace::{
    count_matches, lemma_replace_first_byte_len, plan_edit, replace_first, MatchError,
};
use crate::sandbox::{resolution_step, resolve_safe_path, Resolution, SafePath};
use crate::text::{byte_len, decimal, fits, push_decimal, text_len};
use crate::tools::error::ToolError;
use crate::tools::ToolStep;

verus! {

/// The tool that edits files under `root`.
pub struct EditFile {
    root: String,
}

/// The arguments of an edit.
pub struct EditFileArgs {
    pub path: String,
    pub old_str: String,
    pub new_str: String,
}

/// The stage an edit has reached.
pub enum EditRun {
    /// Confining the requested path to the sandbox.
    Resolving { resolver: SafePath, args: EditFileArgs },
    /// Waiting for the metadata of the resolved file.
    Stat { sandbox: Ghost<Seq<char>>, resolved: String, args: EditFileArgs },
    /// Waiting for the contents of the resolved file.
    Read { sandbox: Ghost<Seq<char>>, resolved: String, args: EditFileArgs },
    /// Waiting for the edited contents to be written.
    Write { sandbox: Ghost<Seq<char>>, target: Ghost<Seq<char>>, args: EditFileArgs },
}

/// A signed byte count, as `{:+}` renders it: `+` before zero and positive
/// counts, `-` before negative ones.
pub open spec fn signed_decimal(d: int) -> Seq<char> {
    if d >= 0 {
        "+"@ + decimal(d as nat)
    } else {
        "-"@ + decimal((-d) as nat)
    }
}

/// The report of a successful edit; by `lemma_replace_first_byte_len`, the
/// delta is also how much the file grew.
pub open spec fn edit_report(path: Seq<char>, old_str: Seq<char>, new_str: Seq<char>) -> Seq<
    char,
> {
    "Edited "@ + path + ". Replaced "@ + decimal(byte_len(old_str)) + " bytes with "@ + decimal(
        byte_len(new_str),
    ) + " bytes (delta: "@ + signed_decimal(byte_len(new_str) - byte_len(old_str)) + ")."@
}

impl EditRun {
    pub open spec fn args(&self) -> EditFileArgs {
        match self {
            EditRun::Resolving { args, .. } => *args,
            EditRun::Stat { args, .. } => *args,
            EditRun::Read { args, .. } => *args,
            EditRun::Write { args, .. } => *args,
        }
    }

    /// The invariant of an edit: the argument texts have `usize` lengths, and
    /// once resolved, the file lies under the canonical sandbox root.
    pub open spec fn wf(&self) -> bool {
        &&& fits(self.args().old_str@)
        &&& fits(self.args().new_str@)
        &&& match self {
            EditRun::Resolving { resolver, .. } => resolver.wf(),
            EditRun::Stat { sandbox, resolved, .. } => path_starts_with(resolved@, sandbox@),
            EditRun::Read { sandbox, resolved, .. } => path_starts_with(resolved@, sandbox@),
            EditRun::Write { sandbox, target, .. } => path_starts_with(target@, sandbox@),
        }
    }

    /// Whether `reply` answers the request this stage waits on.
    pub open spec fn expects(&self, reply: FsReply) -> bool {
        match self {
            EditRun::Resolving { resolver, .. } => resolver.expects(reply),
            EditRun::Stat { .. } => reply is Metadata,
            EditRun::Read { .. } => reply matches FsReply::Text(t) && (t matches Ok(c) ==> c@.len()
                < usize::MAX),
            EditRun::Write { .. } => reply is Written,
        }
    }

    /// The canonical sandbox root, once it is known.
    pub open spec fn sandbox(&self) -> Option<Seq<char>> {
        match self {
            EditRun::Resolving { resolver, .. } => resolver.canonical_root(),
            EditRun::Stat { sandbox, .. } => Some(sandbox@),
            EditRun::Read { sandbox, .. } => Some(sandbox@),
            EditRun::Write { sandbox, .. } => Some(sandbox@),
        }
    }
}

/// How an edit goes on from a step of its path resolution.
pub open spec fn edit_after_resolution(res: Resolution, args: EditFileArgs, r: ToolStep<EditRun>) -> bool {
    match res {
        Resolution::Ask(s, q) => r == ToolStep::Ask(EditRun::Resolving { resolver: s, args }, q),
        Resolution::Done(Err(e)) => r == ToolStep::<EditRun>::Finish(Err(ToolError::Path(e))),
        Resolution::Done(Ok(p)) => r matches ToolStep::Ask(
            EditRun::Stat { resolved, args: a, .. },
            FsRequest::Metadata(q),
        ) && resolved == p && a == args && q@ == p@,
    }
}

/// The step an edit takes from stage `run` on reply `reply`.
pub open spec fn edit_step(run: EditRun, reply: FsReply, r: ToolStep<EditRun>) -> bool {
    match run {
        EditRun::Resolving { resolver, args } => exists|res: Resolution|
            resolution_step(resolver, reply, res) && edit_after_resolution(res, args, r),
        EditRun::Stat { resolved, args, .. } => match reply {
            FsReply::Metadata(Err(d)) => r == ToolStep::<EditRun>::Finish(
                Err(ToolError::StatFailed { path: resolved, detail: d }),
            ),
            FsReply::Metadata(Ok(m)) => if !m.is_file {
                r == ToolStep::<EditRun>::Finish(Err(ToolError::NotARegularFile { path: resolved }))
            } else {
                r matches ToolStep::Ask(EditRun::Read { resolved: p, args: a, .. }, FsRequest::ReadToString(q))
                    && p == resolved && a == args && q@ == resolved@
            },
            _ => false,
        },
        EditRun::Read { resolved, args, .. } => match reply {
            FsReply::Text(Err(d)) => r == ToolStep::<EditRun>::Finish(
                Err(ToolError::ReadFailed { path: resolved, detail: d }),
            ),
            FsReply::Text(Ok(c)) => {
                let n = count_matches(c@, args.old_str@);
                if n == 0 {
                    r == ToolStep::<EditRun>::Finish(Err(ToolError::NoMatch { path: args.path }))
                } else if n > 1 {
                    r matches ToolStep::Finish(Err(ToolError::AmbiguousMatch { path, count }))
                        && path == args.path && count == n
                } else {
                    r matches ToolStep::Ask(
                        EditRun::Write { target: w, args: a, .. },
                        FsRequest::Write { path, contents },
                    ) && w@ == resolved@ && a == args && path@ == resolved@ && contents@
                        == replace_first(c@, args.old_str@, args.new_str@)
                }
            },
            _ => false,
        },
        EditRun::Write { args, .. } => match reply {
            FsReply::Written(Err(d)) => r == ToolStep::<EditRun>::Finish(
                Err(ToolError::WriteFailed { path: args.path, detail: d }),
            ),
            FsReply::Written(Ok(_)) => r matches ToolStep::Finish(Ok(s)) && s@ == edit_report(
                args.path@,
                args.old_str@,
                args.new_str@,
            ),
            _ => false,
        },
    }
}

impl EditFile {
    pub fn new(root: String) -> (r: Self)
        ensures
            r.root() == root@,
    {
        EditFile { root }
    }

    /// The sandbox root the tool edits under.
    pub closed spec fn root(&self) -> Seq<char> {
        self.root@
    }

    pub fn name(&self) -> (r: &'static str)
        ensures
            r@ == "edit"@,
    {
        "edit"
    }

    pub fn description(&self) -> (r: &'static str)
        ensures
            r@ == "Edits an existing file by replacing exact text. **This is the preferred tool for any change to an existing file**, including small fixes, additions, removals, and refactors. Provide `old_str` (existing text) and `new_str` (replacement). The `old_str` must match exactly once include 3-5 lines of surrounding context. Use multiple edit calls for multiple changes; do not use write to combine them."@,
    {
        "Edits an existing file by replacing exact text. **This is the preferred tool for any change to an existing file**, including small fixes, additions, removals, and refactors. Provide `old_str` (existing text) and `new_str` (replacement). The `old_str` must match exactly once include 3-5 lines of surrounding context. Use multiple edit calls for multiple changes; do not use write to combine them."
    }

    /// Starts an edit: the requested path is first confined to the sandbox.
    pub fn start(&self, args: EditFileArgs) -> (r: ToolStep<EditRun>)
        requires
            fits(args.old_str@),
            fits(args.new_str@),
        ensures
            r matches ToolStep::Ask(run, q) && run.wf() && (run matches EditRun::Resolving {
                resolver: SafePath::AwaitRoot { root, requested },
                args: a,
            } && a == args && root@ == self.root() && requested@ == args.path@) && (q matches FsRequest::Canonicalize(c) && c@ == self.root()),
    {
        let (resolver, q) = SafePath::start(self.root.as_str(), args.path.as_str());
        ToolStep::Ask(EditRun::Resolving { resolver, args }, q)
    }

    /// One decision of an edit, from its stage and the reply to its last request.
    ///
    /// Once the requested path is resolved, the sandbox root stays fixed, and
    /// every file the edit stats, reads or writes lies under it.
    pub fn step(run: EditRun, reply: FsReply) -> (r: ToolStep<EditRun>)
        requires
            run.wf(),
            run.expects(reply),
        ensures
            edit_step(run, reply, r),
            r matches ToolStep::Ask(next, _) ==> next.wf(),
            r matches ToolStep::Ask(next, q) ==> (touched_path(q) matches Some(p) ==> (
            next.sandbox() matches Some(s) && path_starts_with(p, s))),
            run.sandbox() is Some ==> (r matches ToolStep::Ask(next, _) ==> next.sandbox()
                == run.sandbox()),
            run matches EditRun::Resolving { resolver, .. } ==> (r matches ToolStep::Ask(
                EditRun::Stat { sandbox, .. },
                _,
            ) ==> resolver.canonical_root() == Some(sandbox@)),
    {
        match run {
            EditRun::Resolving { resolver, args } => {
                let ghost cr = resolver.canonical_root();
                let ghost old_resolver = resolver;
                let ghost old_reply = reply;
                let res = resolve_safe_path(resolver, reply);
                let ghost res_copy = res;
                let r = match res {
                    Resolution::Ask(s, q) => ToolStep::Ask(EditRun::Resolving { resolver: s, args }, q),
                    Resolution::Done(Err(e)) => ToolStep::Finish(Err(ToolError::Path(e))),
                    Resolution::Done(Ok(p)) => {
                        let q = p.clone();
                        ToolStep::Ask(
                            EditRun::Stat { sandbox: Ghost(cr.unwrap()), resolved: p, args },
                            FsRequest::Metadata(q),
                        )
                    },
                };
                assert(resolution_step(old_resolver, old_reply, res_copy) && edit_after_resolution(res_copy, args, r));
                r
            },
            EditRun::Stat { sandbox, resolved, args } => match reply {
                FsReply::Metadata(Err(d)) => ToolStep::Finish(
                    Err(ToolError::StatFailed { path: resolved, detail: d }),
                ),
                FsReply::Metadata(Ok(m)) => {
                    if !m.is_file {
                        ToolStep::Finish(Err(ToolError::NotARegularFile { path: resolved }))
                    } else {
                        let q = resolved.clone();
                        ToolStep::Ask(EditRun::Read { sandbox, resolved, args }, FsRequest::ReadToString(q))
                    }
                },
                _ => ToolStep::Finish(Err(ToolError::NoMatch { path: args.path })),
            },
            EditRun::Read { sandbox, resolved, args } => match reply {
                FsReply::Text(Err(d)) => ToolStep::Finish(
                    Err(ToolError::ReadFailed { path: resolved, detail: d }),
                ),
                FsReply::Text(Ok(c)) => {
                    match plan_edit(c.as_str(), args.old_str.as_str(), args.new_str.as_str()) {
                        Err(MatchError::NotFound) => ToolStep::Finish(
                            Err(ToolError::NoMatch { path: args.path }),
                        ),
                        Err(MatchError::Ambiguous { count }) => ToolStep::Finish(
                            Err(ToolError::AmbiguousMatch { path: args.path, count }),
                        ),
                        Ok(contents) => ToolStep::Ask(
                            EditRun::Write { sandbox, target: Ghost(resolved@), args },
                            FsRequest::Write { path: resolved, contents },
                        ),
                    }
                },
                _ => ToolStep::Finish(Err(ToolError::NoMatch { path: args.path })),
            },
            EditRun::Write { args, .. } => match reply {
                FsReply::Written(Err(d)) => ToolStep::Finish(
                    Err(ToolError::WriteFailed { path: args.path, detail: d }),
                ),
                FsReply::Written(Ok(_)) => {
                    let old_len = text_len(args.old_str.as_str());
                    let new_len = text_len(args.new_str.as_str());
                    let mut s = String::new();
                    s.push_str("Edited ");
                    s.push_str(args.path.as_str());
                    s.push_str(". Replaced ");
                    push_decimal(&mut s, old_len as u64);
                    s.push_str(" bytes with ");
                    push_decimal(&mut s, new_len as u64);
                    s.push_str(" bytes (delta: ");
                    if new_len >= old_len {
                        s.push_str("+");
                        push_decimal(&mut s, (new_len - old_len) as u64);
                    } else {
                        s.push_str("-");
                        push_decimal(&mut s, (old_len - new_len) as u64);
                    }
                    s.push_str(").");
                    proof {
                        let d = byte_len(args.new_str@) - byte_len(args.old_str@);
                        if new_len >= old_len {
                            assert(((new_len - old_len) as u64) as nat == d as nat);
                        } else {
                            assert(((old_len - new_len) as u64) as nat == (-d) as nat);
                        }
                        assert(s@ =~= edit_report(args.path@, args.old_str@, args.new_str@));
                    }
                    ToolStep::Finish(Ok(s))
                },
                _ => ToolStep::Finish(Err(ToolError::NoMatch { path: args.path })),
            },
        }
    }
}

/// `rs` are the stages of an edit, `qs` the requests each stage waits on and
/// `replies` the answers to them; the edit starts by asking for the canonical
/// root, and the last reply ends it with `end`.
pub open spec fn is_edit_run(
    rs: Seq<EditRun>,
    qs: Seq<FsRequest>,
    replies: Seq<FsReply>,
    end: Result<String, ToolError>,
) -> bool {
    &&& rs.len() >= 1
    &&& qs.len() == rs.len()
    &&& replies.len() == rs.len()
    &&& rs[0] is Resolving
    &&& qs[0] is Canonicalize
    &&& forall|i: int| 0 <= i < rs.len() ==> (#[trigger] rs[i]).wf() && rs[i].expects(replies[i])
    &&& forall|i: int|
        0 <= i < rs.len() - 1 ==> edit_step(
            #[trigger] rs[i],
            replies[i],
            ToolStep::Ask(rs[i + 1], qs[i + 1]),
        )
    &&& edit_step(rs.last(), replies.last(), ToolStep::Finish(end))
}

/// A step that asks for a write moves to the stage that waits on it.
proof fn lemma_write_asked_only_into_write_stage(
    run: EditRun,
    reply: FsReply,
    next: EditRun,
    q: FsRequest,
)
    requires
        edit_step(run, reply, ToolStep::Ask(next, q)),
        q is Write,
    ensures
        next is Write,
{
    if let EditRun::Resolving { resolver, args } = run {
        let res = choose|res: Resolution|
            resolution_step(resolver, reply, res) && edit_after_resolution(
                res,
                args,
                ToolStep::Ask(next, q),
            );
        assert(resolution_step(resolver, reply, res));
    }
}

/// An edit writes at most once, as its last request, once the file has been
/// read and the text found exactly once; so an edit that fails for any reason
/// but the write itself has asked for no write at all.
pub proof fn lemma_failed_edit_writes_nothing(
    rs: Seq<EditRun>,
    qs: Seq<FsRequest>,
    replies: Seq<FsReply>,
    end: Result<String, ToolError>,
)
    requires
        is_edit_run(rs, qs, replies, end),
    ensures
        forall|i: int| 0 <= i < qs.len() && (#[trigger] qs[i]) is Write ==> i == qs.len() - 1
            && rs[i] is Write,
        end matches Err(e) && !(e is WriteFailed) ==> forall|i: int|
            0 <= i < qs.len() ==> !((#[trigger] qs[i]) is Write),
{
    assert forall|i: int| 0 <= i < qs.len() && (#[trigger] qs[i]) is Write implies i == qs.len() - 1
        && rs[i] is Write by {
        assert(i > 0);
        assert(edit_step(rs[i - 1], replies[i - 1], ToolStep::Ask(rs[i], qs[i])));
        lemma_write_asked_only_into_write_stage(rs[i - 1], replies[i - 1], rs[i], qs[i]);
        if i < qs.len() - 1 {
            assert(edit_step(rs[i], replies[i], ToolStep::Ask(rs[i + 1], qs[i + 1])));
            assert(rs[i].expects(replies[i]));
        }
    }
    if end matches Err(e) && !(e is WriteFailed) {
        assert forall|i: int| 0 <= i < qs.len() implies !((#[trigger] qs[i]) is Write) by {
            if qs[i] is Write {
                assert(rs[i] is Write);
                assert(rs.last() == rs[i]);
                assert(rs.last().expects(replies.last()));
            }
        }
    }
}

/// An edit reports sizes in bytes: once the text read from the file holds the
/// old text exactly once and the edited text has been written, the report
/// gives the UTF-8 byte lengths of the old and new text, and a delta that is
/// exactly how many bytes the file grew (negative when it shrank).
pub proof fn lemma_edit_reports_byte_growth(
    sandbox: Ghost<Seq<char>>,
    resolved: String,
    args: EditFileArgs,
    c: String,
    r1: ToolStep<EditRun>,
)
    requires
        edit_step(EditRun::Read { sandbox, resolved, args }, FsReply::Text(Ok(c)), r1),
        count_matches(c@, args.old_str@) == 1,
    ensures
        r1 matches ToolStep::Ask(w, FsRequest::Write { path, contents }) && path@ == resolved@
            && forall|r2: ToolStep<EditRun>|
            #[trigger] edit_step(w, FsReply::Written(Ok(())), r2) ==> (r2 matches ToolStep::Finish(
                Ok(s),
            ) && s@ == "Edited "@ + args.path@ + ". Replaced "@ + decimal(
                encode_utf8(args.old_str@).len(),
            ) + " bytes with "@ + decimal(encode_utf8(args.new_str@).len()) + " bytes (delta: "@
                + signed_decimal(
                encode_utf8(contents@).len() - encode_utf8(c@).len(),
            ) + ")."@),
{
    lemma_replace_first_byte_len(c@, args.old_str@, args.new_str@);
}

} // verus!
