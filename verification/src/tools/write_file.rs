//! The `write` tool: creates or replaces a file inside the sandbox.
use vstd::prelude::*;
use crate::fs::{touched_path, FsReply, FsRequest};
use crate::path::path_starts_with;
use crate::sandbox::{resolution_step, resolve_safe_path, Resolution, SafePath};
use crate::text::{byte_len, decimal, fits, push_decimal, text_len};
use crate::tools::error::{ToolError, MAX_WRITE_SIZE};
use crate::tools::ToolStep;

verus! {

/// The tool that writes files under `root`.
pub struct WriteFile {
    root: String,
}

/// The arguments of a write.
pub struct WriteFileArgs {
    pub path: String,
    pub contents: String,
}

/// The stage a write has reached.
pub enum WriteRun {
    /// Confining the requested path to the sandbox.
    Resolving { resolver: SafePath, args: WriteFileArgs },
    /// Waiting for the contents to be written to `resolved`.
    Writing { sandbox: Ghost<Seq<char>>, resolved: String, path: String, len: usize },
}

/// The report of a successful write of `len` bytes to `path`.
pub open spec fn write_report(len: nat, path: Seq<char>) -> Seq<char> {
    "Wrote "@ + decimal(len) + " bytes to "@ + path
}

impl WriteRun {
    /// The invariant of a write: the contents have a `usize` length, and once
    /// resolved, the file lies under the canonical sandbox root.
    pub open spec fn wf(&self) -> bool {
        match self {
            WriteRun::Resolving { resolver, args } => resolver.wf() && fits(args.contents@),
            WriteRun::Writing { sandbox, resolved, .. } => path_starts_with(resolved@, sandbox@),
        }
    }

    /// The canonical sandbox root, once it is known.
    pub open spec fn sandbox(&self) -> Option<Seq<char>> {
        match self {
            WriteRun::Resolving { resolver, .. } => resolver.canonical_root(),
            WriteRun::Writing { sandbox, .. } => Some(sandbox@),
        }
    }

    /// Whether `reply` answers the request this stage waits on.
    pub open spec fn expects(&self, reply: FsReply) -> bool {
        match self {
            WriteRun::Resolving { resolver, .. } => resolver.expects(reply),
            WriteRun::Writing { .. } => reply is Written,
        }
    }
}

/// How a write goes on from a step of its path resolution.
pub open spec fn write_after_resolution(res: Resolution, args: WriteFileArgs, r: ToolStep<WriteRun>) -> bool {
    match res {
        Resolution::Ask(s, q) => r == ToolStep::Ask(WriteRun::Resolving { resolver: s, args }, q),
        Resolution::Done(Err(e)) => r == ToolStep::<WriteRun>::Finish(Err(ToolError::Path(e))),
        Resolution::Done(Ok(p)) => r matches ToolStep::Ask(
            WriteRun::Writing { resolved, path, len, .. },
            FsRequest::Write { path: q, contents },
        ) && resolved@ == p@ && path == args.path && len == byte_len(args.contents@) && q == p
            && contents == args.contents,
    }
}

/// The step a write takes from stage `run` on reply `reply`.
pub open spec fn write_step(run: WriteRun, reply: FsReply, r: ToolStep<WriteRun>) -> bool {
    match run {
        WriteRun::Resolving { resolver, args } => exists|res: Resolution|
            resolution_step(resolver, reply, res) && write_after_resolution(res, args, r),
        WriteRun::Writing { resolved, path, len, .. } => match reply {
            FsReply::Written(Err(d)) => r == ToolStep::<WriteRun>::Finish(
                Err(ToolError::WriteFailed { path: resolved, detail: d }),
            ),
            FsReply::Written(Ok(_)) => r matches ToolStep::Finish(Ok(s)) && s@ == write_report(
                len as nat,
                path@,
            ),
            _ => false,
        },
    }
}

impl WriteFile {
    pub fn new(root: String) -> (r: Self)
        ensures
            r.root() == root@,
    {
        WriteFile { root }
    }

    /// The sandbox root the tool writes under.
    pub closed spec fn root(&self) -> Seq<char> {
        self.root@
    }

    pub fn name(&self) -> (r: &'static str)
        ensures
            r@ == "write"@,
    {
        "write"
    }

    pub fn description(&self) -> (r: &'static str)
        ensures
            r@ == "Writes content to a file in the project directory. Creates the file if it does not exist, overwrites if it does. Use for creating new files or fully replacing existing ones. For partial edits, use `edit`."@,
    {
        "Writes content to a file in the project directory. Creates the file if it does not exist, overwrites if it does. Use for creating new files or fully replacing existing ones. For partial edits, use `edit`."
    }

    /// Starts a write: contents over the size limit are refused; otherwise the
    /// requested path is first confined to the sandbox.
    pub fn start(&self, args: WriteFileArgs) -> (r: ToolStep<WriteRun>)
        requires
            fits(args.contents@),
        ensures
            byte_len(args.contents@) > MAX_WRITE_SIZE ==> (r matches ToolStep::Finish(
                Err(ToolError::ContentsTooLarge { len }),
            ) && len == byte_len(args.contents@)),
            byte_len(args.contents@) <= MAX_WRITE_SIZE ==> (r matches ToolStep::Ask(run, q)
                && run.wf() && (run matches WriteRun::Resolving {
                resolver: SafePath::AwaitRoot { root, requested },
                args: a,
            } && a == args && root@ == self.root() && requested@ == args.path@) && (q matches FsRequest::Canonicalize(c) && c@ == self.root())),
    {
        let len = text_len(args.contents.as_str());
        if len > MAX_WRITE_SIZE {
            return ToolStep::Finish(Err(ToolError::ContentsTooLarge { len }));
        }
        let (resolver, q) = SafePath::start(self.root.as_str(), args.path.as_str());
        ToolStep::Ask(WriteRun::Resolving { resolver, args }, q)
    }

    /// One decision of a write, from its stage and the reply to its last request.
    ///
    /// Once the requested path is resolved, the sandbox root stays fixed, and
    /// the file written lies under it.
    pub fn step(run: WriteRun, reply: FsReply) -> (r: ToolStep<WriteRun>)
        requires
            run.wf(),
            run.expects(reply),
        ensures
            write_step(run, reply, r),
            r matches ToolStep::Ask(next, _) ==> next.wf(),
            r matches ToolStep::Ask(next, q) ==> (touched_path(q) matches Some(p) ==> (
            next.sandbox() matches Some(s) && path_starts_with(p, s))),
            run.sandbox() is Some ==> (r matches ToolStep::Ask(next, _) ==> next.sandbox()
                == run.sandbox()),
            run matches WriteRun::Resolving { resolver, .. } ==> (r matches ToolStep::Ask(
                WriteRun::Writing { sandbox, .. },
                _,
            ) ==> resolver.canonical_root() == Some(sandbox@)),
    {
        match run {
            WriteRun::Resolving { resolver, args } => {
                let ghost cr = resolver.canonical_root();
                let ghost old_resolver = resolver;
                let ghost old_args = args;
                let res = resolve_safe_path(resolver, reply);
                let ghost res_copy = res;
                let r = match res {
                    Resolution::Ask(s, q) => ToolStep::Ask(WriteRun::Resolving { resolver: s, args }, q),
                    Resolution::Done(Err(e)) => ToolStep::Finish(Err(ToolError::Path(e))),
                    Resolution::Done(Ok(p)) => {
                        let len = text_len(args.contents.as_str());
                        let resolved = p.clone();
                        ToolStep::Ask(
                            WriteRun::Writing { sandbox: Ghost(cr.unwrap()), resolved, path: args.path, len },
                            FsRequest::Write { path: p, contents: args.contents },
                        )
                    },
                };
                assert(resolution_step(old_resolver, reply, res_copy) && write_after_resolution(res_copy, old_args, r));
                r
            },
            WriteRun::Writing { resolved, path, len, .. } => match reply {
                FsReply::Written(Err(d)) => ToolStep::Finish(
                    Err(ToolError::WriteFailed { path: resolved, detail: d }),
                ),
                FsReply::Written(Ok(_)) => {
                    let mut s = String::new();
                    s.push_str("Wrote ");
                    push_decimal(&mut s, len as u64);
                    s.push_str(" bytes to ");
                    s.push_str(path.as_str());
                    ToolStep::Finish(Ok(s))
                },
                _ => ToolStep::Finish(Err(ToolError::WriteFailed { path: resolved, detail: path })),
            },
        }
    }
}

/// `rs` are the stages of a write, `qs` the requests each stage waits on and
/// `replies` the answers to them; the write starts, its contents within the
/// size limit, by confining the path with arguments `args`, and the last reply
/// ends it with `end`.
pub open spec fn is_write_run(
    args: WriteFileArgs,
    rs: Seq<WriteRun>,
    qs: Seq<FsRequest>,
    replies: Seq<FsReply>,
    end: Result<String, ToolError>,
) -> bool {
    &&& rs.len() >= 1
    &&& qs.len() == rs.len()
    &&& replies.len() == rs.len()
    &&& rs[0] matches WriteRun::Resolving { args: a, .. } && a == args
    &&& qs[0] is Canonicalize
    &&& byte_len(args.contents@) <= MAX_WRITE_SIZE
    &&& forall|i: int| 0 <= i < rs.len() ==> (#[trigger] rs[i]).wf() && rs[i].expects(replies[i])
    &&& forall|i: int|
        0 <= i < rs.len() - 1 ==> write_step(
            #[trigger] rs[i],
            replies[i],
            ToolStep::Ask(rs[i + 1], qs[i + 1]),
        )
    &&& write_step(rs.last(), replies.last(), ToolStep::Finish(end))
}

/// Stage `run` is resolving the path, and on `reply` the resolution ended with
/// the path that write request `q` names.
pub open spec fn resolved_to_write(run: WriteRun, reply: FsReply, q: FsRequest) -> bool {
    run matches WriteRun::Resolving { resolver, .. } && exists|res: Resolution|
        #[trigger] resolution_step(resolver, reply, res) && (res matches Resolution::Done(Ok(p))
            && (q matches FsRequest::Write { path, .. } && path@ == p@))
}

/// Up to stage `i`, a write keeps its arguments while it resolves the path,
/// and a write request carries the arguments' contents.
proof fn lemma_write_run_keeps_args(
    args: WriteFileArgs,
    rs: Seq<WriteRun>,
    qs: Seq<FsRequest>,
    replies: Seq<FsReply>,
    end: Result<String, ToolError>,
    i: int,
)
    requires
        is_write_run(args, rs, qs, replies, end),
        0 <= i < rs.len(),
    ensures
        rs[i] matches WriteRun::Resolving { args: a, .. } ==> a == args,
        rs[i] matches WriteRun::Writing { resolved, path, len, .. } ==> path == args.path && len
            == byte_len(args.contents@) && i > 0 && (qs[i] matches FsRequest::Write {
            path: q,
            contents,
        } && q@ == resolved@ && contents == args.contents),
        rs[i] is Writing ==> i > 0 && resolved_to_write(rs[i - 1], replies[i - 1], qs[i]),
    decreases i,
{
    if i > 0 {
        lemma_write_run_keeps_args(args, rs, qs, replies, end, i - 1);
        assert(write_step(rs[i - 1], replies[i - 1], ToolStep::Ask(rs[i], qs[i])));
        assert(rs[i - 1].wf() && rs[i - 1].expects(replies[i - 1]));
        if let WriteRun::Resolving { resolver, args: a } = rs[i - 1] {
            let res = choose|res: Resolution|
                resolution_step(resolver, replies[i - 1], res) && write_after_resolution(
                    res,
                    a,
                    ToolStep::Ask(rs[i], qs[i]),
                );
            assert(write_after_resolution(res, a, ToolStep::Ask(rs[i], qs[i])));
            assert(resolution_step(resolver, replies[i - 1], res));
        }
    }
}

/// A write that succeeds asks for a single write, at its end, of the requested
/// contents, and reports the requested path and the contents' size.
proof fn lemma_successful_write_run(
    args: WriteFileArgs,
    rs: Seq<WriteRun>,
    qs: Seq<FsRequest>,
    replies: Seq<FsReply>,
    end: Result<String, ToolError>,
)
    requires
        is_write_run(args, rs, qs, replies, end),
        end is Ok,
    ensures
        end matches Ok(s) && s@ == write_report(byte_len(args.contents@), args.path@),
        qs.last() matches FsRequest::Write { contents, .. } && contents == args.contents,
        forall|i: int| 0 <= i < qs.len() - 1 ==> !((#[trigger] qs[i]) is Write),
        rs.len() >= 2 && resolved_to_write(rs[rs.len() - 2], replies[rs.len() - 2], qs.last()),
{
    let n = rs.len() - 1;
    lemma_write_run_keeps_args(args, rs, qs, replies, end, n);
    assert(rs[n].wf() && rs[n].expects(replies[n]));
    if let WriteRun::Resolving { resolver, args: a } = rs[n] {
        let res = choose|res: Resolution|
            resolution_step(resolver, replies[n], res) && write_after_resolution(
                res,
                a,
                ToolStep::Finish(end),
            );
        assert(write_after_resolution(res, a, ToolStep::Finish(end)));
    }
    assert forall|i: int| 0 <= i < qs.len() - 1 implies !((#[trigger] qs[i]) is Write) by {
        if qs[i] is Write && i > 0 {
            lemma_write_run_keeps_args(args, rs, qs, replies, end, i - 1);
            assert(write_step(rs[i - 1], replies[i - 1], ToolStep::Ask(rs[i], qs[i])));
            if let WriteRun::Resolving { resolver, args: a } = rs[i - 1] {
                let res = choose|res: Resolution|
                    resolution_step(resolver, replies[i - 1], res) && write_after_resolution(
                        res,
                        a,
                        ToolStep::Ask(rs[i], qs[i]),
                    );
                assert(resolution_step(resolver, replies[i - 1], res));
            }
            assert(rs[i] is Writing);
            assert(rs[i].wf() && rs[i].expects(replies[i]));
            assert(write_step(rs[i], replies[i], ToolStep::Ask(rs[i + 1], qs[i + 1])));
        }
    }
}

/// Two successful writes with the same arguments write the same contents, in
/// one request each at their end, each to the path its resolution returned,
/// and report the same text. The second resolution returns the path of the
/// first while the file system answers alike (`lemma_resolving_resolved_path`),
/// so writing twice has the effect of writing once.
pub proof fn lemma_write_is_repeatable(
    args: WriteFileArgs,
    rs: Seq<WriteRun>,
    qs: Seq<FsRequest>,
    replies: Seq<FsReply>,
    end: Result<String, ToolError>,
    rs2: Seq<WriteRun>,
    qs2: Seq<FsRequest>,
    replies2: Seq<FsReply>,
    end2: Result<String, ToolError>,
)
    requires
        is_write_run(args, rs, qs, replies, end),
        is_write_run(args, rs2, qs2, replies2, end2),
        end is Ok,
        end2 is Ok,
    ensures
        end matches Ok(s) && end2 matches Ok(s2) && s@ == s2@ && s@ == write_report(
            byte_len(args.contents@),
            args.path@,
        ),
        qs.last() matches FsRequest::Write { contents, .. } && contents == args.contents,
        qs2.last() matches FsRequest::Write { contents, .. } && contents == args.contents,
        forall|i: int| 0 <= i < qs.len() - 1 ==> !((#[trigger] qs[i]) is Write),
        forall|i: int| 0 <= i < qs2.len() - 1 ==> !((#[trigger] qs2[i]) is Write),
        rs.len() >= 2 && resolved_to_write(rs[rs.len() - 2], replies[rs.len() - 2], qs.last()),
        rs2.len() >= 2 && resolved_to_write(rs2[rs2.len() - 2], replies2[rs2.len() - 2], qs2.last()),
{
    lemma_successful_write_run(args, rs, qs, replies, end);
    lemma_successful_write_run(args, rs2, qs2, replies2, end2);
}

} // verus!
