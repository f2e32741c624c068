//! The `read_file` tool: returns the text of a file inside the sandbox that is
//! not too large.
use vstd::prelude::*;
use crate::fs::{touched_path, FsReply, FsRequest};
use crate::path::path_starts_with;
use crate::sandbox::{resolution_step, resolve_safe_path, Resolution, SafePath};
use crate::tools::error::{ToolError, MAX_FILE_SIZE, MAX_WRITE_SIZE};
use crate::text::byte_len;
use crate::tools::write_file::{is_write_run, WriteFileArgs, WriteRun};
use crate::tools::ToolStep;

verus! {

/// The tool that reads files under `root`.
pub struct ReadFile {
    root: String,
}

/// The arguments of a read.
pub struct ReadFileArgs {
    pub path: String,
}

/// The stage a read has reached. `path` is the path as requested, which
/// error messages quote.
pub enum ReadRun {
    /// Confining the requested path to the sandbox.
    Resolving { resolver: SafePath, path: String },
    /// Waiting for the metadata of the resolved file.
    Stat { sandbox: Ghost<Seq<char>>, resolved: String, path: String },
    /// Waiting for the contents of the resolved file.
    Read { sandbox: Ghost<Seq<char>>, resolved: String, path: String },
}

impl ReadRun {
    /// The invariant of a read: once resolved, the file lies under the
    /// canonical sandbox root.
    pub open spec fn wf(&self) -> bool {
        match self {
            ReadRun::Resolving { resolver, .. } => resolver.wf(),
            ReadRun::Stat { sandbox, resolved, .. } => path_starts_with(resolved@, sandbox@),
            ReadRun::Read { sandbox, resolved, .. } => path_starts_with(resolved@, sandbox@),
        }
    }

    /// The canonical sandbox root, once it is known.
    pub open spec fn sandbox(&self) -> Option<Seq<char>> {
        match self {
            ReadRun::Resolving { resolver, .. } => resolver.canonical_root(),
            ReadRun::Stat { sandbox, .. } => Some(sandbox@),
            ReadRun::Read { sandbox, .. } => Some(sandbox@),
        }
    }

    /// Whether `reply` answers the request this stage waits on.
    pub open spec fn expects(&self, reply: FsReply) -> bool {
        match self {
            ReadRun::Resolving { resolver, .. } => resolver.expects(reply),
            ReadRun::Stat { .. } => reply is Metadata,
            ReadRun::Read { .. } => reply is Text,
        }
    }
}

/// How a read goes on from a step of its path resolution.
pub open spec fn read_after_resolution(res: Resolution, path: String, r: ToolStep<ReadRun>) -> bool {
    match res {
        Resolution::Ask(s, q) => r == ToolStep::Ask(ReadRun::Resolving { resolver: s, path }, q),
        Resolution::Done(Err(e)) => r == ToolStep::<ReadRun>::Finish(Err(ToolError::Path(e))),
        Resolution::Done(Ok(p)) => r matches ToolStep::Ask(
            ReadRun::Stat { resolved, path: a, .. },
            FsRequest::Metadata(q),
        ) && resolved == p && a == path && q@ == p@,
    }
}

/// The step a read takes from stage `run` on reply `reply`.
pub open spec fn read_step(run: ReadRun, reply: FsReply, r: ToolStep<ReadRun>) -> bool {
    match run {
        ReadRun::Resolving { resolver, path } => exists|res: Resolution|
            resolution_step(resolver, reply, res) && read_after_resolution(res, path, r),
        ReadRun::Stat { resolved, path, .. } => match reply {
            FsReply::Metadata(Err(d)) => r == ToolStep::<ReadRun>::Finish(
                Err(ToolError::StatFailed { path, detail: d }),
            ),
            FsReply::Metadata(Ok(m)) => if !m.is_file {
                r == ToolStep::<ReadRun>::Finish(Err(ToolError::NotAFile { path }))
            } else if m.len > MAX_FILE_SIZE {
                r == ToolStep::<ReadRun>::Finish(Err(ToolError::FileTooLarge { size: m.len }))
            } else {
                r matches ToolStep::Ask(
                    ReadRun::Read { resolved: p, path: a, .. },
                    FsRequest::ReadToString(q),
                ) && p == resolved && a == path && q@ == resolved@
            },
            _ => false,
        },
        ReadRun::Read { path, .. } => match reply {
            FsReply::Text(Err(d)) => r == ToolStep::<ReadRun>::Finish(
                Err(ToolError::ReadFailed { path, detail: d }),
            ),
            FsReply::Text(Ok(c)) => r == ToolStep::<ReadRun>::Finish(Ok(c)),
            _ => false,
        },
    }
}

impl ReadFile {
    pub fn new(root: String) -> (r: Self)
        ensures
            r.root() == root@,
    {
        ReadFile { root }
    }

    /// The sandbox root the tool reads under.
    pub closed spec fn root(&self) -> Seq<char> {
        self.root@
    }

    pub fn name(&self) -> (r: &'static str)
        ensures
            r@ == "read_file"@,
    {
        "read_file"
    }

    pub fn description(&self) -> (r: &'static str)
        ensures
            r@ == "Reads the contents of a text file from the project directory. Returns the file's contents as a string. Only use for text files."@,
    {
        "Reads the contents of a text file from the project directory. Returns the file's contents as a string. Only use for text files."
    }

    /// Starts a read: the requested path is first confined to the sandbox.
    pub fn start(&self, args: ReadFileArgs) -> (r: ToolStep<ReadRun>)
        ensures
            r matches ToolStep::Ask(run, q) && run.wf() && (run matches ReadRun::Resolving {
                resolver: SafePath::AwaitRoot { root, requested },
                path,
            } && path == args.path && root@ == self.root() && requested@ == args.path@) && (
            q matches FsRequest::Canonicalize(c) && c@ == self.root()),
    {
        let (resolver, q) = SafePath::start(self.root.as_str(), args.path.as_str());
        ToolStep::Ask(ReadRun::Resolving { resolver, path: args.path }, q)
    }

    /// One decision of a read, from its stage and the reply to its last request.
    ///
    /// Once the requested path is resolved, the sandbox root stays fixed, and
    /// the file the read stats and reads lies under it.
    pub fn step(run: ReadRun, reply: FsReply) -> (r: ToolStep<ReadRun>)
        requires
            run.wf(),
            run.expects(reply),
        ensures
            read_step(run, reply, r),
            r matches ToolStep::Ask(next, _) ==> next.wf(),
            r matches ToolStep::Ask(next, q) ==> (touched_path(q) matches Some(p) ==> (
            next.sandbox() matches Some(s) && path_starts_with(p, s))),
            run.sandbox() is Some ==> (r matches ToolStep::Ask(next, _) ==> next.sandbox()
                == run.sandbox()),
            run matches ReadRun::Resolving { resolver, .. } ==> (r matches ToolStep::Ask(
                ReadRun::Stat { sandbox, .. },
                _,
            ) ==> resolver.canonical_root() == Some(sandbox@)),
    {
        match run {
            ReadRun::Resolving { resolver, path } => {
                let ghost cr = resolver.canonical_root();
                let ghost old_resolver = resolver;
                let ghost old_path = path;
                let res = resolve_safe_path(resolver, reply);
                let ghost res_copy = res;
                let r = match res {
                    Resolution::Ask(s, q) => ToolStep::Ask(ReadRun::Resolving { resolver: s, path }, q),
                    Resolution::Done(Err(e)) => ToolStep::Finish(Err(ToolError::Path(e))),
                    Resolution::Done(Ok(p)) => {
                        let q = p.clone();
                        ToolStep::Ask(
                            ReadRun::Stat { sandbox: Ghost(cr.unwrap()), resolved: p, path },
                            FsRequest::Metadata(q),
                        )
                    },
                };
                assert(resolution_step(old_resolver, reply, res_copy) && read_after_resolution(
                    res_copy,
                    old_path,
                    r,
                ));
                r
            },
            ReadRun::Stat { sandbox, resolved, path } => match reply {
                FsReply::Metadata(Err(d)) => ToolStep::Finish(
                    Err(ToolError::StatFailed { path, detail: d }),
                ),
                FsReply::Metadata(Ok(m)) => {
                    if !m.is_file {
                        ToolStep::Finish(Err(ToolError::NotAFile { path }))
                    } else if m.len > MAX_FILE_SIZE {
                        ToolStep::Finish(Err(ToolError::FileTooLarge { size: m.len }))
                    } else {
                        let q = resolved.clone();
                        ToolStep::Ask(ReadRun::Read { sandbox, resolved, path }, FsRequest::ReadToString(q))
                    }
                },
                _ => ToolStep::Finish(Err(ToolError::NotAFile { path })),
            },
            ReadRun::Read { path, .. } => match reply {
                FsReply::Text(Err(d)) => ToolStep::Finish(
                    Err(ToolError::ReadFailed { path, detail: d }),
                ),
                FsReply::Text(Ok(c)) => ToolStep::Finish(Ok(c)),
                _ => ToolStep::Finish(Err(ToolError::NotAFile { path })),
            },
        }
    }
}

/// `rs` are the stages of a read, `qs` the requests each stage waits on and
/// `replies` the answers to them; the read starts by asking for the canonical
/// root, and the last reply ends it with `end`.
pub open spec fn is_read_run(
    rs: Seq<ReadRun>,
    qs: Seq<FsRequest>,
    replies: Seq<FsReply>,
    end: Result<String, ToolError>,
) -> bool {
    &&& rs.len() >= 1
    &&& qs.len() == rs.len()
    &&& replies.len() == rs.len()
    &&& rs[0] is Resolving
    &&& qs[0] is Canonicalize
    &&& forall|i: int| 0 <= i < rs.len() ==> (#[trigger] rs[i]).wf() && rs[i].expects(replies[i])
    &&& forall|i: int|
        0 <= i < rs.len() - 1 ==> read_step(
            #[trigger] rs[i],
            replies[i],
            ToolStep::Ask(rs[i + 1], qs[i + 1]),
        )
    &&& read_step(rs.last(), replies.last(), ToolStep::Finish(end))
}

/// A read gives back what a write wrote. Take a write that succeeded with
/// arguments `wargs`, and a read whose path resolves to the file that write
/// wrote. While the file system reports that file as the write left it, a
/// regular file of the written size holding the written text, the read
/// returns exactly the written contents.
pub proof fn lemma_read_gives_back_write(
    wargs: WriteFileArgs,
    ws: Seq<WriteRun>,
    wqs: Seq<FsRequest>,
    wreplies: Seq<FsReply>,
    wend: Result<String, ToolError>,
    rs: Seq<ReadRun>,
    qs: Seq<FsRequest>,
    replies: Seq<FsReply>,
    end: Result<String, ToolError>,
    k: int,
)
    requires
        is_write_run(wargs, ws, wqs, wreplies, wend),
        wend is Ok,
        is_read_run(rs, qs, replies, end),
        0 <= k < rs.len(),
        rs[k] matches ReadRun::Stat { resolved, .. } && (wqs.last() matches FsRequest::Write {
            path,
            ..
        } && path@ == resolved@),
        forall|i: int|
            0 <= i < qs.len() && #[trigger] qs[i] is Metadata ==> (replies[i] matches FsReply::Metadata(
                Ok(m),
            ) && m.is_file && m.len == byte_len(wargs.contents@)),
        forall|i: int|
            0 <= i < qs.len() && #[trigger] qs[i] is ReadToString ==> (replies[i] matches FsReply::Text(
                Ok(x),
            ) && x@ == wargs.contents@),
    ensures
        end matches Ok(x) && x@ == wargs.contents@,
{
    assert(rs[k].wf() && rs[k].expects(replies[k]));
    assert(k > 0);
    assert(read_step(rs[k - 1], replies[k - 1], ToolStep::Ask(rs[k], qs[k])));
    assert(rs[k - 1].wf() && rs[k - 1].expects(replies[k - 1]));
    if let ReadRun::Resolving { resolver, path } = rs[k - 1] {
        let res = choose|res: Resolution|
            resolution_step(resolver, replies[k - 1], res) && read_after_resolution(
                res,
                path,
                ToolStep::Ask(rs[k], qs[k]),
            );
        assert(read_after_resolution(res, path, ToolStep::Ask(rs[k], qs[k])));
    }
    assert(qs[k] is Metadata);
    assert(MAX_WRITE_SIZE == MAX_FILE_SIZE);
    if k == rs.len() - 1 {
        assert(read_step(rs[k], replies[k], ToolStep::Finish(end)));
    } else {
        assert(read_step(rs[k], replies[k], ToolStep::Ask(rs[k + 1], qs[k + 1])));
        assert(qs[k + 1] is ReadToString);
        assert(rs[k + 1] is Read);
        assert(rs[k + 1].wf() && rs[k + 1].expects(replies[k + 1]));
        if k + 1 < rs.len() - 1 {
            assert(read_step(rs[k + 1], replies[k + 1], ToolStep::Ask(rs[k + 2], qs[k + 2])));
        } else {
            assert(read_step(rs[k + 1], replies[k + 1], ToolStep::Finish(end)));
        }
    }
}

} // verus!
