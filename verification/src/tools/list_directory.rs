//! The `list_directory` tool: lists the entries of a directory by name.
use vstd::prelude::*;
use crate::fs::{touched_path, DirEntry, FsReply, FsRequest, ListingError};
use crate::path::path_starts_with;
use crate::sandbox::{resolution_step, resolve_safe_path, Resolution, SafePath};
use crate::order::{lemma_lex_total_ordering, lex_order, sort_texts};
use vstd::relations::sorted_by;
use crate::path::push_chars;
use crate::text::chars_of;
use crate::tools::error::ToolError;
use crate::tools::ToolStep;

verus! {

/// The tool that lists directories.
pub struct ListDirectory {
    root: String,
}

/// The arguments of a listing.
pub struct ListDirectoryArgs {
    pub path: String,
}

/// The stage a listing has reached. `path` is the path as requested, which
/// the listing's heading and error messages quote.
pub enum ListRun {
    /// Confining the requested path to the sandbox.
    Resolving { resolver: SafePath, path: String },
    /// Waiting for the metadata of the resolved directory.
    Stat { sandbox: Ghost<Seq<char>>, resolved: String, path: String },
    /// Waiting for the entries of the resolved directory.
    List { sandbox: Ghost<Seq<char>>, resolved: String, path: String },
}

/// How an entry is listed: its name, with a trailing `/` for a directory.
pub open spec fn entry_label(e: DirEntry) -> Seq<char> {
    if e.is_dir == Some(true) {
        e.name@.push('/')
    } else {
        e.name@
    }
}

/// `lines` joined by line breaks.
pub open spec fn join_lines(lines: Seq<Seq<char>>) -> Seq<char>
    decreases lines.len(),
{
    if lines.len() == 0 {
        Seq::empty()
    } else if lines.len() == 1 {
        lines[0]
    } else {
        join_lines(lines.drop_last()).push('\n') + lines.last()
    }
}

/// The listing of directory `path` with `entries`: a heading, then one line per
/// entry in lexicographic order.
pub open spec fn listing(path: Seq<char>, entries: Seq<DirEntry>) -> Seq<char> {
    "Contents of "@ + path + ":\n"@ + join_lines(
        entries.map_values(|e: DirEntry| entry_label(e)).sort_by(lex_order()),
    )
}

impl ListRun {
    /// The invariant of a listing: once resolved, the directory lies under the
    /// canonical sandbox root.
    pub open spec fn wf(&self) -> bool {
        match self {
            ListRun::Resolving { resolver, .. } => resolver.wf(),
            ListRun::Stat { sandbox, resolved, .. } => path_starts_with(resolved@, sandbox@),
            ListRun::List { sandbox, resolved, .. } => path_starts_with(resolved@, sandbox@),
        }
    }

    /// The canonical sandbox root, once it is known.
    pub open spec fn sandbox(&self) -> Option<Seq<char>> {
        match self {
            ListRun::Resolving { resolver, .. } => resolver.canonical_root(),
            ListRun::Stat { sandbox, .. } => Some(sandbox@),
            ListRun::List { sandbox, .. } => Some(sandbox@),
        }
    }

    /// Whether `reply` answers the request this stage waits on.
    pub open spec fn expects(&self, reply: FsReply) -> bool {
        match self {
            ListRun::Resolving { resolver, .. } => resolver.expects(reply),
            ListRun::Stat { .. } => reply is Metadata,
            ListRun::List { .. } => reply is Entries,
        }
    }
}

/// How a listing goes on from a step of its path resolution.
pub open spec fn list_after_resolution(res: Resolution, path: String, r: ToolStep<ListRun>) -> bool {
    match res {
        Resolution::Ask(s, q) => r == ToolStep::Ask(ListRun::Resolving { resolver: s, path }, q),
        Resolution::Done(Err(e)) => r == ToolStep::<ListRun>::Finish(Err(ToolError::Path(e))),
        Resolution::Done(Ok(p)) => r matches ToolStep::Ask(
            ListRun::Stat { resolved, path: a, .. },
            FsRequest::Metadata(q),
        ) && resolved == p && a == path && q@ == p@,
    }
}

/// The step a listing takes from stage `run` on reply `reply`.
pub open spec fn list_step(run: ListRun, reply: FsReply, r: ToolStep<ListRun>) -> bool {
    match run {
        ListRun::Resolving { resolver, path } => exists|res: Resolution|
            resolution_step(resolver, reply, res) && list_after_resolution(res, path, r),
        ListRun::Stat { resolved, path, .. } => match reply {
            FsReply::Metadata(Err(d)) => r == ToolStep::<ListRun>::Finish(
                Err(ToolError::StatFailed { path, detail: d }),
            ),
            FsReply::Metadata(Ok(m)) => if !m.is_dir {
                r == ToolStep::<ListRun>::Finish(Err(ToolError::NotADirectory { path }))
            } else {
                r matches ToolStep::Ask(
                    ListRun::List { resolved: p, path: a, .. },
                    FsRequest::ReadDir(q),
                ) && p == resolved && a == path && q@ == resolved@
            },
            _ => false,
        },
        ListRun::List { path, .. } => match reply {
            FsReply::Entries(Err(ListingError::Open(d))) => r == ToolStep::<ListRun>::Finish(
                Err(ToolError::ReadFailed { path, detail: d }),
            ),
            FsReply::Entries(Err(ListingError::Next(d))) => r == ToolStep::<ListRun>::Finish(
                Err(ToolError::ListingFailed { detail: d }),
            ),
            FsReply::Entries(Ok(entries)) => r matches ToolStep::Finish(Ok(s)) && s@ == listing(
                path@,
                entries@,
            ),
            _ => false,
        },
    }
}

/// The listing of directory `path` with `entries`.
pub fn render_listing(path: &str, entries: &Vec<DirEntry>) -> (r: String)
    ensures
        r@ == listing(path@, entries@),
{
    let ghost labels = entries@.map_values(|e: DirEntry| entry_label(e));
    let mut items: Vec<Vec<char>> = Vec::new();
    let mut i: usize = 0;
    while i < entries.len()
        invariant
            i <= entries.len(),
            labels == entries@.map_values(|e: DirEntry| entry_label(e)),
            items@.map_values(|v: Vec<char>| v@) == labels.take(i as int),
        decreases entries.len() - i,
    {
        let e = &entries[i];
        let mut label = chars_of(e.name.as_str());
        match e.is_dir {
            Some(true) => label.push('/'),
            _ => {},
        }
        let ghost before = items@.map_values(|v: Vec<char>| v@);
        items.push(label);
        assert(items@.map_values(|v: Vec<char>| v@) =~= before.push(label@));
        assert(labels.take(i as int + 1) =~= labels.take(i as int).push(labels[i as int]));
        i = i + 1;
    }
    assert(labels.take(entries.len() as int) =~= labels);
    let sorted = sort_texts(items);
    let ghost lines = sorted@.map_values(|v: Vec<char>| v@);
    let mut r = String::new();
    r.push_str("Contents of ");
    r.push_str(path);
    r.push_str(":\n");
    let ghost head = r@;
    let mut j: usize = 0;
    assert(lines.take(0) =~= Seq::<Seq<char>>::empty());
    assert(r@ =~= head + join_lines(lines.take(0)));
    while j < sorted.len()
        invariant
            j <= sorted.len(),
            lines == sorted@.map_values(|v: Vec<char>| v@),
            r@ == head + join_lines(lines.take(j as int)),
        decreases sorted.len() - j,
    {
        let ghost t = lines.take(j as int + 1);
        assert(t.drop_last() =~= lines.take(j as int));
        if j > 0 {
            r.push('\n');
        }
        push_chars(&mut r, &sorted[j]);
        proof {
            if j == 0 {
                assert(join_lines(t) == t[0]);
            }
            assert(r@ =~= head + join_lines(t));
        }
        j = j + 1;
    }
    assert(lines.take(sorted.len() as int) =~= lines);
    r
}

impl ListDirectory {
    pub fn new(root: String) -> (r: Self)
        ensures
            r.root() == root@,
    {
        ListDirectory { root }
    }

    /// The sandbox root the tool lists under.
    pub closed spec fn root(&self) -> Seq<char> {
        self.root@
    }

    pub fn name(&self) -> (r: &'static str)
        ensures
            r@ == "list_directory"@,
    {
        "list_directory"
    }

    pub fn description(&self) -> (r: &'static str)
        ensures
            r@ == "Lists files within the current directory. Returns a list of all files in the current working directory."@,
    {
        "Lists files within the current directory. Returns a list of all files in the current working directory."
    }

    /// Starts a listing: the requested path is first confined to the sandbox.
    pub fn start(&self, args: ListDirectoryArgs) -> (r: ToolStep<ListRun>)
        ensures
            r matches ToolStep::Ask(run, q) && run.wf() && (run matches ListRun::Resolving {
                resolver: SafePath::AwaitRoot { root, requested },
                path,
            } && path == args.path && root@ == self.root() && requested@ == args.path@) && (
            q matches FsRequest::Canonicalize(c) && c@ == self.root()),
    {
        let (resolver, q) = SafePath::start(self.root.as_str(), args.path.as_str());
        ToolStep::Ask(ListRun::Resolving { resolver, path: args.path }, q)
    }

    /// One decision of a listing, from its stage and the reply to its last request.
    ///
    /// Once the requested path is resolved, the sandbox root stays fixed, and
    /// the directory the listing stats and reads lies under it.
    pub fn step(run: ListRun, reply: FsReply) -> (r: ToolStep<ListRun>)
        requires
            run.wf(),
            run.expects(reply),
        ensures
            list_step(run, reply, r),
            r matches ToolStep::Ask(next, _) ==> next.wf(),
            r matches ToolStep::Ask(next, q) ==> (touched_path(q) matches Some(p) ==> (
            next.sandbox() matches Some(s) && path_starts_with(p, s))),
            run.sandbox() is Some ==> (r matches ToolStep::Ask(next, _) ==> next.sandbox()
                == run.sandbox()),
            run matches ListRun::Resolving { resolver, .. } ==> (r matches ToolStep::Ask(
                ListRun::Stat { sandbox, .. },
                _,
            ) ==> resolver.canonical_root() == Some(sandbox@)),
    {
        match run {
            ListRun::Resolving { resolver, path } => {
                let ghost cr = resolver.canonical_root();
                let ghost old_resolver = resolver;
                let ghost old_path = path;
                let res = resolve_safe_path(resolver, reply);
                let ghost res_copy = res;
                let r = match res {
                    Resolution::Ask(s, q) => ToolStep::Ask(ListRun::Resolving { resolver: s, path }, q),
                    Resolution::Done(Err(e)) => ToolStep::Finish(Err(ToolError::Path(e))),
                    Resolution::Done(Ok(p)) => {
                        let q = p.clone();
                        ToolStep::Ask(
                            ListRun::Stat { sandbox: Ghost(cr.unwrap()), resolved: p, path },
                            FsRequest::Metadata(q),
                        )
                    },
                };
                assert(resolution_step(old_resolver, reply, res_copy) && list_after_resolution(
                    res_copy,
                    old_path,
                    r,
                ));
                r
            },
            ListRun::Stat { sandbox, resolved, path } => match reply {
                FsReply::Metadata(Err(d)) => ToolStep::Finish(
                    Err(ToolError::StatFailed { path, detail: d }),
                ),
                FsReply::Metadata(Ok(m)) => {
                    if !m.is_dir {
                        ToolStep::Finish(Err(ToolError::NotADirectory { path }))
                    } else {
                        let q = resolved.clone();
                        ToolStep::Ask(ListRun::List { sandbox, resolved, path }, FsRequest::ReadDir(q))
                    }
                },
                _ => ToolStep::Finish(Err(ToolError::NotADirectory { path })),
            },
            ListRun::List { path, .. } => match reply {
                FsReply::Entries(Err(ListingError::Open(d))) => ToolStep::Finish(
                    Err(ToolError::ReadFailed { path, detail: d }),
                ),
                FsReply::Entries(Err(ListingError::Next(d))) => ToolStep::Finish(
                    Err(ToolError::ListingFailed { detail: d }),
                ),
                FsReply::Entries(Ok(entries)) => ToolStep::Finish(
                    Ok(render_listing(path.as_str(), &entries)),
                ),
                _ => ToolStep::Finish(Err(ToolError::NotADirectory { path })),
            },
        }
    }
}

/// Where line `k` of `ls` stands once the lines are joined.
spec fn line_start(ls: Seq<Seq<char>>, k: int) -> int
    decreases k,
{
    if k <= 0 {
        0
    } else {
        line_start(ls, k - 1) + ls[k - 1].len() + 1
    }
}

proof fn lemma_joined_lines(ls: Seq<Seq<char>>, k: int)
    requires
        0 <= k < ls.len(),
    ensures
        join_lines(ls).len() >= line_start(ls, k) + ls[k].len(),
        line_start(ls, k) >= 0,
        join_lines(ls).subrange(line_start(ls, k), line_start(ls, k) + ls[k].len()) == ls[k],
        k > 0 ==> line_start(ls, k) >= 1 && join_lines(ls)[line_start(ls, k) - 1] == '\n',
        k + 1 < ls.len() ==> join_lines(ls).len() > line_start(ls, k) + ls[k].len()
            && join_lines(ls)[line_start(ls, k) + ls[k].len()] == '\n',
        k + 1 == ls.len() ==> join_lines(ls).len() == line_start(ls, k) + ls[k].len(),
    decreases ls.len(),
{
    lemma_line_start_nonneg(ls, k);
    if k > 0 {
        lemma_line_start_nonneg(ls, k - 1);
    }
    if ls.len() == 1 {
    } else {
        let init = ls.drop_last();
        let n = ls.len() - 1;
        lemma_line_start_same(ls, init, n);
        let a = join_lines(init);
        assert(join_lines(ls) == a.push('\n') + ls.last());
        if k < n {
            lemma_joined_lines(init, k);
            lemma_line_start_same(ls, init, k);
            assert(init[k] == ls[k]);
            assert(join_lines(ls).subrange(line_start(ls, k), line_start(ls, k) + ls[k].len())
                =~= a.subrange(line_start(ls, k), line_start(ls, k) + ls[k].len()));
            if k + 1 == n {
                lemma_line_start_same(ls, init, k + 1);
            }
        } else {
            lemma_joined_lines(init, n - 1);
            lemma_line_start_same(ls, init, n - 1);
            assert(line_start(ls, n) == a.len() + 1);
            assert(join_lines(ls).subrange(line_start(ls, k), line_start(ls, k) + ls[k].len())
                =~= ls[k]);
        }
    }
}

proof fn lemma_line_start_nonneg(ls: Seq<Seq<char>>, k: int)
    ensures
        line_start(ls, k) >= 0,
    decreases k,
{
    if k > 0 {
        lemma_line_start_nonneg(ls, k - 1);
    }
}

proof fn lemma_line_start_same(ls: Seq<Seq<char>>, init: Seq<Seq<char>>, k: int)
    requires
        ls.len() >= 1,
        init == ls.drop_last(),
        0 <= k <= init.len(),
    ensures
        line_start(ls, k) == line_start(init, k),
    decreases k,
{
    if k > 0 {
        lemma_line_start_same(ls, init, k - 1);
        assert(init[k - 1] == ls[k - 1]);
    }
}

/// Whether `line` stands as a whole line of `text` at `at`: right after a line
/// break, and up to the next one or the end of the text.
pub open spec fn is_line_at(text: Seq<char>, line: Seq<char>, at: int) -> bool {
    &&& 0 < at && at + line.len() <= text.len()
    &&& text[at - 1] == '\n'
    &&& text.subrange(at, at + line.len()) == line
    &&& (at + line.len() == text.len() || text[at + line.len()] == '\n')
}

/// Whether `line` stands as a whole line somewhere in `text`.
pub open spec fn has_line(text: Seq<char>, line: Seq<char>) -> bool {
    exists|at: int| is_line_at(text, line, at)
}

/// A listing lists every entry once: after the heading come the labels of all
/// entries, the name with `/` for a directory, in lexicographic order, as many
/// lines as there are entries; and each entry's label stands on a line of its
/// own, right after a line break and up to the next one or the end.
pub proof fn lemma_listing_lists_every_entry(path: Seq<char>, entries: Seq<DirEntry>)
    ensures
        exists|ls: Seq<Seq<char>>|
            #![trigger join_lines(ls)]
            listing(path, entries) == "Contents of "@ + path + ":\n"@ + join_lines(ls) && ls.len()
                == entries.len() && ls.to_multiset() == entries.map_values(
                |e: DirEntry| entry_label(e),
            ).to_multiset() && sorted_by(ls, lex_order()),
        forall|i: int|
            0 <= i < entries.len() ==> has_line(listing(path, entries), entry_label(#[trigger] entries[i])),
{
    broadcast use vstd::seq_lib::group_seq_properties;

    let labels = entries.map_values(|e: DirEntry| entry_label(e));
    lemma_lex_total_ordering();
    labels.lemma_sort_by_ensures(lex_order());
    let ls = labels.sort_by(lex_order());
    labels.to_multiset_ensures();
    ls.to_multiset_ensures();
    let head = "Contents of "@ + path + ":\n"@;
    let l = listing(path, entries);
    assert(l == head + join_lines(ls));
    assert(head.len() > 0 && head.last() == '\n') by {
        reveal_strlit("Contents of ");
        reveal_strlit(":\n");
    }
    assert forall|i: int| 0 <= i < entries.len() implies has_line(
        listing(path, entries),
        entry_label(#[trigger] entries[i]),
    ) by {
        let lab = entry_label(entries[i]);
        assert(labels[i] == lab);
        assert(labels.contains(lab));
        assert(labels.to_multiset().count(lab) > 0);
        assert(ls.contains(lab));
        let k = choose|k: int| 0 <= k < ls.len() && ls[k] == lab;
        lemma_joined_lines(ls, k);
        let at = head.len() + line_start(ls, k);
        let jl = join_lines(ls);
        assert(l.subrange(at, at + lab.len()) =~= jl.subrange(line_start(ls, k), line_start(ls, k) + lab.len()));
        if k > 0 {
            assert(l[at - 1] == jl[line_start(ls, k) - 1]);
        } else {
            assert(l[at - 1] == head[head.len() - 1]);
        }
        if k + 1 < ls.len() {
            assert(l[at + lab.len()] == jl[line_start(ls, k) + lab.len()]);
        }
        assert(is_line_at(l, lab, at));
    }
}

} // verus!
