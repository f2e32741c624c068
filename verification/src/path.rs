//! Unix path arithmetic on text, and the confinement of requested paths to a
//! sandbox root.
use vstd::prelude::*;
use crate::text::{chars_of, string_of};

verus! {

/// One component of a path, as `std::path::Path::components` yields it on Unix.
pub enum PathPart {
    Root,
    Current,
    Parent,
    Normal(Vec<char>),
}

/// The mathematical value of a [`PathPart`].
pub enum PartView {
    Root,
    Current,
    Parent,
    Normal(Seq<char>),
}

impl View for PathPart {
    type V = PartView;

    open spec fn view(&self) -> PartView {
        match self {
            PathPart::Root => PartView::Root,
            PathPart::Current => PartView::Current,
            PathPart::Parent => PartView::Parent,
            PathPart::Normal(n) => PartView::Normal(n@),
        }
    }
}

pub open spec fn parts_view(v: Seq<PathPart>) -> Seq<PartView> {
    v.map_values(|p: PathPart| p@)
}

/// The pieces of `s` between `/` separators, empty pieces included.
pub open spec fn split_slash(s: Seq<char>) -> Seq<Seq<char>>
    decreases s.len(),
{
    if s.len() == 0 {
        seq![Seq::<char>::empty()]
    } else {
        let p = split_slash(s.drop_last());
        if s.last() == '/' {
            p.push(Seq::<char>::empty())
        } else {
            p.update(p.len() - 1, p.last().push(s.last()))
        }
    }
}

/// The component a piece stands for: empty pieces and `.` stand for none.
pub open spec fn part_of_piece(piece: Seq<char>) -> Option<PartView> {
    if piece.len() == 0 || piece == seq!['.'] {
        None
    } else if piece == seq!['.', '.'] {
        Some(PartView::Parent)
    } else {
        Some(PartView::Normal(piece))
    }
}

pub open spec fn parts_of_pieces(ps: Seq<Seq<char>>) -> Seq<PartView>
    decreases ps.len(),
{
    if ps.len() == 0 {
        Seq::empty()
    } else {
        let r = parts_of_pieces(ps.drop_last());
        match part_of_piece(ps.last()) {
            Some(c) => r.push(c),
            None => r,
        }
    }
}

/// The leading component: the root for an absolute path, `.` for a path that
/// starts with a `.` piece, else nothing.
pub open spec fn lead_parts(s: Seq<char>) -> Seq<PartView> {
    if s.len() > 0 && s[0] == '/' {
        seq![PartView::Root]
    } else if s.len() > 0 && s[0] == '.' && (s.len() == 1 || s[1] == '/') {
        seq![PartView::Current]
    } else {
        Seq::empty()
    }
}

/// The components of path `s`.
pub open spec fn components(s: Seq<char>) -> Seq<PartView> {
    lead_parts(s) + parts_of_pieces(split_slash(s))
}

/// Whether `path` lies under `base`: the components of `base` begin those of `path`.
pub open spec fn path_starts_with(path: Seq<char>, base: Seq<char>) -> bool {
    let p = components(path);
    let b = components(base);
    b.len() <= p.len() && p.take(b.len() as int) == b
}

pub open spec fn is_absolute(s: Seq<char>) -> bool {
    s.len() > 0 && s[0] == '/'
}

/// `base` joined with `p`: an absolute `p` replaces `base`; otherwise `p` follows
/// `base`, with a `/` between them unless `base` is empty or already ends in one.
pub open spec fn join(base: Seq<char>, p: Seq<char>) -> Seq<char> {
    if is_absolute(p) {
        p
    } else if base.len() == 0 || base.last() == '/' {
        base + p
    } else {
        base.push('/') + p
    }
}

/// The final component of `s` when it is a name.
pub open spec fn file_name(s: Seq<char>) -> Option<Seq<char>> {
    let c = components(s);
    if c.len() > 0 && c.last() is Normal {
        Some(c.last()->Normal_0)
    } else {
        None
    }
}

/// How many leading pieces of `s` come before its body: the empty piece
/// before the root of an absolute path, or a leading `.`.
pub open spec fn lead_count(s: Seq<char>) -> int {
    if lead_parts(s).len() > 0 {
        1
    } else {
        0
    }
}

/// `ps` without its trailing empty and `.` pieces, keeping the first `keep`.
pub open spec fn trim_pieces(ps: Seq<Seq<char>>, keep: int) -> Seq<Seq<char>>
    decreases ps.len(),
{
    if ps.len() > keep && ps.len() > 0 && part_of_piece(ps.last()) is None {
        trim_pieces(ps.drop_last(), keep)
    } else {
        ps
    }
}

/// The pieces `ps` with `/` between them.
pub open spec fn join_slash(ps: Seq<Seq<char>>) -> Seq<char>
    decreases ps.len(),
{
    if ps.len() == 0 {
        Seq::empty()
    } else if ps.len() == 1 {
        ps[0]
    } else {
        join_slash(ps.drop_last()).push('/') + ps.last()
    }
}

/// The text of `s` without its final component, as `Path::parent` gives it on
/// Unix: trailing separators and `.` pieces are dropped, then the final
/// component with the separator before it, then trailing separators and `.`
/// pieces again; the root and a leading `.` stay. `None` when the final
/// component is the root or there is none.
pub open spec fn parent(s: Seq<char>) -> Option<Seq<char>> {
    let keep = lead_count(s);
    let ps = trim_pieces(split_slash(s), keep);
    if ps.len() > keep {
        let rest = trim_pieces(ps.drop_last(), keep);
        Some(
            if is_absolute(s) && rest.len() == 1 {
                seq!['/']
            } else {
                join_slash(rest)
            },
        )
    } else if keep == 1 && !is_absolute(s) {
        Some(Seq::empty())
    } else {
        None
    }
}

proof fn lemma_split_step(s: Seq<char>, i: int)
    requires
        0 <= i < s.len(),
    ensures
        split_slash(s.take(i + 1)) == (if s[i] == '/' {
            split_slash(s.take(i)).push(Seq::<char>::empty())
        } else {
            let p = split_slash(s.take(i));
            p.update(p.len() - 1, p.last().push(s[i]))
        }),
{
    assert(s.take(i + 1).drop_last() =~= s.take(i));
}

fn chars_eq(a: &Vec<char>, b: &Vec<char>) -> (r: bool)
    ensures
        r == (a@ == b@),
{
    if a.len() != b.len() {
        return false;
    }
    let mut i: usize = 0;
    while i < a.len()
        invariant
            a.len() == b.len(),
            i <= a.len(),
            forall|j: int| 0 <= j < i ==> a@[j] == b@[j],
        decreases a.len() - i,
    {
        if a[i] != b[i] {
            return false;
        }
        i = i + 1;
    }
    assert(a@ =~= b@);
    true
}

fn part_from_piece(piece: Vec<char>) -> (r: Option<PathPart>)
    ensures
        match r {
            Some(p) => part_of_piece(piece@) == Some(p@),
            None => part_of_piece(piece@) is None,
        },
{
    let n = piece.len();
    if n == 0 {
        None
    } else if n == 1 && piece[0] == '.' {
        assert(piece@ =~= seq!['.']);
        None
    } else if n == 2 && piece[0] == '.' && piece[1] == '.' {
        assert(piece@ =~= seq!['.', '.']);
        Some(PathPart::Parent)
    } else {
        proof {
            if piece@ == seq!['.'] {
                assert(piece@[0] == '.');
            }
            if piece@ == seq!['.', '.'] {
                assert(piece@[0] == '.' && piece@[1] == '.');
            }
        }
        Some(PathPart::Normal(piece))
    }
}

/// The components of the path held in `s`.
pub fn parse_parts(s: &Vec<char>) -> (r: Vec<PathPart>)
    ensures
        parts_view(r@) == components(s@),
{
    let mut out: Vec<PathPart> = Vec::new();
    let n = s.len();
    if n > 0 && s[0] == '/' {
        out.push(PathPart::Root);
    } else if n > 0 && s[0] == '.' && (n == 1 || s[1] == '/') {
        out.push(PathPart::Current);
    }
    assert(parts_view(out@) =~= lead_parts(s@));
    let mut cur: Vec<char> = Vec::new();
    let mut i: usize = 0;
    proof {
        assert(s@.take(0) =~= Seq::<char>::empty());
        assert(split_slash(s@.take(0)) == seq![Seq::<char>::empty()]);
        assert(split_slash(s@.take(0)).drop_last() =~= Seq::<Seq<char>>::empty());
        assert(parts_view(out@) =~= lead_parts(s@) + parts_of_pieces(split_slash(s@.take(0)).drop_last()));
    }
    while i < n
        invariant
            n == s.len(),
            i <= n,
            split_slash(s@.take(i as int)).len() >= 1,
            parts_view(out@) == lead_parts(s@) + parts_of_pieces(
                split_slash(s@.take(i as int)).drop_last(),
            ),
            cur@ == split_slash(s@.take(i as int)).last(),
        decreases n - i,
    {
        let ghost p = split_slash(s@.take(i as int));
        proof {
            lemma_split_step(s@, i as int);
        }
        let c = s[i];
        if c == '/' {
            let piece = cur;
            cur = Vec::new();
            let ghost old_out = parts_view(out@);
            let part = part_from_piece(piece);
            match part {
                Some(pp) => {
                    out.push(pp);
                    assert(parts_view(out@) =~= old_out.push(pp@));
                }
                None => {}
            }
            proof {
                let np = p.push(Seq::<char>::empty());
                assert(np.drop_last() =~= p);
                assert(p =~= p.drop_last().push(p.last()));
                assert(parts_of_pieces(p) == (match part_of_piece(p.last()) {
                    Some(c) => parts_of_pieces(p.drop_last()).push(c),
                    None => parts_of_pieces(p.drop_last()),
                }));
                assert(parts_view(out@) =~= lead_parts(s@) + parts_of_pieces(np.drop_last()));
                assert(cur@ =~= np.last());
            }
        } else {
            cur.push(c);
            proof {
                let np = p.update(p.len() - 1, p.last().push(c));
                assert(np.drop_last() =~= p.drop_last());
                assert(cur@ =~= np.last());
            }
        }
        i = i + 1;
    }
    proof {
        assert(s@.take(n as int) =~= s@);
    }
    let ghost p = split_slash(s@);
    let ghost old_out = parts_view(out@);
    let part = part_from_piece(cur);
    match part {
        Some(pp) => {
            out.push(pp);
            assert(parts_view(out@) =~= old_out.push(pp@));
        }
        None => {}
    }
    proof {
        assert(p =~= p.drop_last().push(p.last()));
        assert(parts_view(out@) =~= lead_parts(s@) + parts_of_pieces(p));
    }
    out
}


/// Appends the characters of `v` to `s`.
pub fn push_chars(s: &mut String, v: &Vec<char>)
    ensures
        final(s)@ == old(s)@ + v@,
{
    let mut i: usize = 0;
    while i < v.len()
        invariant
            i <= v.len(),
            s@ == old(s)@ + v@.take(i as int),
        decreases v.len() - i,
    {
        s.push(v[i]);
        i = i + 1;
        assert(s@ =~= old(s)@ + v@.take(i as int));
    }
    assert(v@.take(v.len() as int) =~= v@);
}

fn part_eq(a: &PathPart, b: &PathPart) -> (r: bool)
    ensures
        r == (a@ == b@),
{
    match (a, b) {
        (PathPart::Root, PathPart::Root) => true,
        (PathPart::Current, PathPart::Current) => true,
        (PathPart::Parent, PathPart::Parent) => true,
        (PathPart::Normal(x), PathPart::Normal(y)) => chars_eq(x, y),
        _ => false,
    }
}

/// Whether path `path` lies under `base`, comparing whole components.
pub fn starts_with(path: &str, base: &str) -> (r: bool)
    ensures
        r == path_starts_with(path@, base@),
{
    let p = parse_parts(&chars_of(path));
    let b = parse_parts(&chars_of(base));
    let ghost pv = parts_view(p@);
    let ghost bv = parts_view(b@);
    assert(pv.len() == p.len() && bv.len() == b.len());
    if b.len() > p.len() {
        return false;
    }
    let mut i: usize = 0;
    while i < b.len()
        invariant
            b.len() <= p.len(),
            pv == parts_view(p@),
            bv == parts_view(b@),
            pv == components(path@),
            bv == components(base@),
            i <= b.len(),
            forall|j: int| 0 <= j < i ==> pv[j] == bv[j],
        decreases b.len() - i,
    {
        assert(pv[i as int] == p@[i as int]@);
        assert(bv[i as int] == b@[i as int]@);
        if !part_eq(&p[i], &b[i]) {
            assert(pv.take(bv.len() as int)[i as int] != bv[i as int]);
            return false;
        }
        i = i + 1;
    }
    assert(pv.take(bv.len() as int) =~= bv);
    true
}

/// `base` joined with `p`, as `Path::join` does on Unix.
pub fn join_paths(base: &str, p: &str) -> (r: String)
    ensures
        r@ == join(base@, p@),
{
    let pc = chars_of(p);
    if pc.len() > 0 && pc[0] == '/' {
        return p.to_owned();
    }
    let bc = chars_of(base);
    let mut r = base.to_owned();
    if bc.len() > 0 && bc[bc.len() - 1] != '/' {
        r.push('/');
    }
    r.push_str(p);
    r
}

/// The final component of path `p` when it is a name.
pub fn path_file_name(p: &str) -> (r: Option<String>)
    ensures
        match r {
            Some(n) => file_name(p@) == Some(n@),
            None => file_name(p@) is None,
        },
{
    let parts = parse_parts(&chars_of(p));
    let ghost pv = parts_view(parts@);
    if parts.len() == 0 {
        return None;
    }
    match &parts[parts.len() - 1] {
        PathPart::Normal(n) => Some(string_of(n)),
        _ => None,
    }
}

pub open spec fn pieces_view(v: Seq<Vec<char>>) -> Seq<Seq<char>> {
    v.map_values(|p: Vec<char>| p@)
}

/// The pieces of `s` between `/` separators.
fn split_pieces(s: &Vec<char>) -> (r: Vec<Vec<char>>)
    ensures
        pieces_view(r@) == split_slash(s@),
{
    let mut out: Vec<Vec<char>> = Vec::new();
    let mut cur: Vec<char> = Vec::new();
    let n = s.len();
    let mut i: usize = 0;
    proof {
        assert(s@.take(0) =~= Seq::<char>::empty());
        assert(split_slash(s@.take(0)) == seq![Seq::<char>::empty()]);
        assert(pieces_view(out@) =~= split_slash(s@.take(0)).drop_last());
    }
    while i < n
        invariant
            n == s.len(),
            i <= n,
            split_slash(s@.take(i as int)).len() >= 1,
            pieces_view(out@) == split_slash(s@.take(i as int)).drop_last(),
            cur@ == split_slash(s@.take(i as int)).last(),
        decreases n - i,
    {
        let ghost p = split_slash(s@.take(i as int));
        proof {
            lemma_split_step(s@, i as int);
        }
        let c = s[i];
        if c == '/' {
            let ghost old_out = pieces_view(out@);
            out.push(cur);
            cur = Vec::new();
            proof {
                let np = p.push(Seq::<char>::empty());
                assert(pieces_view(out@) =~= old_out.push(p.last()));
                assert(p =~= p.drop_last().push(p.last()));
                assert(pieces_view(out@) =~= np.drop_last());
                assert(cur@ =~= np.last());
            }
        } else {
            cur.push(c);
            proof {
                let np = p.update(p.len() - 1, p.last().push(c));
                assert(np.drop_last() =~= p.drop_last());
                assert(cur@ =~= np.last());
            }
        }
        i = i + 1;
    }
    proof {
        assert(s@.take(n as int) =~= s@);
    }
    let ghost p = split_slash(s@);
    let ghost old_out = pieces_view(out@);
    out.push(cur);
    proof {
        assert(p =~= p.drop_last().push(p.last()));
        assert(pieces_view(out@) =~= old_out.push(p.last()));
    }
    out
}

/// Whether `piece` names a component: it is neither empty nor `.`.
fn piece_is_component(piece: &Vec<char>) -> (r: bool)
    ensures
        r == part_of_piece(piece@) is Some,
{
    let n = piece.len();
    if n == 0 {
        false
    } else if n == 1 && piece[0] == '.' {
        assert(piece@ =~= seq!['.']);
        false
    } else {
        proof {
            if piece@ == seq!['.'] {
                assert(piece@[0] == '.');
            }
        }
        true
    }
}

/// How many of the first `m` pieces stay once trailing empty and `.` pieces
/// are dropped, keeping the first `keep`.
fn trimmed_len(ps: &Vec<Vec<char>>, m: usize, keep: usize) -> (r: usize)
    requires
        m <= ps.len(),
    ensures
        r <= m,
        pieces_view(ps@).take(r as int) == trim_pieces(pieces_view(ps@).take(m as int), keep as int),
{
    let ghost pv = pieces_view(ps@);
    let mut r = m;
    while r > keep && r > 0 && !piece_is_component(&ps[r - 1])
        invariant
            m <= ps.len(),
            r <= m,
            pv == pieces_view(ps@),
            trim_pieces(pv.take(m as int), keep as int) == trim_pieces(pv.take(r as int), keep as int),
        decreases r,
    {
        proof {
            let t = pv.take(r as int);
            assert(t.last() == ps@[r - 1]@);
            assert(t.drop_last() =~= pv.take(r - 1));
        }
        r = r - 1;
    }
    proof {
        let t = pv.take(r as int);
        if r > keep && r > 0 {
            assert(t.last() == ps@[r - 1]@);
        }
    }
    r
}

/// The first `m` pieces with `/` between them.
fn join_pieces(ps: &Vec<Vec<char>>, m: usize) -> (r: String)
    requires
        m <= ps.len(),
    ensures
        r@ == join_slash(pieces_view(ps@).take(m as int)),
{
    let ghost pv = pieces_view(ps@);
    let mut r = String::new();
    let mut j: usize = 0;
    assert(pv.take(0) =~= Seq::<Seq<char>>::empty());
    while j < m
        invariant
            m <= ps.len(),
            pv == pieces_view(ps@),
            j <= m,
            r@ == join_slash(pv.take(j as int)),
        decreases m - j,
    {
        let ghost t = pv.take(j as int + 1);
        assert(t.drop_last() =~= pv.take(j as int));
        assert(t.last() == ps@[j as int]@);
        if j == 0 {
            push_chars(&mut r, &ps[j]);
            assert(r@ =~= join_slash(t));
        } else {
            r.push('/');
            push_chars(&mut r, &ps[j]);
            assert(r@ =~= join_slash(t));
        }
        j = j + 1;
    }
    r
}

/// Path `p` without its final component, as `Path::parent` gives it, or `None`
/// when it ends at the root or is empty.
pub fn path_parent(p: &str) -> (r: Option<String>)
    ensures
        match r {
            Some(q) => parent(p@) == Some(q@),
            None => parent(p@) is None,
        },
{
    let cs = chars_of(p);
    let ps = split_pieces(&cs);
    let ghost pv = pieces_view(ps@);
    let n = cs.len();
    let absolute = n > 0 && cs[0] == '/';
    let keep: usize = if absolute || (n > 0 && cs[0] == '.' && (n == 1 || cs[1] == '/')) {
        1
    } else {
        0
    };
    assert(keep as int == lead_count(p@));
    assert(pv.take(ps.len() as int) =~= pv);
    let m = trimmed_len(&ps, ps.len(), keep);
    if m > keep {
        assert(pv.take(m as int).drop_last() =~= pv.take(m - 1));
        let m2 = trimmed_len(&ps, m - 1, keep);
        if absolute && m2 == 1 {
            let mut r = String::new();
            r.push('/');
            assert(r@ =~= seq!['/']);
            Some(r)
        } else {
            Some(join_pieces(&ps, m2))
        }
    } else if keep == 1 && !absolute {
        let r = String::new();
        assert(r@ =~= Seq::<char>::empty());
        Some(r)
    } else {
        None
    }
}

/// Whether `s` holds no `/`.
pub open spec fn no_slash(s: Seq<char>) -> bool {
    forall|i: int| 0 <= i < s.len() ==> s[i] != '/'
}

/// Whether `p` is written as the operating system writes canonical paths:
/// the root alone, or an absolute path whose pieces after the root are all
/// components, with no empty piece, no `.` and no trailing `/`.
pub open spec fn is_normal_absolute(p: Seq<char>) -> bool {
    p == seq!['/'] || (is_absolute(p) && forall|k: int|
        1 <= k < split_slash(p).len() ==> part_of_piece(#[trigger] split_slash(p)[k]) is Some)
}

proof fn lemma_pieces_have_no_slash(s: Seq<char>)
    ensures
        forall|k: int| 0 <= k < split_slash(s).len() ==> no_slash(#[trigger] split_slash(s)[k]),
        split_slash(s).len() >= 1,
    decreases s.len(),
{
    if s.len() > 0 {
        lemma_pieces_have_no_slash(s.drop_last());
        let p = split_slash(s.drop_last());
        if s.last() != '/' {
            let q = p.last().push(s.last());
            assert(no_slash(p[p.len() - 1]));
            assert(no_slash(q)) by {
                assert forall|i: int| 0 <= i < q.len() implies q[i] != '/' by {
                    if i < q.len() - 1 {
                        assert(q[i] == p.last()[i]);
                    }
                }
            }
            assert forall|k: int| 0 <= k < split_slash(s).len() implies no_slash(
                #[trigger] split_slash(s)[k],
            ) by {
                if k < p.len() - 1 {
                    assert(split_slash(s)[k] == p[k]);
                }
            }
        } else {
            assert forall|k: int| 0 <= k < split_slash(s).len() implies no_slash(
                #[trigger] split_slash(s)[k],
            ) by {
                if k < p.len() {
                    assert(split_slash(s)[k] == p[k]);
                } else {
                    assert(split_slash(s)[k] == Seq::<char>::empty());
                }
            }
        }
    }
}

proof fn lemma_names_of_pieces(ps: Seq<Seq<char>>)
    requires
        forall|k: int| 0 <= k < ps.len() ==> no_slash(#[trigger] ps[k]),
    ensures
        forall|k: int|
            0 <= k < parts_of_pieces(ps).len() ==> (#[trigger] parts_of_pieces(ps)[k] matches PartView::Normal(n)
                ==> no_slash(n) && part_of_piece(n) == Some(PartView::Normal(n))),
    decreases ps.len(),
{
    if ps.len() > 0 {
        let qs = ps.drop_last();
        assert forall|k: int| 0 <= k < qs.len() implies no_slash(#[trigger] qs[k]) by {
            assert(qs[k] == ps[k]);
        }
        lemma_names_of_pieces(qs);
        let r = parts_of_pieces(qs);
        assert(no_slash(ps[ps.len() - 1]));
        assert forall|k: int| 0 <= k < parts_of_pieces(ps).len() implies (
        #[trigger] parts_of_pieces(ps)[k] matches PartView::Normal(n) ==> no_slash(n) && part_of_piece(n)
            == Some(PartView::Normal(n))) by {
            if k < r.len() {
                assert(parts_of_pieces(ps)[k] == r[k]);
            }
        }
    }
}

/// The file name of a path is a single name: it holds no `/` and is neither
/// empty, `.` nor `..`.
pub proof fn lemma_file_name_is_a_name(s: Seq<char>)
    ensures
        file_name(s) matches Some(f) ==> no_slash(f) && part_of_piece(f) == Some(
            PartView::Normal(f),
        ),
{
    if file_name(s) is Some {
        let c = components(s);
        lemma_pieces_have_no_slash(s);
        lemma_names_of_pieces(split_slash(s));
        let ps = parts_of_pieces(split_slash(s));
        assert(c.last() is Normal);
        if ps.len() == 0 {
            assert(c =~= lead_parts(s));
        } else {
            assert(c.last() == ps[ps.len() - 1]);
        }
    }
}

proof fn lemma_split_after_slash(s: Seq<char>, f: Seq<char>)
    requires
        no_slash(f),
    ensures
        split_slash(s.push('/') + f) == split_slash(s).push(f),
    decreases f.len(),
{
    if f.len() == 0 {
        assert(s.push('/') + f =~= s.push('/'));
        assert(s.push('/').drop_last() =~= s);
        assert(f =~= Seq::<char>::empty());
        assert(split_slash(s.push('/')) == split_slash(s).push(Seq::<char>::empty()));
    } else {
        let g = f.drop_last();
        assert(no_slash(g)) by {
            assert forall|i: int| 0 <= i < g.len() implies g[i] != '/' by {
                assert(g[i] == f[i]);
            }
        }
        lemma_split_after_slash(s, g);
        let t = s.push('/') + f;
        assert(t.drop_last() =~= s.push('/') + g);
        assert(t.last() == f.last());
        assert(f[f.len() - 1] != '/');
        let p = split_slash(s).push(g);
        assert(split_slash(t) == p.update(p.len() - 1, p.last().push(t.last())));
        assert(split_slash(s).push(g).update(split_slash(s).len() as int, g.push(f.last()))
            =~= split_slash(s).push(f)) by {
            assert(g.push(f.last()) =~= f);
        }
    }
}

/// Joining the pieces of a path with `/` gives the path back.
proof fn lemma_join_split(s: Seq<char>)
    ensures
        join_slash(split_slash(s)) == s,
    decreases s.len(),
{
    if s.len() == 0 {
        assert(split_slash(s) == seq![Seq::<char>::empty()]);
    } else {
        let x = s.drop_last();
        lemma_join_split(x);
        lemma_pieces_have_no_slash(x);
        let p = split_slash(x);
        if s.last() == '/' {
            let q = p.push(Seq::<char>::empty());
            assert(q.drop_last() =~= p);
            assert(join_slash(q) =~= x.push('/'));
            assert(x.push('/') =~= s);
        } else {
            let q = p.update(p.len() - 1, p.last().push(s.last()));
            if p.len() == 1 {
                assert(q =~= seq![p[0].push(s.last())]);
                assert(join_slash(q) == p[0].push(s.last()));
                assert(join_slash(p) == p[0]);
                assert(x.push(s.last()) =~= s);
            } else {
                assert(q.drop_last() =~= p.drop_last());
                assert(join_slash(p) == join_slash(p.drop_last()).push('/') + p.last());
                assert(join_slash(q) == join_slash(p.drop_last()).push('/') + p.last().push(s.last()));
                assert(join_slash(q) =~= x.push(s.last()));
                assert(x.push(s.last()) =~= s);
            }
        }
    }
}

/// Joining a single name onto an absolute path adds that name as the last
/// component, and the joined path's file name is the name. Onto a path in
/// canonical form, the joined path's parent is that path again.
pub proof fn lemma_join_name(base: Seq<char>, f: Seq<char>)
    requires
        is_absolute(base),
        no_slash(f),
        part_of_piece(f) == Some(PartView::Normal(f)),
    ensures
        components(join(base, f)) == components(base).push(PartView::Normal(f)),
        file_name(join(base, f)) == Some(f),
        is_normal_absolute(base) ==> parent(join(base, f)) == Some(base),
{
    let j = join(base, f);
    assert(f.len() > 0);
    assert(!is_absolute(f));
    let s = if base.last() == '/' {
        base.drop_last()
    } else {
        base
    };
    assert(j =~= s.push('/') + f);
    lemma_split_after_slash(s, f);
    assert(lead_parts(j) == lead_parts(base)) by {
        assert(j[0] == '/');
    }
    let pieces_j = split_slash(s).push(f);
    assert(pieces_j.drop_last() =~= split_slash(s));
    assert(parts_of_pieces(pieces_j) == parts_of_pieces(split_slash(s)).push(PartView::Normal(f)));
    if base.last() == '/' {
        assert(base =~= s.push('/'));
        assert(base.drop_last() =~= s);
        assert(split_slash(base) == split_slash(s).push(Seq::<char>::empty()));
        let pb = split_slash(s).push(Seq::<char>::empty());
        assert(pb.drop_last() =~= split_slash(s));
        assert(part_of_piece(pb.last()) is None);
        assert(parts_of_pieces(split_slash(base)) == parts_of_pieces(split_slash(s)));
    }
    assert(components(j) =~= components(base).push(PartView::Normal(f)));
    let cj = components(j);
    assert(cj.drop_last() =~= components(base));
    if is_normal_absolute(base) {
        assert(lead_count(j) == 1);
        assert(trim_pieces(pieces_j, 1) == pieces_j);
        lemma_pieces_have_no_slash(s);
        if base == seq!['/'] {
            assert(s =~= Seq::<char>::empty());
            assert(split_slash(s) == seq![Seq::<char>::empty()]);
            assert(trim_pieces(split_slash(s), 1) == split_slash(s));
        } else {
            let ps = split_slash(base);
            lemma_pieces_have_no_slash(base);
            assert(ps.len() >= 2) by {
                if ps.len() == 1 {
                    assert(base[0] == '/');
                    assert(split_slash(base.take(1)) == split_slash(base.take(0)).push(
                        Seq::<char>::empty(),
                    )) by {
                        lemma_split_step(base, 0);
                        assert(base.take(0) =~= Seq::<char>::empty());
                    }
                    lemma_pieces_count_grow(base, 1);
                }
            }
            assert(part_of_piece(ps[ps.len() - 1]) is Some);
            assert(ps.last().len() > 0);
            assert(base.last() != '/') by {
                if base.last() == '/' {
                    assert(base =~= base.drop_last().push('/'));
                    assert(split_slash(base) == split_slash(base.drop_last()).push(Seq::<char>::empty()));
                }
            }
            assert(s == base);
            assert(trim_pieces(ps, 1) == ps);
            lemma_join_split(base);
        }
    }
}

/// A path has at least as many pieces as any of its prefixes.
proof fn lemma_pieces_count_grow(s: Seq<char>, i: int)
    requires
        0 <= i <= s.len(),
    ensures
        split_slash(s.take(i)).len() <= split_slash(s).len(),
    decreases s.len() - i,
{
    if i < s.len() {
        lemma_split_step(s, i);
        lemma_pieces_count_grow(s, i + 1);
    } else {
        assert(s.take(i) =~= s);
    }
}

} // verus!
