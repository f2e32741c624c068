//! Finding and replacing a pattern in text, as `str::matches` and
//! `str::replacen` do.
use vstd::prelude::*;
use crate::text::{byte_len, chars_of};
use vstd::utf8::encode_utf8;

verus! {

/// Number of non-overlapping occurrences of `p` in `t`, found from left to
/// right. The empty pattern occurs before every character and at the end.
pub open spec fn count_matches(t: Seq<char>, p: Seq<char>) -> nat
    decreases t.len(),
{
    if p.len() == 0 {
        t.len() + 1
    } else if t.len() < p.len() {
        0
    } else if t.take(p.len() as int) == p {
        1 + count_matches(t.skip(p.len() as int), p)
    } else {
        count_matches(t.drop_first(), p)
    }
}

/// The position of the first occurrence of `p` in `t`.
pub open spec fn find_match(t: Seq<char>, p: Seq<char>) -> Option<int>
    decreases t.len(),
{
    if t.len() < p.len() {
        None
    } else if t.take(p.len() as int) == p {
        Some(0)
    } else if t.len() == 0 {
        None
    } else {
        match find_match(t.drop_first(), p) {
            Some(i) => Some(i + 1),
            None => None,
        }
    }
}

/// `t` with its first occurrence of `p` replaced by `n`.
pub open spec fn replace_first(t: Seq<char>, p: Seq<char>, n: Seq<char>) -> Seq<char> {
    match find_match(t, p) {
        Some(i) => t.take(i) + n + t.skip(i + p.len()),
        None => t,
    }
}

/// Why a pattern cannot be replaced exactly once.
#[derive(Debug)]
pub enum MatchError {
    /// The pattern does not occur.
    NotFound,
    /// The pattern occurs `count` times.
    Ambiguous { count: usize },
}

/// Whether `p` occurs in `t` at position `i`.
fn matches_at(t: &Vec<char>, p: &Vec<char>, i: usize) -> (r: bool)
    requires
        i + p.len() <= t.len(),
    ensures
        r == (t@.subrange(i as int, i + p.len()) == p@),
{
    let mut j: usize = 0;
    while j < p.len()
        invariant
            i + p.len() <= t.len(),
            j <= p.len(),
            forall|k: int| 0 <= k < j ==> t@[i + k] == p@[k],
        decreases p.len() - j,
    {
        if t[i + j] != p[j] {
            assert(t@.subrange(i as int, i + p.len())[j as int] != p@[j as int]);
            return false;
        }
        j = j + 1;
    }
    assert(t@.subrange(i as int, i + p.len()) =~= p@);
    true
}

proof fn lemma_step_no_match(t: Seq<char>, p: Seq<char>, i: int)
    requires
        p.len() > 0,
        0 <= i,
        i + p.len() <= t.len(),
        t.subrange(i, i + p.len()) != p,
    ensures
        count_matches(t.skip(i), p) == count_matches(t.skip(i + 1), p),
        find_match(t.skip(i), p) == (match find_match(t.skip(i + 1), p) {
            Some(k) => Some(k + 1),
            None => None::<int>,
        }),
{
    assert(t.skip(i).take(p.len() as int) =~= t.subrange(i, i + p.len()));
    assert(t.skip(i).drop_first() =~= t.skip(i + 1));
}

proof fn lemma_step_match(t: Seq<char>, p: Seq<char>, i: int)
    requires
        p.len() > 0,
        0 <= i,
        i + p.len() <= t.len(),
        t.subrange(i, i + p.len()) == p,
    ensures
        count_matches(t.skip(i), p) == 1 + count_matches(t.skip(i + p.len()), p),
        find_match(t.skip(i), p) == Some(0int),
{
    assert(t.skip(i).take(p.len() as int) =~= t.subrange(i, i + p.len()));
    assert(t.skip(i).skip(p.len() as int) =~= t.skip(i + p.len()));
}

proof fn lemma_tail_empty(t: Seq<char>, p: Seq<char>, i: int)
    requires
        p.len() > 0,
        0 <= i <= t.len(),
        i + p.len() > t.len(),
    ensures
        count_matches(t.skip(i), p) == 0,
        find_match(t.skip(i), p) is None,
{
}

/// `contents` with `old` replaced by `new`, when `old` occurs exactly once.
///
/// An empty `old` occurs once more than `contents` has characters; that count
/// must be a `usize`.
pub fn plan_edit(contents: &str, old: &str, new: &str) -> (r: Result<String, MatchError>)
    requires
        contents@.len() < usize::MAX,
    ensures
        match r {
            Ok(s) => count_matches(contents@, old@) == 1 && s@ == replace_first(
                contents@,
                old@,
                new@,
            ),
            Err(MatchError::NotFound) => count_matches(contents@, old@) == 0,
            Err(MatchError::Ambiguous { count }) => count_matches(contents@, old@) > 1
                && count == count_matches(contents@, old@),
        },
{
    let t = chars_of(contents);
    let p = chars_of(old);
    let tl = t.len();
    let pl = p.len();
    if pl == 0 {
        assert(contents@.take(0) =~= old@);
        if tl == 0 {
            let mut r = new.to_owned();
            proof {
                assert(contents@.take(0) + new@ + contents@.skip(0) =~= new@);
            }
            return Ok(r);
        } else {
            return Err(MatchError::Ambiguous { count: tl + 1 });
        }
    }
    let mut count: usize = 0;
    let mut first: Option<usize> = None;
    let mut i: usize = 0;
    assert(t@.skip(0) =~= t@);
    while pl <= tl - i
        invariant
            t@ == contents@,
            p@ == old@,
            tl == t.len(),
            pl == p.len(),
            pl > 0,
            i <= tl,
            count <= i,
            count_matches(t@, p@) == count + count_matches(t@.skip(i as int), p@),
            match first {
                Some(f) => find_match(t@, p@) == Some(f as int),
                None => count == 0 && find_match(t@, p@) == (match find_match(
                    t@.skip(i as int),
                    p@,
                ) {
                    Some(k) => Some(k + i),
                    None => None::<int>,
                }),
            },
            first matches Some(f) ==> count >= 1 && f + pl <= tl,
        decreases tl - i,
    {
        if matches_at(&t, &p, i) {
            proof {
                lemma_step_match(t@, p@, i as int);
            }
            if first.is_none() {
                first = Some(i);
            }
            count = count + 1;
            i = i + pl;
        } else {
            proof {
                lemma_step_no_match(t@, p@, i as int);
            }
            i = i + 1;
        }
    }
    proof {
        lemma_tail_empty(t@, p@, i as int);
    }
    if count == 0 {
        Err(MatchError::NotFound)
    } else if count > 1 {
        Err(MatchError::Ambiguous { count })
    } else {
        match first {
            Some(f) => {
                let mut r = crate::text::string_of_range(&t, 0, f);
                r.push_str(new);
                let tail = crate::text::string_of_range(&t, f + pl, tl);
                r.push_str(tail.as_str());
                proof {
                    assert(t@.subrange(0, f as int) =~= t@.take(f as int));
                    assert(t@.subrange(f + pl, tl as int) =~= t@.skip(f + pl));
                }
                Ok(r)
            },
            None => Err(MatchError::NotFound),
        }
    }
}


proof fn lemma_find_match_found(t: Seq<char>, p: Seq<char>)
    ensures
        find_match(t, p) matches Some(i) ==> 0 <= i && i + p.len() <= t.len() && t.subrange(
            i,
            i + p.len(),
        ) == p,
    decreases t.len(),
{
    if t.len() >= p.len() && t.take(p.len() as int) != p && t.len() > 0 {
        lemma_find_match_found(t.drop_first(), p);
        if let Some(i) = find_match(t.drop_first(), p) {
            assert(t.subrange(i + 1, i + 1 + p.len()) =~= t.drop_first().subrange(i, i + p.len()));
        }
    }
}

proof fn lemma_encode_concat(a: Seq<char>, b: Seq<char>)
    ensures
        encode_utf8(a + b) == encode_utf8(a) + encode_utf8(b),
    decreases a.len(),
{
    if a.len() == 0 {
        assert(a + b =~= b);
        assert(encode_utf8(a) =~= Seq::<u8>::empty());
        assert(encode_utf8(a) + encode_utf8(b) =~= encode_utf8(b));
    } else {
        lemma_encode_concat(a.drop_first(), b);
        assert((a + b).drop_first() =~= a.drop_first() + b);
        assert((a + b)[0] == a[0]);
        assert(encode_utf8(a + b) =~= encode_utf8(a) + encode_utf8(b));
    }
}

proof fn lemma_count_positive_found(t: Seq<char>, p: Seq<char>)
    requires
        count_matches(t, p) > 0,
    ensures
        find_match(t, p) is Some,
    decreases t.len(),
{
    if p.len() == 0 {
        assert(t.take(0) =~= p);
    } else if t.len() >= p.len() && t.take(p.len() as int) != p {
        lemma_count_positive_found(t.drop_first(), p);
    }
}

/// Replacing one occurrence of `p` by `n` changes the UTF-8 size of the text by
/// the difference of their sizes.
pub proof fn lemma_replace_first_byte_len(t: Seq<char>, p: Seq<char>, n: Seq<char>)
    requires
        count_matches(t, p) > 0,
    ensures
        byte_len(replace_first(t, p, n)) + byte_len(p) == byte_len(t) + byte_len(n),
{
    lemma_count_positive_found(t, p);
    lemma_find_match_found(t, p);
    let i = find_match(t, p)->Some_0;
    let pre = t.take(i);
    let post = t.skip(i + p.len());
    assert(t =~= pre + p + post);
    lemma_encode_concat(pre, p);
    lemma_encode_concat(pre + p, post);
    lemma_encode_concat(pre, n);
    lemma_encode_concat(pre + n, post);
}

} // verus!
