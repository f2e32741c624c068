//! Character-level text helpers shared by the rest of the library.
use vstd::prelude::*;
use vstd::utf8::{decode_utf8, encode_utf8, is_char_boundary};

verus! {

broadcast use vstd::utf8::encode_utf8_decode_utf8;

/// `String::push` appends one character.
pub assume_specification[ String::push ](s: &mut String, ch: char)
    ensures
        final(s)@ == old(s)@.push(ch),
;

/// `String::push_str` appends the characters of a string slice.
pub assume_specification[ String::push_str ](s: &mut String, string: &str)
    ensures
        final(s)@ == old(s)@ + string@,
;

/// Number of bytes of the UTF-8 encoding of `s`, which is what `str::len` reports.
pub open spec fn byte_len(s: Seq<char>) -> nat {
    encode_utf8(s).len()
}

/// Whether the UTF-8 encoding of `s` is short enough for its length to be a `usize`.
pub open spec fn fits(s: Seq<char>) -> bool {
    byte_len(s) <= usize::MAX
}

/// The byte length of `s`, as `str::len` reports it.
pub fn text_len(s: &str) -> (n: usize)
    requires
        fits(s@),
    ensures
        n == byte_len(s@),
{
    s.len()
}

/// The text of the first `n` bytes of the UTF-8 encoding of `s`.
pub open spec fn byte_prefix(s: Seq<char>, n: int) -> Seq<char> {
    decode_utf8(encode_utf8(s).take(n))
}

/// The ASCII digit for `d < 10`.
pub open spec fn digit_char(d: nat) -> char {
    ((48 + d) as u8) as char
}

/// Decimal rendering of a natural number, without leading zeros.
pub open spec fn decimal(n: nat) -> Seq<char>
    decreases n,
{
    if n < 10 {
        seq![digit_char(n)]
    } else {
        decimal(n / 10).push(digit_char(n % 10))
    }
}

/// The characters of `s`, in order.
pub fn chars_of(s: &str) -> (v: Vec<char>)
    ensures
        v@ == s@,
{
    let mut v: Vec<char> = Vec::new();
    for c in it: s.chars()
        invariant
            v@ == it.seq().take(it.index() as int),
            it.seq() == s@,
    {
        v.push(c);
    }
    v
}

/// A string holding the characters `v[from..to]`.
pub fn string_of_range(v: &Vec<char>, from: usize, to: usize) -> (s: String)
    requires
        from <= to <= v.len(),
    ensures
        s@ == v@.subrange(from as int, to as int),
{
    let mut s = String::new();
    let mut i = from;
    while i < to
        invariant
            from <= i <= to <= v.len(),
            s@ == v@.subrange(from as int, i as int),
        decreases to - i,
    {
        s.push(v[i]);
        i = i + 1;
    }
    s
}

/// A string holding the characters of `v`.
pub fn string_of(v: &Vec<char>) -> (s: String)
    ensures
        s@ == v@,
{
    let s = string_of_range(v, 0, v.len());
    assert(v@.subrange(0, v@.len() as int) =~= v@);
    s
}

/// Appends the decimal rendering of `n` to `s`.
pub fn push_decimal(s: &mut String, n: u64)
    ensures
        final(s)@ == old(s)@ + decimal(n as nat),
    decreases n,
{
    if n >= 10 {
        push_decimal(s, n / 10);
    }
    let d: u8 = (n % 10) as u8;
    let c: char = (48u8 + d) as char;
    s.push(c);
    proof {
        if n < 10 {
            assert(decimal(n as nat) == seq![digit_char(n as nat)]);
        }
        assert(old(s)@ + decimal(n as nat) =~= old(s)@ + decimal(n as nat));
    }
}

/// The decimal rendering of `n`.
pub fn decimal_string(n: u64) -> (s: String)
    ensures
        s@ == decimal(n as nat),
{
    let mut s = String::new();
    push_decimal(&mut s, n);
    assert(Seq::<char>::empty() + decimal(n as nat) =~= decimal(n as nat));
    s
}

/// What `truncate` returns: `s` itself when its UTF-8 encoding fits in `max`
/// bytes, else its first `max` bytes followed by a note of how many bytes were cut.
pub open spec fn truncated(s: Seq<char>, max: nat) -> Seq<char> {
    if byte_len(s) <= max {
        s
    } else {
        byte_prefix(s, max as int) + "...("@ + decimal((byte_len(s) - max) as nat)
            + " more chars)"@
    }
}

/// Shortens `s` to `max` bytes for display, noting how many bytes were left out.
pub fn truncate(s: &str, max: usize) -> (r: String)
    requires
        byte_len(s@) <= usize::MAX,
        byte_len(s@) <= max || is_char_boundary(encode_utf8(s@), max as int),
    ensures
        r@ == truncated(s@, max as nat),
{
    let len = s.len();
    if len <= max {
        s.to_owned()
    } else {
        let (head, _tail) = s.split_at(max);
        let mut r = head.to_owned();
        proof {
            assert(encode_utf8(head@) =~= encode_utf8(s@).take(max as int));
            assert(head@ == decode_utf8(encode_utf8(head@)));
            assert(r@ == byte_prefix(s@, max as int));
        }
        r.push_str("...(");
        push_decimal(&mut r, (len - max) as u64);
        r.push_str(" more chars)");
        assert(((len - max) as u64) as nat == (byte_len(s@) - max) as nat);
        r
    }
}

} // verus!
