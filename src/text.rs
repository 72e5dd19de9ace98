use vstd::prelude::*;
use vstd::std_specs::iter::IteratorSpec;
use vstd::string::StringSliceAdditionalSpecFns;
use vstd::utf8::*;

verus! {

/// The pieces of `s` between line feeds: `s` cut at every `'\n'`, which
/// itself belongs to no piece. A text with `k` line feeds has `k + 1`
/// pieces; the last one is empty when `s` is empty or ends in `'\n'`.
pub open spec fn pieces(s: Seq<char>) -> Seq<Seq<char>>
    decreases s.len(),
{
    if s.len() == 0 {
        seq![Seq::<char>::empty()]
    } else {
        let p = pieces(s.drop_last());
        if s.last() == '\n' {
            p.push(Seq::<char>::empty())
        } else {
            p.update(p.len() - 1, p.last().push(s.last()))
        }
    }
}

/// `l` without its last character when that is a carriage return.
pub open spec fn strip_cr(l: Seq<char>) -> Seq<char> {
    if l.len() > 0 && l.last() == '\r' {
        l.drop_last()
    } else {
        l
    }
}

/// The lines of `s`: its pieces between line feeds, each without a
/// trailing carriage return. A line feed at the very end closes the last
/// line and opens no empty one, so an empty text has no lines.
pub open spec fn lines(s: Seq<char>) -> Seq<Seq<char>> {
    let p = pieces(s);
    let p = if p.last().len() == 0 {
        p.drop_last()
    } else {
        p
    };
    p.map_values(|l: Seq<char>| strip_cr(l))
}

/// The characters of each string of `v`, in order.
pub open spec fn views<'a>(v: Seq<&'a str>) -> Seq<Seq<char>> {
    v.map_values(|l: &'a str| l@)
}

/// The UTF-8 encoding of a concatenation is the concatenation of the
/// encodings.
proof fn lemma_encode_concat(a: Seq<char>, b: Seq<char>)
    ensures
        encode_utf8(a + b) == encode_utf8(a) + encode_utf8(b),
    decreases a.len(),
{
    if a.len() == 0 {
        assert(a + b =~= b);
        assert(encode_utf8(a) + encode_utf8(b) =~= encode_utf8(b));
    } else {
        lemma_encode_concat(a.drop_first(), b);
        assert((a + b).drop_first() =~= a.drop_first() + b);
        assert((a + b)[0] == a[0]);
        assert(encode_utf8(a + b) =~= encode_utf8(a) + encode_utf8(b));
    }
}

/// The end of the encoding of a prefix is a character boundary of the
/// encoding of the whole.
proof fn lemma_prefix_boundary(a: Seq<char>, b: Seq<char>)
    ensures
        valid_utf8(encode_utf8(a + b)),
        is_char_boundary(encode_utf8(a + b), encode_utf8(a).len() as int),
    decreases a.len(),
{
    let bytes = encode_utf8(a + b);
    encode_utf8_valid_utf8(a + b);
    lemma_encode_concat(a, b);
    if a.len() > 0 {
        let rest = a.drop_first() + b;
        assert((a + b).drop_first() =~= rest);
        assert((a + b)[0] == a[0]);
        encode_utf8_first_scalar(a + b);
        lemma_prefix_boundary(a.drop_first(), b);
        assert(pop_first_scalar(bytes) =~= encode_utf8(rest));
    }
}

/// A string slice is determined by its bytes.
proof fn lemma_view_from_bytes(t: &str, x: Seq<char>)
    requires
        t.spec_bytes() == encode_utf8(x),
    ensures
        t@ == x,
{
    encode_utf8_decode_utf8(t@);
    encode_utf8_decode_utf8(x);
}

/// Encoding one more character adds its width in bytes.
proof fn lemma_encode_take_succ(s: Seq<char>, i: int)
    requires
        0 <= i < s.len(),
    ensures
        encode_utf8(s.take(i + 1)) == encode_utf8(s.take(i)) + encode_scalar(s[i] as u32),
{
    let one = seq![s[i]];
    lemma_encode_concat(s.take(i), one);
    assert(s.take(i + 1) =~= s.take(i) + one);
    assert(one.drop_first() =~= Seq::<char>::empty());
    assert(encode_utf8(one.drop_first()) =~= Seq::<u8>::empty());
    assert(encode_utf8(one) =~= encode_scalar(s[i] as u32));
}

/// A prefix encodes to no more bytes than the whole.
proof fn lemma_encode_take_len(s: Seq<char>, i: int)
    requires
        0 <= i <= s.len(),
    ensures
        encode_utf8(s.take(i)).len() <= encode_utf8(s).len(),
{
    lemma_encode_concat(s.take(i), s.skip(i));
    assert(s =~= s.take(i) + s.skip(i));
}

/// The number of bytes in the UTF-8 encoding of `c`.
fn utf8_width(c: char) -> (w: usize)
    ensures
        w == encode_scalar(c as u32).len(),
        1 <= w <= 4,
{
    proof {
        char_is_scalar(c);
    }
    let v = c as u32;
    if v <= 0x7f {
        1
    } else if v <= 0x7ff {
        2
    } else if v <= 0xffff {
        3
    } else {
        4
    }
}

/// The characters of `s` from index `from` up to index `to`, cut out at the
/// byte offsets `b_from` and `b_to` where those characters begin.
fn slice_at<'a>(s: &'a str, Ghost(from): Ghost<int>, Ghost(to): Ghost<int>, b_from: usize, b_to: usize) -> (r: &'a str)
    requires
        0 <= from <= to <= s@.len(),
        b_from == encode_utf8(s@.take(from)).len(),
        b_to == encode_utf8(s@.take(to)).len(),
    ensures
        r@ == s@.subrange(from, to),
{
    let ghost head = s@.take(from);
    let ghost tail = s@.skip(from);
    let ghost mid = s@.subrange(from, to);
    proof {
        assert(s@ =~= head + tail);
        lemma_prefix_boundary(head, tail);
        lemma_encode_concat(head, tail);
        assert(s@.take(to) =~= head + mid);
        lemma_encode_concat(head, mid);
    }
    let (_, rest) = s.split_at(b_from);
    proof {
        assert(rest.spec_bytes() =~= encode_utf8(tail));
        lemma_view_from_bytes(rest, tail);
        assert(tail =~= mid + tail.skip(to - from));
        lemma_prefix_boundary(mid, tail.skip(to - from));
        lemma_encode_concat(mid, tail.skip(to - from));
    }
    let (r, _) = rest.split_at(b_to - b_from);
    proof {
        assert(r.spec_bytes() =~= encode_utf8(mid));
        lemma_view_from_bytes(r, mid);
    }
    r
}

/// The lines of `s`, each one a slice of `s` itself, in order.
pub fn split_lines<'a>(s: &'a str) -> (r: Vec<&'a str>)
    ensures
        views(r@) == lines(s@),
{
    let ghost chars = s@;
    let total = s.as_bytes().len();
    let mut out: Vec<&'a str> = Vec::new();
    let mut it = s.chars();
    let ghost mut i: int = 0;
    let ghost mut start_i: int = 0;
    let ghost mut done: Seq<Seq<char>> = Seq::empty();
    let mut pos: usize = 0;
    let mut start: usize = 0;
    let mut prev_cr: bool = false;
    proof {
        assert(chars.take(0) =~= Seq::<char>::empty());
        assert(pieces(chars.take(0)) =~= done.push(chars.subrange(0, 0)));
        assert(views(out@) =~= done.map_values(|l: Seq<char>| strip_cr(l)));
    }
    loop
        invariant
            0 <= start_i <= i <= chars.len(),
            chars == s@,
            it.remaining() == chars.skip(i),
            total == encode_utf8(chars).len(),
            pos == encode_utf8(chars.take(i)).len(),
            start == encode_utf8(chars.take(start_i)).len(),
            start <= pos,
            (start < pos) == (start_i < i),
            pieces(chars.take(i)) == done.push(chars.subrange(start_i, i)),
            views(out@) == done.map_values(|l: Seq<char>| strip_cr(l)),
            prev_cr == (start_i < i && chars[i - 1] == '\r'),
            prev_cr ==> pos >= 1 && encode_utf8(chars.take(i - 1)).len() == pos - 1,
        ensures
            i == chars.len(),
        decreases chars.len() - i,
    {
        match it.next() {
            Some(c) => {
                let ghost sub = chars.subrange(start_i, i);
                proof {
                    lemma_encode_take_succ(chars, i);
                    lemma_encode_take_len(chars, i + 1);
                    assert(chars.take(i + 1).drop_last() =~= chars.take(i));
                    assert(chars.take(i + 1).last() == c);
                    assert(pieces(chars.take(i)).last() == sub);
                }
                if c == '\n' {
                    let ghost end_i = if prev_cr {
                        i - 1
                    } else {
                        i
                    };
                    let end = if prev_cr {
                        pos - 1
                    } else {
                        pos
                    };
                    let line = slice_at(s, Ghost(start_i), Ghost(end_i), start, end);
                    let ghost before = out@;
                    out.push(line);
                    proof {
                        assert(strip_cr(sub) =~= chars.subrange(start_i, end_i));
                        done = done.push(sub);
                        assert(views(out@) =~= views(before).push(line@));
                        assert(views(out@) =~= done.map_values(|l: Seq<char>| strip_cr(l)));
                        i = i + 1;
                        start_i = i;
                        assert(chars.subrange(start_i, i) =~= Seq::<char>::empty());
                        assert(pieces(chars.take(i)) =~= done.push(chars.subrange(start_i, i)));
                    }
                    pos = pos + 1;
                    start = pos;
                    prev_cr = false;
                } else {
                    let w = utf8_width(c);
                    pos = pos + w;
                    proof {
                        assert(sub.push(c) =~= chars.subrange(start_i, i + 1));
                        assert(pieces(chars.take(i + 1)) =~= done.push(chars.subrange(start_i, i + 1)));
                        i = i + 1;
                    }
                    prev_cr = c == '\r';
                }
            },
            None => {
                break;
            },
        }
    }
    proof {
        assert(chars.take(i) =~= chars);
    }
    if start < pos {
        let ghost end_i = if prev_cr {
            i - 1
        } else {
            i
        };
        let end = if prev_cr {
            pos - 1
        } else {
            pos
        };
        let line = slice_at(s, Ghost(start_i), Ghost(end_i), start, end);
        let ghost before = out@;
        out.push(line);
        proof {
            let sub = chars.subrange(start_i, i);
            assert(strip_cr(sub) =~= chars.subrange(start_i, end_i));
            assert(views(out@) =~= views(before).push(line@));
            assert(views(out@) =~= lines(chars));
        }
    } else {
        proof {
            assert(pieces(chars).drop_last() =~= done);
        }
    }
    out
}

/// `needle` occurs in `hay` starting at index `i`.
pub open spec fn occurs_at(hay: Seq<char>, needle: Seq<char>, i: int) -> bool {
    0 <= i && i + needle.len() <= hay.len() && hay.subrange(i, i + needle.len()) == needle
}

/// `hay` holds `needle` as a run of consecutive characters. Every text
/// contains the empty one.
pub open spec fn contains(hay: Seq<char>, needle: Seq<char>) -> bool {
    exists|i: int| occurs_at(hay, needle, i)
}

/// The characters of `s`, in order.
pub fn chars_of(s: &str) -> (r: Vec<char>)
    ensures
        r@ == s@,
{
    let mut out: Vec<char> = Vec::new();
    let mut it = s.chars();
    loop
        invariant
            it.remaining() == s@.skip(out.len() as int),
            out@ == s@.take(out.len() as int),
            out.len() <= s@.len(),
        ensures
            out@ == s@,
        decreases s@.len() - out.len(),
    {
        match it.next() {
            Some(c) => {
                out.push(c);
            },
            None => {
                assert(s@ =~= s@.take(out.len() as int));
                break;
            },
        }
    }
    out
}

/// Whether `needle` occurs in `hay` starting at index `i`.
fn occurs_at_index(hay: &Vec<char>, needle: &Vec<char>, i: usize) -> (r: bool)
    requires
        i + needle.len() <= hay.len(),
    ensures
        r == occurs_at(hay@, needle@, i as int),
{
    let mut j: usize = 0;
    while j < needle.len()
        invariant
            j <= needle.len(),
            i + needle.len() <= hay.len(),
            forall|k: int| 0 <= k < j ==> hay@[i + k] == needle@[k],
        decreases needle.len() - j,
    {
        if hay[i + j] != needle[j] {
            assert(hay@.subrange(i as int, i + needle.len())[j as int] != needle@[j as int]);
            return false;
        }
        j = j + 1;
    }
    assert(hay@.subrange(i as int, i + needle.len()) =~= needle@);
    true
}

/// Whether `hay` contains `needle` as a run of consecutive characters.
pub fn contains_str(hay: &str, needle: &str) -> (r: bool)
    ensures
        r == contains(hay@, needle@),
{
    let h = chars_of(hay);
    let n = chars_of(needle);
    if n.len() > h.len() {
        return false;
    }
    let last = h.len() - n.len();
    let mut i: usize = 0;
    loop
        invariant
            i <= last,
            last + n.len() == h.len(),
            h@ == hay@,
            n@ == needle@,
            forall|k: int| 0 <= k < i ==> !occurs_at(h@, n@, k),
        decreases last - i,
    {
        if occurs_at_index(&h, &n, i) {
            return true;
        }
        if i == last {
            return false;
        }
        i = i + 1;
    }
}

} // verus!
