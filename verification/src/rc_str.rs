//! A string that parts of a template keep: slicing, splitting and trimming
//! it, and walking through its characters.
//!
//! Byte positions are positions in the string's UTF-8 encoding; they must
//! fall on character boundaries.

use vstd::prelude::*;
use vstd::utf8::{
    encode_utf8, encode_utf8_valid_utf8, is_char_boundary, is_char_boundary_iff_not_is_continuation_byte,
    is_char_boundary_start_end_of_seq, valid_utf8, valid_utf8_split,
};
use crate::filters::{bytes_before, utf8_len};
use crate::text::{chars_to_string, str_to_chars};

verus! {

/// A string.
#[derive(Debug, Clone, PartialEq, Eq)]
pub struct RcStr {
    value: String,
}

impl View for RcStr {
    type V = Seq<char>;

    closed spec fn view(&self) -> Seq<char> {
        self.value@
    }
}

/// The UTF-8 encoding of a string.
pub open spec fn bytes_of(s: Seq<char>) -> Seq<u8> {
    encode_utf8(s)
}

/// A byte position of `s` at which a character starts (or its end).
pub open spec fn boundary(s: Seq<char>, i: int) -> bool {
    is_char_boundary(bytes_of(s), i)
}

proof fn lemma_sub_boundary(b: Seq<u8>, start: int, end: int)
    requires
        valid_utf8(b),
        0 <= start <= end <= b.len(),
        is_char_boundary(b, start),
        is_char_boundary(b, end),
    ensures
        valid_utf8(b.subrange(start, b.len() as int)),
        is_char_boundary(b.subrange(start, b.len() as int), end - start),
{
    valid_utf8_split(b, start);
    let rest = b.subrange(start, b.len() as int);
    if end - start == 0 {
    } else if end == b.len() {
        is_char_boundary_start_end_of_seq(rest);
    } else {
        is_char_boundary_iff_not_is_continuation_byte(b, end);
        is_char_boundary_iff_not_is_continuation_byte(rest, end - start);
        assert(rest[end - start] == b[end]);
    }
}

impl RcStr {
    /// A string holding `s`.
    pub fn from_string(s: String) -> (r: RcStr)
        ensures
            r@ == s@,
    {
        RcStr { value: s }
    }

    /// The string as a slice.
    pub fn as_str(&self) -> (r: &str)
        ensures
            r@ == self@,
    {
        self.value.as_str()
    }

    /// The length in bytes.
    pub fn len(&self) -> (r: usize)
        ensures
            r == bytes_of(self@).len() as usize,
    {
        self.value.as_str().len()
    }

    /// Whether the string is empty.
    pub fn is_empty(&self) -> (r: bool)
        ensures
            r == (self@.len() == 0),
    {
        self.value.as_str().is_empty()
    }

    /// The part between the byte positions `start` and `end`.
    pub fn substr(&self, start: usize, end: usize) -> (r: RcStr)
        requires
            start <= end <= bytes_of(self@).len(),
            boundary(self@, start as int),
            boundary(self@, end as int),
        ensures
            bytes_of(r@) == bytes_of(self@).subrange(start as int, end as int),
    {
        let s = self.value.as_str();
        proof {
            encode_utf8_valid_utf8(self@);
            lemma_sub_boundary(bytes_of(self@), start as int, end as int);
        }
        let (_, rest) = s.split_at(start);
        let (mid, _) = rest.split_at(end - start);
        assert(bytes_of(self@).subrange(start as int, bytes_of(self@).len() as int).subrange(
            0,
            end - start,
        ) =~= bytes_of(self@).subrange(start as int, end as int));
        RcStr { value: mid.to_owned() }
    }

    /// The parts before and after the byte position `mid`.
    pub fn split_at(&self, mid: usize) -> (r: (RcStr, RcStr))
        requires
            mid <= bytes_of(self@).len(),
            boundary(self@, mid as int),
        ensures
            bytes_of(r.0@) == bytes_of(self@).subrange(0, mid as int),
            bytes_of(r.1@) == bytes_of(self@).subrange(mid as int, bytes_of(self@).len() as int),
    {
        let (a, b) = self.value.as_str().split_at(mid);
        (RcStr { value: a.to_owned() }, RcStr { value: b.to_owned() })
    }

    /// The string without the characters at its start for which `p` holds.
    pub fn trim_start_matches<P: Fn(char) -> bool>(&self, p: P) -> (r: RcStr)
        requires
            forall|c: char| call_requires(p, (c,)),
        ensures
            exists|k: int|
                #![trigger self@.subrange(k, self@.len() as int)]
                0 <= k <= self@.len() && r@ == self@.subrange(k, self@.len() as int) && (forall|j: int|
                    0 <= j < k ==> call_ensures(p, (#[trigger] self@[j],), true)) && (k < self@.len()
                    ==> call_ensures(p, (self@[k],), false)),
    {
        let c = str_to_chars(self.value.as_str());
        let mut k: usize = 0;
        while k < c.len()
            invariant_except_break
                k <= c@.len(),
                c@ == self@,
                forall|cc: char| call_requires(p, (cc,)),
                forall|j: int| 0 <= j < k ==> call_ensures(p, (#[trigger] c@[j],), true),
            ensures
                k <= c@.len(),
                c@ == self@,
                forall|j: int| 0 <= j < k ==> call_ensures(p, (#[trigger] c@[j],), true),
                k < c@.len() ==> call_ensures(p, (c@[k as int],), false),
            decreases c.len() - k,
        {
            let keep = p(c[k]);
            if !keep {
                break;
            }
            k = k + 1;
        }
        let rest = sub_chars(&c, k, c.len());
        let r = RcStr { value: chars_to_string(rest.as_slice()) };
        assert(r@ == self@.subrange(k as int, self@.len() as int));
        r
    }

    /// The string without the characters at its end for which `p` holds.
    pub fn trim_end_matches<P: Fn(char) -> bool>(&self, p: P) -> (r: RcStr)
        requires
            forall|c: char| call_requires(p, (c,)),
        ensures
            exists|k: int|
                #![trigger self@.subrange(0, k)]
                0 <= k <= self@.len() && r@ == self@.subrange(0, k) && (forall|j: int|
                    k <= j < self@.len() ==> call_ensures(p, (#[trigger] self@[j],), true)) && (k > 0
                    ==> call_ensures(p, (self@[k - 1],), false)),
    {
        let c = str_to_chars(self.value.as_str());
        let mut k: usize = c.len();
        while k > 0
            invariant_except_break
                k <= c@.len(),
                c@ == self@,
                forall|cc: char| call_requires(p, (cc,)),
                forall|j: int| k <= j < c@.len() ==> call_ensures(p, (#[trigger] c@[j],), true),
            ensures
                k <= c@.len(),
                c@ == self@,
                forall|j: int| k <= j < c@.len() ==> call_ensures(p, (#[trigger] c@[j],), true),
                k > 0 ==> call_ensures(p, (c@[k - 1],), false),
            decreases k,
        {
            let keep = p(c[k - 1]);
            if !keep {
                break;
            }
            k = k - 1;
        }
        let rest = sub_chars(&c, 0, k);
        let r = RcStr { value: chars_to_string(rest.as_slice()) };
        assert(r@ == self@.subrange(0, k as int));
        r
    }
}

fn sub_chars(v: &Vec<char>, lo: usize, hi: usize) -> (r: Vec<char>)
    requires
        lo <= hi <= v@.len(),
    ensures
        r@ == v@.subrange(lo as int, hi as int),
{
    let mut out: Vec<char> = Vec::new();
    let mut k: usize = lo;
    while k < hi
        invariant
            lo <= k <= hi <= v@.len(),
            out@ == v@.subrange(lo as int, k as int),
        decreases hi - k,
    {
        out.push(v[k]);
        k = k + 1;
        assert(out@ =~= v@.subrange(lo as int, k as int));
    }
    out
}

// ---------------------------------------------------------------------------
// Walking through the characters.
// ---------------------------------------------------------------------------

/// The characters of a string, taken from either end.
#[derive(Debug, Clone)]
pub struct RcChars {
    chars: Vec<char>,
    front: usize,
    back: usize,
}

impl RcChars {
    /// The characters not taken yet.
    pub closed spec fn remaining(&self) -> Seq<char> {
        self.chars@.subrange(self.front as int, self.back as int)
    }

    pub closed spec fn wf(&self) -> bool {
        self.front <= self.back <= self.chars@.len()
    }

    /// The characters of `s`.
    pub fn new(s: &RcStr) -> (r: RcChars)
        ensures
            r.wf(),
            r.remaining() == s@,
    {
        let chars = str_to_chars(s.as_str());
        let back = chars.len();
        let r = RcChars { chars, front: 0, back };
        assert(r.remaining() =~= s@);
        r
    }

    /// The first character not taken yet.
    pub fn next(&mut self) -> (r: Option<char>)
        requires
            old(self).wf(),
        ensures
            final(self).wf(),
            old(self).remaining().len() == 0 ==> r is None && final(self).remaining() == old(self).remaining(),
            old(self).remaining().len() > 0 ==> r == Some(old(self).remaining()[0]) && final(self).remaining() == old(self).remaining().drop_first(),
    {
        if self.front < self.back {
            let c = self.chars[self.front];
            self.front = self.front + 1;
            assert(self.remaining() =~= old(self).remaining().drop_first());
            Some(c)
        } else {
            None
        }
    }

    /// The last character not taken yet.
    pub fn next_back(&mut self) -> (r: Option<char>)
        requires
            old(self).wf(),
        ensures
            final(self).wf(),
            old(self).remaining().len() == 0 ==> r is None && final(self).remaining() == old(self).remaining(),
            old(self).remaining().len() > 0 ==> r == Some(old(self).remaining().last()) && final(self).remaining() == old(self).remaining().drop_last(),
    {
        if self.front < self.back {
            self.back = self.back - 1;
            let c = self.chars[self.back];
            assert(self.remaining() =~= old(self).remaining().drop_last());
            Some(c)
        } else {
            None
        }
    }
}

/// The characters of a string with their byte positions, taken from either
/// end.
#[derive(Debug, Clone)]
pub struct RcCharIndices {
    chars: Vec<char>,
    offsets: Vec<usize>,
    front: usize,
    back: usize,
}

impl RcCharIndices {
    /// The characters not taken yet.
    pub closed spec fn remaining(&self) -> Seq<char> {
        self.chars@.subrange(self.front as int, self.back as int)
    }

    /// The byte position of the first character not taken yet.
    pub closed spec fn front_index(&self) -> int {
        self.front as int
    }

    /// The string the characters come from.
    pub closed spec fn source(&self) -> Seq<char> {
        self.chars@
    }

    pub closed spec fn wf(&self) -> bool {
        &&& self.front <= self.back <= self.chars@.len()
        &&& self.offsets@.len() == self.chars@.len()
        &&& forall|k: int| 0 <= k < self.chars@.len() ==> self.offsets@[k] == bytes_before(self.chars@, k)
    }

    /// The characters of `s`, each with the byte position where it starts.
    pub fn new(s: &RcStr) -> (r: Option<RcCharIndices>)
        ensures
            r matches Some(x) ==> x.wf() && x.remaining() == s@ && x.source() == s@,
            r is None ==> bytes_before(s@, s@.len() as int) > usize::MAX,
    {
        let chars = str_to_chars(s.as_str());
        let mut offsets: Vec<usize> = Vec::new();
        let mut acc: usize = 0;
        let mut k: usize = 0;
        while k < chars.len()
            invariant
                k <= chars@.len(),
                chars@ == s@,
                offsets@.len() == k,
                acc == bytes_before(chars@, k as int),
                forall|j: int| 0 <= j < k ==> offsets@[j] == bytes_before(chars@, j),
            decreases chars.len() - k,
        {
            offsets.push(acc);
            let w = char_width(chars[k]);
            proof {
                lemma_bytes_before_mono(chars@, (k + 1) as int, chars@.len() as int);
            }
            if acc > usize::MAX - w {
                return None;
            }
            acc = acc + w;
            k = k + 1;
        }
        let back = chars.len();
        let r = RcCharIndices { chars, offsets, front: 0, back };
        assert(r.remaining() =~= s@);
        Some(r)
    }

    /// The first character not taken yet, with its byte position.
    pub fn next(&mut self) -> (r: Option<(usize, char)>)
        requires
            old(self).wf(),
        ensures
            final(self).wf(),
            final(self).source() == old(self).source(),
            old(self).remaining().len() == 0 ==> r is None && final(self).remaining() == old(self).remaining(),
            old(self).remaining().len() > 0 ==> (r matches Some(p) && p.1 == old(self).remaining()[0]
                && p.0 == bytes_before(old(self).source(), old(self).front_index()) && final(self).remaining() == old(self).remaining().drop_first()),
    {
        if self.front < self.back {
            let i = self.front;
            let c = self.chars[i];
            let o = self.offsets[i];
            self.front = self.front + 1;
            assert(self.remaining() =~= old(self).remaining().drop_first());
            Some((o, c))
        } else {
            None
        }
    }

    /// The last character not taken yet, with its byte position.
    pub fn next_back(&mut self) -> (r: Option<(usize, char)>)
        requires
            old(self).wf(),
        ensures
            final(self).wf(),
            final(self).source() == old(self).source(),
            old(self).remaining().len() == 0 ==> r is None && final(self).remaining() == old(self).remaining(),
            old(self).remaining().len() > 0 ==> (r matches Some(p) && p.1 == old(self).remaining().last() && p.0 == bytes_before(
                old(self).source(),
                old(self).front_index() + old(self).remaining().len() - 1,
            ) && final(self).remaining() == old(self).remaining().drop_last()),
    {
        if self.front < self.back {
            self.back = self.back - 1;
            let i = self.back;
            let c = self.chars[i];
            let o = self.offsets[i];
            assert(self.remaining() =~= old(self).remaining().drop_last());
            Some((o, c))
        } else {
            None
        }
    }
}

fn char_width(c: char) -> (r: usize)
    ensures
        r == utf8_len(c),
{
    if (c as u32) < 0x80 {
        1
    } else if (c as u32) < 0x800 {
        2
    } else if (c as u32) < 0x10000 {
        3
    } else {
        4
    }
}

proof fn lemma_bytes_before_mono(s: Seq<char>, a: int, b: int)
    requires
        0 <= a <= b <= s.len(),
    ensures
        bytes_before(s, a) <= bytes_before(s, b),
    decreases b - a,
{
    if a < b {
        lemma_bytes_before_mono(s, a, b - 1);
    }
}

} // verus!
