//! Small text utilities: a fixed-size text buffer and the C string
//! functions over byte slices.
//!
//! A C string is the bytes of a slice up to its first NUL byte, or the
//! whole slice if it holds none.

use vstd::prelude::*;

verus! {

/// Number of bytes of a [`StrBuf`].
pub const STRBUF_SIZE: usize = 512;

/// Position of the first NUL byte of `s` at or after `from`, or the length
/// of `s` if there is none.
pub open spec fn first_nul_from(s: Seq<u8>, from: int) -> int
    decreases s.len() - from,
{
    if from < 0 || from >= s.len() || s[from] == 0 {
        from
    } else {
        first_nul_from(s, from + 1)
    }
}

/// Length of the C string in `s`.
pub open spec fn c_strlen(s: Seq<u8>) -> int {
    first_nul_from(s, 0)
}

/// The bytes of the C string in `s`, without the NUL byte.
pub open spec fn c_str(s: Seq<u8>) -> Seq<u8> {
    s.take(c_strlen(s))
}

/// The length of a C string is the one position that is in range, has no
/// NUL byte before it and, unless it is the slice's end, holds a NUL byte.
pub proof fn lemma_c_strlen(s: Seq<u8>)
    ensures
        0 <= c_strlen(s) <= s.len(),
        forall|i: int| 0 <= i < c_strlen(s) ==> #[trigger] s[i] != 0,
        c_strlen(s) < s.len() ==> s[c_strlen(s)] == 0,
        c_str(s).len() == c_strlen(s),
{
    lemma_first_nul_from(s, 0);
}

proof fn lemma_first_nul_from(s: Seq<u8>, from: int)
    requires
        0 <= from <= s.len(),
    ensures
        from <= first_nul_from(s, from) <= s.len(),
        forall|i: int| from <= i < first_nul_from(s, from) ==> #[trigger] s[i] != 0,
        first_nul_from(s, from) < s.len() ==> s[first_nul_from(s, from)] == 0,
    decreases s.len() - from,
{
    if from < s.len() && s[from] != 0 {
        lemma_first_nul_from(s, from + 1);
    }
}

/// A position with a NUL byte, or the slice's end, that has no NUL byte
/// before it is the C string's length.
pub proof fn lemma_c_strlen_is(s: Seq<u8>, n: int)
    requires
        0 <= n <= s.len(),
        forall|i: int| 0 <= i < n ==> #[trigger] s[i] != 0,
        n < s.len() ==> s[n] == 0,
    ensures
        c_strlen(s) == n,
{
    lemma_first_nul_reaches(s, 0, n);
}

proof fn lemma_first_nul_reaches(s: Seq<u8>, from: int, n: int)
    requires
        0 <= from <= n <= s.len(),
        forall|i: int| from <= i < n ==> #[trigger] s[i] != 0,
        n < s.len() ==> s[n] == 0,
    ensures
        first_nul_from(s, from) == n,
    decreases n - from,
{
    if from < n {
        assert(s[from] != 0);
        lemma_first_nul_reaches(s, from + 1, n);
    }
}

/// Length of the C string in `s`.
pub fn strlen(s: &[u8]) -> (len: usize)
    ensures
        len == c_strlen(s@),
{
    let mut i: usize = 0;
    while i < s.len() && s[i] != 0
        invariant
            i <= s.len(),
            forall|k: int| 0 <= k < i ==> #[trigger] s@[k] != 0,
        decreases s.len() - i,
    {
        i = i + 1;
    }
    proof {
        lemma_c_strlen_is(s@, i as int);
    }
    i
}

/// Whether two C strings hold the same bytes.
pub fn c_str_eq(str1: &[u8], str2: &[u8]) -> (same: bool)
    ensures
        same == (c_str(str1@) == c_str(str2@)),
{
    let len1 = strlen(str1);
    let len2 = strlen(str2);
    proof {
        lemma_c_strlen(str1@);
        lemma_c_strlen(str2@);
    }
    if len1 != len2 {
        return false;
    }
    let mut i: usize = 0;
    while i < len1
        invariant
            i <= len1,
            len1 == len2,
            len1 == c_strlen(str1@),
            len2 == c_strlen(str2@),
            len1 <= str1.len(),
            len2 <= str2.len(),
            forall|k: int| 0 <= k < i ==> str1@[k] == str2@[k],
        decreases len1 - i,
    {
        if str1[i] != str2[i] {
            proof {
                assert(c_str(str1@)[i as int] != c_str(str2@)[i as int]);
            }
            return false;
        }
        i = i + 1;
    }
    proof {
        assert(c_str(str1@) =~= c_str(str2@));
    }
    true
}

/// Compares two C strings: zero if they hold the same bytes, one if they
/// differ. The result does not order the strings.
pub fn strcmp(str1: &[u8], str2: &[u8]) -> (order: i32)
    ensures
        c_str(str1@) == c_str(str2@) ==> order == 0,
        c_str(str1@) != c_str(str2@) ==> order == 1,
{
    if c_str_eq(str1, str2) {
        0
    } else {
        1
    }
}

/// How many bytes of text a copy into `n` bytes takes from the C string in
/// `src`: all of it if a NUL byte still fits behind it, else `n - 1` bytes.
pub open spec fn copied_len(src: Seq<u8>, n: nat) -> int {
    if c_strlen(src) < n {
        c_strlen(src)
    } else {
        n - 1
    }
}

/// Copies the C string in `src` into the first `n` bytes of `dest`, cut
/// short where it is longer than `n - 1` bytes, and ends it with a NUL byte.
/// With `n` zero nothing is written. The rest of `dest` stays as it was.
pub fn strncpy(dest: &mut Vec<u8>, src: &[u8], n: u32)
    requires
        n <= old(dest).len(),
    ensures
        final(dest).len() == old(dest).len(),
        n == 0 ==> final(dest)@ == old(dest)@,
        n > 0 ==> final(dest)@ == src@.take(copied_len(src@, n as nat)).push(0u8) + old(dest)@.skip(copied_len(src@, n as nat) + 1),
{
    if n == 0 {
        return ;
    }
    let len = strlen(src);
    proof {
        lemma_c_strlen(src@);
    }
    let count: usize = if len < n as usize {
        len
    } else {
        (n - 1) as usize
    };
    let mut i: usize = 0;
    while i < count
        invariant
            i <= count,
            count < n,
            n <= dest.len(),
            count <= src.len(),
            dest.len() == old(dest).len(),
            dest@ == src@.take(i as int) + old(dest)@.skip(i as int),
        decreases count - i,
    {
        dest.set(i, src[i]);
        i = i + 1;
        assert(dest@ =~= src@.take(i as int) + old(dest)@.skip(i as int));
    }
    dest.set(count, 0u8);
    assert(dest@ =~= src@.take(count as int).push(0u8) + old(dest)@.skip(count + 1));
}

/// The byte that stands for `c` in a text buffer: its code's low eight bits.
pub open spec fn char_byte(c: char) -> u8 {
    c as u8
}

/// The bytes that stand for the characters of `text`.
pub open spec fn text_bytes(text: Seq<char>) -> Seq<u8> {
    Seq::new(text.len(), |i: int| char_byte(text[i]))
}

/// A text buffer of [`STRBUF_SIZE`] bytes.
pub struct StrBuf {
    buffer: [u8; 512],
    len: usize,
}

impl StrBuf {
    /// The representation invariant: the text fits the buffer.
    pub closed spec fn wf(&self) -> bool {
        self.len <= STRBUF_SIZE
    }

    /// The bytes of the text.
    pub closed spec fn view(&self) -> Seq<u8> {
        self.buffer@.take(self.len as int)
    }

    /// An empty buffer.
    pub fn new() -> (buf: StrBuf)
        ensures
            buf.wf(),
            buf@ == Seq::<u8>::empty(),
    {
        StrBuf { buffer: [0u8; 512], len: 0 }
    }

    /// A buffer that holds the C string in `c_str`. Text that is too long
    /// for the buffer is fatal, so callers rule it out.
    pub fn from(c_str: &[u8]) -> (buf: StrBuf)
        requires
            c_strlen(c_str@) <= STRBUF_SIZE,
        ensures
            buf.wf(),
            buf@ == self::c_str(c_str@),
    {
        let mut res = StrBuf::new();
        res.append_from(c_str);
        assert(Seq::<u8>::empty() + self::c_str(c_str@) =~= self::c_str(c_str@));
        res
    }

    /// Appends the C string in `c_str`.
    pub fn append_from(&mut self, c_str: &[u8])
        requires
            old(self).wf(),
            old(self)@.len() + c_strlen(c_str@) <= STRBUF_SIZE,
        ensures
            final(self).wf(),
            final(self)@ == old(self)@ + self::c_str(c_str@),
    {
        let count = strlen(c_str);
        proof {
            lemma_c_strlen(c_str@);
        }
        let mut src_idx: usize = 0;
        while src_idx < count
            invariant
                src_idx <= count,
                count <= c_str.len(),
                self.wf(),
                self.len == old(self).len + src_idx,
                old(self).len + count <= STRBUF_SIZE,
                self@ == old(self)@ + c_str@.take(src_idx as int),
            decreases count - src_idx,
        {
            let ghost prior = self@;
            self.buffer[self.len] = c_str[src_idx];
            self.len = self.len + 1;
            src_idx = src_idx + 1;
            assert(self@ =~= prior.push(c_str@[src_idx - 1]));
            assert(self@ =~= old(self)@ + c_str@.take(src_idx as int));
        }
    }

    /// Appends `s`, one byte for each of its characters.
    pub fn append(&mut self, s: &str)
        requires
            old(self).wf(),
            old(self)@.len() + s@.len() <= STRBUF_SIZE,
        ensures
            final(self).wf(),
            final(self)@ == old(self)@ + text_bytes(s@),
    {
        let count = s.unicode_len();
        let mut i: usize = 0;
        while i < count
            invariant
                i <= count,
                count == s@.len(),
                self.wf(),
                self.len == old(self).len + i,
                old(self).len + count <= STRBUF_SIZE,
                self@ == old(self)@ + text_bytes(s@).take(i as int),
            decreases count - i,
        {
            let c = s.get_char(i);
            let ghost prior = self@;
            self.buffer[self.len] = #[verifier::truncate]
            (c as u8);
            self.len = self.len + 1;
            i = i + 1;
            assert(self@ =~= prior.push(char_byte(c)));
            assert(self@ =~= old(self)@ + text_bytes(s@).take(i as int));
        }
        assert(text_bytes(s@).take(count as int) =~= text_bytes(s@));
    }

    /// Appends the byte that stands for `c`.
    pub fn append_char(&mut self, c: char)
        requires
            old(self).wf(),
            old(self)@.len() < STRBUF_SIZE,
        ensures
            final(self).wf(),
            final(self)@ == old(self)@.push(char_byte(c)),
    {
        self.buffer[self.len] = #[verifier::truncate]
        (c as u8);
        self.len = self.len + 1;
        assert(self@ =~= old(self)@.push(char_byte(c)));
    }

    /// Appends one byte.
    pub fn append_byte(&mut self, b: u8)
        requires
            old(self).wf(),
            old(self)@.len() < STRBUF_SIZE,
        ensures
            final(self).wf(),
            final(self)@ == old(self)@.push(b),
    {
        self.buffer[self.len] = b;
        self.len = self.len + 1;
        assert(self@ =~= old(self)@.push(b));
    }

    /// Number of bytes of text.
    pub fn len(&self) -> (len: usize)
        requires
            self.wf(),
        ensures
            len == self@.len(),
    {
        self.len
    }

    /// The bytes of the text.
    pub fn as_bytes(&self) -> (bytes: Vec<u8>)
        requires
            self.wf(),
        ensures
            bytes@ == self@,
    {
        let mut bytes: Vec<u8> = Vec::new();
        let mut i: usize = 0;
        while i < self.len
            invariant
                i <= self.len,
                self.wf(),
                bytes@ == self@.take(i as int),
            decreases self.len - i,
        {
            bytes.push(self.buffer[i]);
            i = i + 1;
            assert(bytes@ =~= self@.take(i as int));
        }
        assert(self@.take(self.len as int) =~= self@);
        bytes
    }
}

} // verus!
