//! The string area behind a formatted area, and the table of strings it holds.
//!
//! A string area is a sequence of runs of bytes, each closed by a NUL, and one
//! more NUL behind the last run: the area ends with the first pair of
//! consecutive NUL bytes. An area without strings is that pair alone.

use vstd::prelude::*;
use crate::error::DecodeError;

verus! {

/// Position of the first NUL byte of `s` at or after `from`, or the end of
/// `s` where no NUL follows.
pub open spec fn run_end(s: Seq<u8>, from: int) -> int
    decreases s.len() - from,
{
    if from < 0 || from >= s.len() || s[from] == 0 {
        from
    } else {
        run_end(s, from + 1)
    }
}

/// The bytes of `s` from `from` on, cut into runs at every NUL. The last run
/// may lack its NUL; nothing follows a NUL that ends `s`.
pub open spec fn split_runs(s: Seq<u8>, from: int) -> Seq<Seq<u8>>
    decreases s.len() - from + 1,
    via split_runs_decreases
{
    if from < 0 || from >= s.len() {
        Seq::empty()
    } else {
        seq![s.subrange(from, run_end(s, from))] + split_runs(s, run_end(s, from) + 1)
    }
}

#[via_fn]
proof fn split_runs_decreases(s: Seq<u8>, from: int) {
    if 0 <= from < s.len() {
        lemma_run_end(s, from);
    }
}

/// Position of the first pair of consecutive NUL bytes of `buf` at or after
/// `from`, or the length of `buf` where no such pair follows.
pub open spec fn end_marker(buf: Seq<u8>, from: int) -> int
    decreases buf.len() - from,
{
    if from < 0 || from + 1 >= buf.len() {
        buf.len() as int
    } else if buf[from] == 0 && buf[from + 1] == 0 {
        from
    } else {
        end_marker(buf, from + 1)
    }
}

/// The string area that `buf` holds from `start` on: the strings in it and the
/// number of bytes it takes up.
///
/// The area runs up to and including the first pair of consecutive NUL bytes;
/// the bytes before the pair are cut into strings at every NUL. Where the
/// buffer ends before such a pair, the area is all that is left, and a last
/// run without its NUL still counts as a string. An area without any NUL is
/// truncated, and so is one that starts at or behind the end of the buffer.
pub open spec fn spec_string_area(buf: Seq<u8>, start: int) -> Result<
    (Seq<Seq<u8>>, int),
    DecodeError,
> {
    let marker = end_marker(buf, start);
    if start < 0 || start >= buf.len() || run_end(buf, start) >= buf.len() {
        Err(DecodeError::TruncatedStrings)
    } else if marker < buf.len() {
        Ok((split_runs(buf.subrange(start, marker), 0), marker + 2 - start))
    } else if buf.last() == 0 {
        Ok((split_runs(buf.subrange(start, buf.len() - 1), 0), buf.len() - start))
    } else {
        Ok((split_runs(buf.subrange(start, buf.len() as int), 0), buf.len() - start))
    }
}

/// Each byte read as the character with the same code point (ISO 8859-1).
pub open spec fn latin1(bytes: Seq<u8>) -> Seq<char> {
    Seq::new(bytes.len(), |i: int| bytes[i] as char)
}

/// Contract of the standard library's `String::push`, taken from its
/// documentation and not proved here: after the call the string is what it
/// was before, with `ch` appended.
pub assume_specification[ String::push ](s: &mut String, ch: char)
    ensures
        final(s)@ == old(s)@.push(ch),
;

/// Decodes a run of bytes as ISO 8859-1 text.
pub fn latin1_string(bytes: &[u8]) -> (text: String)
    ensures
        text@ == latin1(bytes@),
{
    let mut text = String::new();
    let mut i: usize = 0;
    while i < bytes.len()
        invariant
            i <= bytes.len(),
            text@ == latin1(bytes@.take(i as int)),
        decreases bytes.len() - i,
    {
        text.push(bytes[i] as char);
        i += 1;
        assert(latin1(bytes@.take(i as int)) =~= latin1(bytes@.take(i - 1)).push(
            bytes@[i - 1] as char,
        ));
    }
    assert(bytes@.take(i as int) =~= bytes@);
    text
}

/// Position of the first NUL byte at or after `from`.
fn find_nul(buf: &[u8], from: usize) -> (end: usize)
    requires
        from <= buf.len(),
    ensures
        end == run_end(buf@, from as int),
        from <= end <= buf.len(),
{
    let mut i: usize = from;
    while i < buf.len() && buf[i] != 0
        invariant
            from <= i <= buf.len(),
            run_end(buf@, from as int) == run_end(buf@, i as int),
        decreases buf.len() - i,
    {
        i += 1;
    }
    i
}

/// Position of the first pair of consecutive NUL bytes at or after `from`.
fn find_end_marker(buf: &[u8], from: usize) -> (at: usize)
    requires
        from <= buf.len(),
    ensures
        at == end_marker(buf@, from as int),
        from <= at <= buf.len(),
        at < buf.len() ==> at + 2 <= buf.len(),
{
    let len: usize = buf.len();
    let mut i: usize = from;
    while i < len && len - i >= 2
        invariant
            len == buf.len(),
            from <= i <= len,
            end_marker(buf@, from as int) == end_marker(buf@, i as int),
        decreases len - i,
    {
        if buf[i] == 0 && buf[i + 1] == 0 {
            return i;
        }
        i += 1;
    }
    len
}

/// The strings of one structure, borrowed from the table's buffer.
///
/// The table keeps the bytes of the string area without the NUL pair that
/// closes it, and cuts them into strings when asked. Strings are addressed by
/// a 1-based index; index 0 stands for "no string".
#[derive(Clone, Copy, Debug)]
pub struct StringTable<'a> {
    area: &'a [u8],
}

impl<'a> View for StringTable<'a> {
    type V = Seq<Seq<u8>>;

    /// The strings in order, each as its bytes.
    open spec fn view(&self) -> Seq<Seq<u8>> {
        split_runs(self.area(), 0)
    }
}

impl<'a> StringTable<'a> {
    /// The bytes the strings are cut from.
    pub closed spec fn area(&self) -> Seq<u8> {
        self.area@
    }

    /// A table over `area`, the bytes of a string area without its closing
    /// NUL pair.
    pub fn new(area: &'a [u8]) -> (table: Self)
        ensures
            table.area() == area@,
    {
        StringTable { area }
    }

    /// Number of strings in the table.
    pub fn count(&self) -> (n: usize)
        ensures
            n == self@.len(),
    {
        let area = self.area;
        let mut pos: usize = 0;
        let mut n: usize = 0;
        while pos < area.len()
            invariant
                area@ == self.area(),
                n <= pos <= area.len(),
                n + split_runs(area@, pos as int).len() == self@.len(),
            decreases area.len() - pos,
        {
            let end = find_nul(area, pos);
            proof {
                lemma_split_runs_step(area@, pos as int);
            }
            n += 1;
            if end >= area.len() {
                pos = area.len();
            } else {
                pos = end + 1;
            }
        }
        n
    }

    /// The bytes of the string with the 1-based `index`, or `None` for index
    /// 0 and for an index beyond the last string.
    pub fn get_bytes(&self, index: u8) -> (r: Option<&'a [u8]>)
        ensures
            index == 0 ==> r is None,
            index > self@.len() ==> r is None,
            1 <= index <= self@.len() ==> r is Some && r->0@ == self@[index - 1],
    {
        if index == 0 {
            return None;
        }
        let area = self.area;
        let mut pos: usize = 0;
        let mut skipped: u8 = 0;
        while skipped < index - 1
            invariant
                area@ == self.area(),
                index >= 1,
                skipped <= index - 1,
                skipped <= self@.len(),
                pos <= area.len(),
                split_runs(area@, pos as int) == self@.skip(skipped as int),
            decreases index - skipped,
        {
            if pos >= area.len() {
                return None;
            }
            let end = find_nul(area, pos);
            proof {
                lemma_split_runs_step(area@, pos as int);
            }
            if end >= area.len() {
                return None;
            }
            assert(self@.skip(skipped as int).skip(1) =~= self@.skip(skipped + 1));
            pos = end + 1;
            skipped += 1;
        }
        if pos >= area.len() {
            return None;
        }
        let end = find_nul(area, pos);
        proof {
            lemma_split_runs_step(area@, pos as int);
        }
        Some(&area[pos..end])
    }

    /// The string with the 1-based `index` as text, or `None` for index 0 and
    /// for an index beyond the last string. Never an error.
    pub fn get(&self, index: u8) -> (r: Option<String>)
        ensures
            index == 0 ==> r is None,
            index > self@.len() ==> r is None,
            1 <= index <= self@.len() ==> r is Some && r->0@ == latin1(self@[index - 1]),
    {
        match self.get_bytes(index) {
            Some(bytes) => Some(latin1_string(bytes)),
            None => None,
        }
    }

    /// All strings in order, as text.
    pub fn to_vec(&self) -> (texts: Vec<String>)
        ensures
            texts@.len() == self@.len(),
            forall|i: int| 0 <= i < texts@.len() ==> (#[trigger] texts@[i])@ == latin1(self@[i]),
    {
        let area = self.area;
        let mut texts: Vec<String> = Vec::new();
        let mut pos: usize = 0;
        while pos < area.len()
            invariant
                area@ == self.area(),
                pos <= area.len(),
                texts@.len() <= self@.len(),
                split_runs(area@, pos as int) == self@.skip(texts@.len() as int),
                forall|i: int|
                    0 <= i < texts@.len() ==> (#[trigger] texts@[i])@ == latin1(self@[i]),
            decreases area.len() - pos,
        {
            let end = find_nul(area, pos);
            let ghost done = texts@.len() as int;
            proof {
                lemma_split_runs_step(area@, pos as int);
            }
            assert(self@.skip(done).skip(1) =~= self@.skip(done + 1));
            texts.push(latin1_string(&area[pos..end]));
            if end >= area.len() {
                pos = area.len();
            } else {
                pos = end + 1;
            }
        }
        texts
    }
}

/// Decodes the string area that starts at `start`.
///
/// Returns the strings and the size of the area in bytes, so that the next
/// structure starts at `start` plus that size. Fails with
/// `TruncatedStrings` exactly where the buffer holds no NUL from `start` on.
pub fn decode_string_area<'a>(buf: &'a [u8], start: usize) -> (r: Result<
    (StringTable<'a>, usize),
    DecodeError,
>)
    ensures
        match r {
            Ok((table, size)) => spec_string_area(buf@, start as int) == Ok::<
                (Seq<Seq<u8>>, int),
                DecodeError,
            >((table@, size as int)),
            Err(e) => spec_string_area(buf@, start as int) == Err::<
                (Seq<Seq<u8>>, int),
                DecodeError,
            >(e),
        },
{
    let len: usize = buf.len();
    if start >= len {
        return Err(DecodeError::TruncatedStrings);
    }
    if find_nul(buf, start) >= len {
        return Err(DecodeError::TruncatedStrings);
    }
    let marker = find_end_marker(buf, start);
    if marker < len {
        Ok((StringTable::new(&buf[start..marker]), marker - start + 2))
    } else if buf[len - 1] == 0 {
        Ok((StringTable::new(&buf[start..len - 1]), len - start))
    } else {
        Ok((StringTable::new(&buf[start..len]), len - start))
    }
}

/// What `run_end` finds: the bytes before it hold no NUL, and it stands on a
/// NUL unless it is the end of `s`.
pub proof fn lemma_run_end(s: Seq<u8>, from: int)
    requires
        0 <= from <= s.len(),
    ensures
        from <= run_end(s, from) <= s.len(),
        forall|i: int| from <= i < run_end(s, from) ==> s[i] != 0,
        run_end(s, from) < s.len() ==> s[run_end(s, from)] == 0,
    decreases s.len() - from,
{
    if from < s.len() && s[from] != 0 {
        lemma_run_end(s, from + 1);
    }
}

/// A position that stands on the first NUL at or after `from`, or on the end
/// of `s` with no NUL before it, is the one that `run_end` finds.
pub proof fn lemma_run_end_is(s: Seq<u8>, from: int, end: int)
    requires
        0 <= from <= end <= s.len(),
        forall|i: int| from <= i < end ==> s[i] != 0,
        end < s.len() ==> s[end] == 0,
    ensures
        run_end(s, from) == end,
    decreases end - from,
{
    if from < end {
        lemma_run_end_is(s, from + 1, end);
    }
}

/// `run_end` looks only at the bytes from `from` on: bytes put in front of
/// `tail` move what it finds by their number.
pub proof fn lemma_run_end_shift(prefix: Seq<u8>, tail: Seq<u8>, from: int)
    requires
        0 <= from,
    ensures
        run_end(prefix + tail, prefix.len() + from) == prefix.len() + run_end(tail, from),
    decreases tail.len() - from,
{
    if from < tail.len() {
        assert((prefix + tail)[prefix.len() + from] == tail[from]);
        if tail[from] != 0 {
            lemma_run_end_shift(prefix, tail, from + 1);
        }
    }
}

/// One step of `split_runs`: the first run ends at the first NUL, and the
/// rest is cut from the byte behind that NUL on.
pub proof fn lemma_split_runs_step(s: Seq<u8>, from: int)
    requires
        0 <= from < s.len(),
    ensures
        split_runs(s, from).len() == 1 + split_runs(s, run_end(s, from) + 1).len(),
        split_runs(s, from)[0] == s.subrange(from, run_end(s, from)),
        split_runs(s, from).skip(1) == split_runs(s, run_end(s, from) + 1),
{
    assert(split_runs(s, from).skip(1) =~= split_runs(s, run_end(s, from) + 1));
}

/// `split_runs` looks only at the bytes from `from` on.
pub proof fn lemma_split_runs_shift(prefix: Seq<u8>, tail: Seq<u8>, from: int)
    requires
        0 <= from,
    ensures
        split_runs(prefix + tail, prefix.len() + from) == split_runs(tail, from),
    decreases tail.len() - from + 1,
{
    if from < tail.len() {
        lemma_run_end(tail, from);
        lemma_run_end_shift(prefix, tail, from);
        let end = run_end(tail, from);
        lemma_split_runs_shift(prefix, tail, end + 1);
        assert((prefix + tail).subrange(prefix.len() + from, prefix.len() + end) =~= tail.subrange(
            from,
            end,
        ));
    }
}

/// Where the first pair of consecutive NUL bytes stands, if there is one: no
/// pair stands before it.
pub proof fn lemma_end_marker(buf: Seq<u8>, from: int)
    requires
        0 <= from,
    ensures
        from <= end_marker(buf, from) || end_marker(buf, from) == buf.len(),
        end_marker(buf, from) <= buf.len(),
        end_marker(buf, from) < buf.len() ==> {
            &&& end_marker(buf, from) + 2 <= buf.len()
            &&& buf[end_marker(buf, from)] == 0
            &&& buf[end_marker(buf, from) + 1] == 0
        },
        forall|i: int|
            from <= i < end_marker(buf, from) && i + 1 < buf.len() ==> !(buf[i] == 0
                && #[trigger] buf[i + 1] == 0),
    decreases buf.len() - from,
{
    if from + 1 < buf.len() && !(buf[from] == 0 && buf[from + 1] == 0) {
        lemma_end_marker(buf, from + 1);
    }
}

/// The first pair of consecutive NUL bytes at or after `from` is the one
/// that `end_marker` finds.
pub proof fn lemma_end_marker_is(buf: Seq<u8>, from: int, at: int)
    requires
        0 <= from <= at,
        at + 1 < buf.len(),
        buf[at] == 0,
        buf[at + 1] == 0,
        forall|i: int| from <= i < at ==> !(buf[i] == 0 && #[trigger] buf[i + 1] == 0),
    ensures
        end_marker(buf, from) == at,
    decreases at - from,
{
    if from < at {
        assert(!(buf[from] == 0 && buf[from + 1] == 0));
        lemma_end_marker_is(buf, from + 1, at);
    }
}

/// `end_marker` looks only at the bytes from `from` on.
pub proof fn lemma_end_marker_shift(prefix: Seq<u8>, tail: Seq<u8>, from: int)
    requires
        0 <= from,
    ensures
        end_marker(prefix + tail, prefix.len() + from) == prefix.len() + end_marker(tail, from),
    decreases tail.len() - from,
{
    if from + 1 < tail.len() {
        assert((prefix + tail)[prefix.len() + from] == tail[from]);
        assert((prefix + tail)[prefix.len() + from + 1] == tail[from + 1]);
        if !(tail[from] == 0 && tail[from + 1] == 0) {
            lemma_end_marker_shift(prefix, tail, from + 1);
        }
    }
}

/// A string area is decoded from its own bytes and those behind it: bytes
/// put in front of the buffer change nothing.
pub proof fn lemma_string_area_shift(prefix: Seq<u8>, tail: Seq<u8>, start: int)
    requires
        0 <= start,
    ensures
        spec_string_area(prefix + tail, prefix.len() + start) == spec_string_area(tail, start),
{
    let buf = prefix + tail;
    let p = prefix.len() as int;
    lemma_run_end_shift(prefix, tail, start);
    lemma_end_marker_shift(prefix, tail, start);
    if start < tail.len() {
        lemma_end_marker(tail, start);
        assert(buf.last() == tail.last());
        let marker = end_marker(tail, start);
        assert(buf.subrange(p + start, p + marker) =~= tail.subrange(start, marker));
        assert(buf.subrange(p + start, buf.len() - 1) =~= tail.subrange(start, tail.len() - 1));
        assert(buf.subrange(p + start, buf.len() as int) =~= tail.subrange(
            start,
            tail.len() as int,
        ));
    }
}

} // verus!
