//! Log snapshots that list the newest lines first.
//!
//! Lines are split on `\n` only, so a newline-terminated file starts with an
//! empty line and a `\r` before a line break stays in its line. Bytes that are
//! not UTF-8 are shown with replacement characters.
use vstd::prelude::*;
use crate::numbers::parse_i64_spec;

verus! {

broadcast use vstd::string::group_string_axioms;

/// Number of lines returned when the request names none.
pub const DEFAULT_LINE_LIMIT: usize = 100;

/// Most text bytes one snapshot may return.
pub const MAX_LOG_SNAPSHOT_BYTES: usize = 8388608;

/// Most lines one snapshot may return.
pub const MAX_LOG_SNAPSHOT_LINES: usize = 100000;

/// Why a snapshot could not be taken.
#[derive(Debug, Clone, PartialEq, Eq)]
pub enum RecentLinesError {
    /// Reading the file failed; the text describes the failure.
    Io(String),
    /// The snapshot would exceed its line or byte limit.
    SnapshotTooLarge,
}

/// The text of `bytes` as `String::from_utf8_lossy` decodes it.
pub uninterp spec fn utf8_lossy(bytes: Seq<u8>) -> Seq<char>;

/// Decodes bytes as UTF-8, replacing invalid sequences; wraps
/// `String::from_utf8_lossy`. Its documentation promises that valid UTF-8
/// comes back unchanged, so ASCII bytes become the same characters; the
/// decoding of other bytes is left to the name `utf8_lossy`.
#[verifier::external_body]
pub fn lossy_string(bytes: &[u8]) -> (s: String)
    ensures
        s@ == utf8_lossy(bytes@),
        (forall|i: int| 0 <= i < bytes@.len() ==> bytes@[i] < 128) ==> s@ == bytes@.map_values(
            |b: u8| b as char,
        ),
{
    String::from_utf8_lossy(bytes).into_owned()
}

/// The line limit a request asks for: 100 when it names none, the number
/// when it is a positive integer, and no limit (`usize::MAX`) otherwise.
pub open spec fn line_limit(value: Option<Seq<char>>) -> usize {
    match value {
        None => DEFAULT_LINE_LIMIT,
        Some(v) => match parse_i64_spec(v) {
            Some(n) => if n > 0 {
                n as usize
            } else {
                usize::MAX
            },
            None => usize::MAX,
        },
    }
}

/// Parses the `lines` query value.
pub fn parse_line_limit(value: Option<&str>) -> (n: usize)
    ensures
        n == line_limit(
            match value {
                Some(v) => Some(v@),
                None => None,
            },
        ),
{
    match value {
        None => DEFAULT_LINE_LIMIT,
        Some(v) => {
            let cs = crate::text::chars_of(v);
            assert(cs@.subrange(0, cs.len() as int) =~= cs@);
            match crate::numbers::parse_i64_range(&cs, 0, cs.len()) {
                Some(n) => if n > 0 {
                    n as usize
                } else {
                    usize::MAX
                },
                None => usize::MAX,
            }
        },
    }
}

/// The pieces of `s` between `\n` bytes.
pub open spec fn split_newlines(s: Seq<u8>) -> Seq<Seq<u8>>
    decreases s.len(),
{
    if s.len() == 0 {
        seq![Seq::<u8>::empty()]
    } else {
        let prev = split_newlines(s.drop_last());
        if s.last() == 10u8 {
            prev.push(Seq::<u8>::empty())
        } else {
            prev.update(prev.len() - 1, prev.last().push(s.last()))
        }
    }
}

pub proof fn lemma_split_newlines_nonempty(s: Seq<u8>)
    ensures
        split_newlines(s).len() >= 1,
    decreases s.len(),
{
    if s.len() > 0 {
        lemma_split_newlines_nonempty(s.drop_last());
    }
}

/// The newest `limit` lines of `contents`, newest first.
pub open spec fn tail_lines(contents: Seq<u8>, limit: nat) -> Seq<Seq<char>> {
    let parts = split_newlines(contents);
    let n = parts.len();
    let k = if limit < n { limit } else { n };
    Seq::new(k, |i: int| utf8_lossy(parts[n - 1 - i]))
}

pub open spec fn string_views(v: Seq<String>) -> Seq<Seq<char>> {
    Seq::new(v.len(), |i: int| v[i]@)
}

/// Every byte is ASCII.
pub open spec fn all_ascii(s: Seq<u8>) -> bool {
    forall|i: int| 0 <= i < s.len() ==> #[trigger] s[i] < 128
}

/// ASCII bytes as the characters they encode.
pub open spec fn ascii_text(s: Seq<u8>) -> Seq<char> {
    s.map_values(|b: u8| b as char)
}

/// The pieces of ASCII text are ASCII.
pub proof fn lemma_split_newlines_ascii(s: Seq<u8>)
    requires
        all_ascii(s),
    ensures
        forall|j: int| 0 <= j < split_newlines(s).len() ==> all_ascii(#[trigger] split_newlines(s)[j]),
    decreases s.len(),
{
    if s.len() > 0 {
        let t = s.drop_last();
        assert forall|i: int| 0 <= i < t.len() implies #[trigger] t[i] < 128 by {
            assert(t[i] == s[i]);
        }
        lemma_split_newlines_ascii(t);
        lemma_split_newlines_nonempty(t);
        let prev = split_newlines(t);
        if s.last() != 10u8 {
            let last = prev.last().push(s.last());
            assert(all_ascii(prev.last()));
            assert(s.last() == s[s.len() - 1]);
            assert forall|i: int| 0 <= i < last.len() implies #[trigger] last[i] < 128 by {
                if i < last.len() - 1 {
                    assert(last[i] == prev.last()[i]);
                }
            }
            assert forall|j: int| 0 <= j < split_newlines(s).len() implies all_ascii(#[trigger] split_newlines(s)[j]) by {
                if j < prev.len() - 1 {
                    assert(split_newlines(s)[j] == prev[j]);
                } else {
                    assert(split_newlines(s)[j] == last);
                }
            }
        } else {
            assert forall|j: int| 0 <= j < split_newlines(s).len() implies all_ascii(#[trigger] split_newlines(s)[j]) by {
                if j < prev.len() {
                    assert(split_newlines(s)[j] == prev[j]);
                } else {
                    assert(split_newlines(s)[j] =~= Seq::<u8>::empty());
                }
            }
        }
    }
}

/// The newest `limit` lines of `contents`, newest first. Lines of ASCII text
/// come back as the same characters.
pub fn recent_lines_from_tail_bytes(contents: &[u8], limit: usize) -> (out: Vec<String>)
    ensures
        string_views(out@) == tail_lines(contents@, limit as nat),
        all_ascii(contents@) ==> forall|q: int| 0 <= q < out.len() ==> (#[trigger] out@[q])@ == ascii_text(
            split_newlines(contents@)[split_newlines(contents@).len() - 1 - q],
        ),
{
    let ghost parts = split_newlines(contents@);
    let mut pieces: Vec<Vec<u8>> = Vec::new();
    let mut cur: Vec<u8> = Vec::new();
    let mut i: usize = 0;
    proof {
        assert(contents@.take(0) =~= Seq::<u8>::empty());
        assert(byte_views(pieces@).push(cur@) =~= split_newlines(contents@.take(0)));
    }
    while i < contents.len()
        invariant
            i <= contents.len(),
            byte_views(pieces@).push(cur@) == split_newlines(contents@.take(i as int)),
        decreases contents.len() - i,
    {
        let ghost prev = split_newlines(contents@.take(i as int));
        let ghost old_pieces = byte_views(pieces@);
        proof {
            assert(contents@.take(i + 1).drop_last() =~= contents@.take(i as int));
            assert(contents@.take(i + 1).last() == contents@[i as int]);
        }
        if contents[i] == 10u8 {
            let mut done: Vec<u8> = Vec::new();
            std::mem::swap(&mut done, &mut cur);
            pieces.push(done);
            proof {
                assert(byte_views(pieces@) =~= old_pieces.push(prev.last()));
                assert(byte_views(pieces@).push(cur@) =~= prev.push(Seq::<u8>::empty()));
            }
        } else {
            cur.push(contents[i]);
            proof {
                assert(byte_views(pieces@).push(cur@) =~= prev.update(prev.len() - 1, prev.last().push(contents@[i as int])));
            }
        }
        i = i + 1;
    }
    proof {
        assert(contents@.take(contents.len() as int) =~= contents@);
    }
    pieces.push(cur);
    proof {
        if all_ascii(contents@) {
            lemma_split_newlines_ascii(contents@);
        }
    }
    let n = pieces.len();
    let k = if limit < n { limit } else { n };
    let mut out: Vec<String> = Vec::new();
    let mut j: usize = 0;
    while j < k
        invariant
            n == pieces.len() == parts.len(),
            byte_views(pieces@) == parts,
            k <= n,
            j <= k,
            out.len() == j,
            forall|q: int| 0 <= q < j ==> (#[trigger] out@[q])@ == utf8_lossy(parts[n - 1 - q]),
            parts == split_newlines(contents@),
            all_ascii(contents@) ==> forall|p: int| 0 <= p < parts.len() ==> all_ascii(#[trigger] parts[p]),
            all_ascii(contents@) ==> forall|q: int| 0 <= q < j ==> (#[trigger] out@[q])@ == ascii_text(parts[n - 1 - q]),
        decreases k - j,
    {
        let idx = n - 1 - j;
        assert(pieces@[idx as int]@ == parts[idx as int]);
        let line = lossy_string(pieces[idx].as_slice());
        proof {
            if all_ascii(contents@) {
                assert(all_ascii(parts[idx as int]));
                assert(line@ =~= ascii_text(parts[idx as int]));
            }
        }
        out.push(line);
        j = j + 1;
    }
    assert(string_views(out@) =~= tail_lines(contents@, limit as nat));
    out
}

pub open spec fn byte_views(v: Seq<Vec<u8>>) -> Seq<Seq<u8>> {
    Seq::new(v.len(), |i: int| v[i]@)
}

/// Whether a snapshot of `line_count` lines and `byte_count` bytes is within
/// the limits.
pub open spec fn within_limits(line_count: int, byte_count: int) -> bool {
    line_count <= MAX_LOG_SNAPSHOT_LINES && byte_count <= MAX_LOG_SNAPSHOT_BYTES
}

/// Checks a snapshot size against the limits.
pub fn ensure_snapshot_within_limits(line_count: usize, byte_count: usize) -> (r: Result<(), RecentLinesError>)
    ensures
        within_limits(line_count as int, byte_count as int) ==> r is Ok,
        !within_limits(line_count as int, byte_count as int) ==> r == Err::<(), RecentLinesError>(
            RecentLinesError::SnapshotTooLarge,
        ),
{
    if line_count > MAX_LOG_SNAPSHOT_LINES || byte_count > MAX_LOG_SNAPSHOT_BYTES {
        Err(RecentLinesError::SnapshotTooLarge)
    } else {
        Ok(())
    }
}

/// Collects the lines of a file read backwards, one byte at a time from the
/// last byte to the first, keeping the newest `limit` lines.
pub struct ReverseLineReader {
    limit: usize,
    lines: Vec<String>,
    current_reversed: Vec<u8>,
    output_bytes: usize,
    fed: Ghost<Seq<u8>>,
}

impl ReverseLineReader {
    /// The bytes fed so far, in file order (the reverse of the feeding order).
    pub closed spec fn text(&self) -> Seq<u8> {
        self.fed@.reverse()
    }

    pub closed spec fn limit_spec(&self) -> usize {
        self.limit
    }

    /// The complete lines collected so far, newest first.
    pub closed spec fn lines_spec(&self) -> Seq<Seq<char>> {
        string_views(self.lines@)
    }

    /// The reader holds the lines of the text fed so far: every piece of the
    /// fed bytes before the last `\n`, decoded, and the newest piece pending.
    pub closed spec fn wf(&self) -> bool {
        let parts = split_newlines(self.fed@);
        let n = parts.len();
        &&& self.lines.len() == n - 1
        &&& self.lines.len() <= self.limit
        &&& self.current_reversed@ == parts[n - 1]
        &&& forall|i: int| 0 <= i < n - 1 ==> (#[trigger] self.lines@[i])@ == utf8_lossy(parts[i].reverse())
        &&& self.output_bytes == self.fed@.len() - (n - 1)
    }

    /// Whether the reader has all the lines it wants.
    pub closed spec fn done(&self) -> bool {
        self.lines.len() >= self.limit
    }

    pub fn new(limit: usize) -> (r: Self)
        ensures
            r.wf(),
            r.text() == Seq::<u8>::empty(),
            r.limit_spec() == limit,
            r.lines_spec() == Seq::<Seq<char>>::empty(),
    {
        let r = ReverseLineReader {
            limit,
            lines: Vec::new(),
            current_reversed: Vec::new(),
            output_bytes: 0,
            fed: Ghost(Seq::empty()),
        };
        assert(r.fed@.reverse() =~= Seq::<u8>::empty());
        assert(string_views(r.lines@) =~= Seq::<Seq<char>>::empty());
        r
    }

    /// Whether the reader has all the lines it wants.
    pub fn is_done(&self) -> (b: bool)
        ensures
            b == self.done(),
    {
        self.lines.len() >= self.limit
    }

    /// Feeds the byte that precedes all bytes fed so far. A line break
    /// completes the pending line; the error comes when the snapshot would pass
    /// its limits.
    pub fn push_byte(&mut self, byte: u8) -> (r: Result<(), RecentLinesError>)
        requires
            old(self).wf(),
            !old(self).done(),
        ensures
            final(self).limit_spec() == old(self).limit_spec(),
            r is Ok ==> final(self).wf() && final(self).text() == seq![byte] + old(self).text(),
            r is Err ==> r == Err::<(), RecentLinesError>(RecentLinesError::SnapshotTooLarge),
            byte == 10u8 ==> (r is Err <==> !within_limits(
                (old(self).lines_spec().len() + 1) as int,
                old(self).text().len() - old(self).lines_spec().len(),
            )),
            byte != 10u8 ==> (r is Err <==> !within_limits(
                old(self).lines_spec().len() as int,
                old(self).text().len() - old(self).lines_spec().len() + 1,
            )),
    {
        let ghost parts = split_newlines(self.fed@);
        let ghost fed2 = self.fed@.push(byte);
        proof {
            lemma_split_newlines_nonempty(self.fed@);
            assert(fed2.drop_last() =~= self.fed@);
            assert(self.fed@.reverse().len() == self.fed@.len());
            assert(fed2.reverse() =~= seq![byte] + self.fed@.reverse());
        }
        if byte == 10u8 {
            ensure_snapshot_within_limits(self.lines.len() + 1, self.output_bytes)?;
            let line_bytes = reversed(&self.current_reversed);
            let ghost before = self.lines@;
            self.lines.push(lossy_string(line_bytes.as_slice()));
            self.current_reversed = Vec::new();
            self.fed = Ghost(fed2);
            proof {
                let p2 = split_newlines(fed2);
                assert(p2 == parts.push(Seq::<u8>::empty()));
                assert forall|i: int| 0 <= i < p2.len() - 1 implies (#[trigger] self.lines@[i])@ == utf8_lossy(
                    p2[i].reverse(),
                ) by {
                    if i < before.len() {
                        assert(self.lines@[i] == before[i]);
                    }
                }
            }
            Ok(())
        } else {
            if self.output_bytes >= usize::MAX {
                return Err(RecentLinesError::SnapshotTooLarge);
            }
            self.current_reversed.push(byte);
            self.output_bytes = self.output_bytes + 1;
            self.fed = Ghost(fed2);
            proof {
                let p2 = split_newlines(fed2);
                assert(p2 == parts.update(parts.len() - 1, parts.last().push(byte)));
            }
            ensure_snapshot_within_limits(self.lines.len(), self.output_bytes)?;
            Ok(())
        }
    }

    /// The lines collected, newest first, with the pending line completed
    /// when more lines are wanted.
    pub fn finish(self) -> (r: Result<Vec<String>, RecentLinesError>)
        requires
            self.wf(),
        ensures
            ({
                let parts = split_newlines(self.text().reverse());
                let n = parts.len();
                if self.done() {
                    r matches Ok(v) && string_views(v@) == self.lines_spec()
                } else if !within_limits(n as int, self.text().len() - (n - 1)) {
                    r == Err::<Vec<String>, RecentLinesError>(RecentLinesError::SnapshotTooLarge)
                } else {
                    r matches Ok(v) && string_views(v@) == self.lines_spec().push(
                        utf8_lossy(parts[n - 1].reverse()),
                    )
                }
            }),
    {
        proof {
            lemma_split_newlines_nonempty(self.fed@);
            assert(self.fed@.reverse().reverse() =~= self.fed@);
        }
        let mut lines = self.lines;
        if lines.len() < self.limit {
            ensure_snapshot_within_limits(lines.len() + 1, self.output_bytes)?;
            let line_bytes = reversed(&self.current_reversed);
            let ghost before = lines@;
            lines.push(lossy_string(line_bytes.as_slice()));
            assert(string_views(lines@) =~= string_views(before).push(utf8_lossy(self.current_reversed@.reverse())));
        }
        Ok(lines)
    }
}

/// The bytes of `v` in reverse order.
fn reversed(v: &Vec<u8>) -> (out: Vec<u8>)
    ensures
        out@ == v@.reverse(),
{
    let mut out: Vec<u8> = Vec::new();
    let mut i = v.len();
    while i > 0
        invariant
            i <= v.len(),
            out@ == v@.subrange(i as int, v.len() as int).reverse(),
        decreases i,
    {
        i = i - 1;
        out.push(v[i]);
        assert(out@ =~= v@.subrange(i as int, v.len() as int).reverse());
    }
    assert(v@.subrange(0, v.len() as int) =~= v@);
    out
}

} // verus!
