//! Following one growing file by polling its size.
use vstd::prelude::*;

use crate::error::LogError;
use crate::filter::{accepts, LogFilters};
use crate::lines::{decode_line, decode_piece, lemma_scan_concat, scan, split_lines};
use crate::record::{enrich, is_enriched, LogLine};

verus! {

/// What the caller is to do after a poll.
#[derive(Debug, PartialEq, Eq, Structural)]
pub enum TailAction {
    /// Nothing new: sleep until the next poll.
    Wait,
    /// Read the bytes `from..to` of the file and hand them to `feed`.
    Read { from: u64, to: u64 },
    /// The file shrank: reading starts over from its beginning next poll.
    Restarted,
}

/// A tail session: the bytes consumed so far and the line begun but not
/// yet ended.
pub struct TailSession {
    path: String,
    from_start: bool,
    offset: u64,
    partial: Vec<u8>,
}

/// The state that a poll at file size `size` leaves, and its action.
pub open spec fn poll_outcome(offset: u64, partial: Seq<u8>, size: u64) -> (u64, Seq<u8>, TailAction) {
    if size > offset {
        (offset, partial, TailAction::Read { from: offset, to: size })
    } else if size < offset {
        (0, Seq::empty(), TailAction::Restarted)
    } else {
        (offset, partial, TailAction::Wait)
    }
}

impl TailSession {
    pub closed spec fn path_view(&self) -> Seq<char> {
        self.path@
    }

    pub closed spec fn from_start_view(&self) -> bool {
        self.from_start
    }

    pub closed spec fn offset_view(&self) -> u64 {
        self.offset
    }

    pub closed spec fn partial_view(&self) -> Seq<u8> {
        self.partial@
    }

    /// Starts a session on a file whose size is now `size`: pre-existing
    /// content is skipped unless `from_start` is set.
    pub fn start(path: String, from_start: bool, size: u64) -> (r: TailSession)
        ensures
            r.path_view() == path@,
            r.from_start_view() == from_start,
            r.offset_view() == (if from_start { 0 } else { size }),
            r.partial_view() == Seq::<u8>::empty(),
    {
        let offset: u64 = if from_start { 0 } else { size };
        TailSession { path, from_start, offset, partial: Vec::new() }
    }

    pub fn path(&self) -> (r: &str)
        ensures
            r@ == self.path_view(),
    {
        self.path.as_str()
    }

    pub fn from_start(&self) -> (r: bool)
        ensures
            r == self.from_start_view(),
    {
        self.from_start
    }

    pub fn offset(&self) -> (r: u64)
        ensures
            r == self.offset_view(),
    {
        self.offset
    }

    /// Decides what to do now that the file is `size` bytes long.
    pub fn poll(&mut self, size: u64) -> (r: TailAction)
        ensures
            final(self).path_view() == old(self).path_view(),
            final(self).from_start_view() == old(self).from_start_view(),
            (final(self).offset_view(), final(self).partial_view(), r) == poll_outcome(
                old(self).offset_view(),
                old(self).partial_view(),
                size,
            ),
    {
        if size > self.offset {
            TailAction::Read { from: self.offset, to: size }
        } else if size < self.offset {
            self.offset = 0;
            self.partial = Vec::new();
            TailAction::Restarted
        } else {
            TailAction::Wait
        }
    }

    /// Takes in `data`, the bytes appended since the last read: returns the
    /// lines it completes and keeps the unfinished rest.
    pub fn take_lines(&mut self, data: &[u8]) -> (r: Vec<Vec<u8>>)
        requires
            old(self).offset_view() + data@.len() <= u64::MAX,
        ensures
            final(self).path_view() == old(self).path_view(),
            final(self).from_start_view() == old(self).from_start_view(),
            final(self).offset_view() == old(self).offset_view() + data@.len(),
            r@.map_values(|v: Vec<u8>| v@) == scan(old(self).partial_view() + data@).0,
            final(self).partial_view() == scan(old(self).partial_view() + data@).1,
    {
        let mut buf: Vec<u8> = Vec::new();
        std::mem::swap(&mut buf, &mut self.partial);
        let mut i: usize = 0;
        let ghost start = buf@;
        while i < data.len()
            invariant
                i <= data@.len(),
                buf@ == start + data@.subrange(0, i as int),
            decreases data@.len() - i,
        {
            buf.push(data[i]);
            i = i + 1;
            assert(buf@ =~= start + data@.subrange(0, i as int));
        }
        assert(data@.subrange(0, data@.len() as int) =~= data@);
        let (lines, rest) = split_lines(buf.as_slice());
        self.partial = rest;
        self.offset = self.offset + data.len() as u64;
        lines
    }

    /// Takes in the appended bytes `data` and returns the records of the lines
    /// it completes, enriched and filtered, in order. A completed line that is
    /// not UTF-8 gives an error; the bytes are consumed either way.
    pub fn feed(&mut self, data: &[u8], date_format: &str, filters: &LogFilters) -> (r: Result<
        Vec<LogLine>,
        LogError,
    >)
        requires
            old(self).offset_view() + data@.len() <= u64::MAX,
        ensures
            final(self).path_view() == old(self).path_view(),
            final(self).offset_view() == old(self).offset_view() + data@.len(),
            final(self).partial_view() == scan(old(self).partial_view() + data@).1,
            r is Err <==> exists|i: int|
                0 <= i < scan(old(self).partial_view() + data@).0.len()
                    && #[trigger] decode_line(scan(old(self).partial_view() + data@).0[i]) is None,
            r matches Ok(v) ==> emitted(
                v@,
                scan(old(self).partial_view() + data@).0,
                old(self).path_view(),
                date_format@,
                *filters,
            ),
    {
        let lines = self.take_lines(data);
        let ghost pieces = lines@.map_values(|v: Vec<u8>| v@);
        let mut out: Vec<LogLine> = Vec::new();
        let mut i: usize = 0;
        while i < lines.len()
            invariant
                pieces == lines@.map_values(|v: Vec<u8>| v@),
                pieces == scan(old(self).partial_view() + data@).0,
                self.path_view() == old(self).path_view(),
                self.offset_view() == old(self).offset_view() + data@.len(),
                self.partial_view() == scan(old(self).partial_view() + data@).1,
                i <= lines@.len(),
                forall|j: int| 0 <= j < i ==> #[trigger] decode_line(pieces[j]) is Some,
                emitted(out@, pieces.subrange(0, i as int), self.path@, date_format@, *filters),
            decreases lines@.len() - i,
        {
            assert(lines@[i as int]@ == pieces[i as int]);
            match decode_piece(lines[i].as_slice()) {
                Some(text) => {
                    let rec = enrich(self.path.as_str(), text, date_format);
                    let keep = filters.matches(&rec);
                    let ghost before = out@;
                    if keep {
                        out.push(rec);
                    }
                    proof {
                        let upto = pieces.subrange(0, i + 1);
                        assert(upto.drop_last() =~= pieces.subrange(0, i as int));
                        assert(upto.last() == pieces[i as int]);
                        if keep {
                            assert(out@.drop_last() =~= before);
                        } else {
                            assert forall|r2: LogLine|
                                is_enriched(r2, self.path@, rec.raw_view(), date_format@) implies !accepts(
                                *filters,
                                r2,
                            ) by {
                                assert(r2.raw_view() == rec.raw_view());
                            }
                        }
                    }
                },
                None => {
                    assert(decode_line(pieces[i as int]) is None);
                    return Err(LogError::Io { path: self.path.clone() });
                },
            }
            i = i + 1;
        }
        assert(pieces.subrange(0, lines@.len() as int) =~= pieces);
        Ok(out)
    }
}

/// `out` holds, in order, the records of `pieces` that pass `filters`, each
/// decoded, trimmed and enriched with `source` as its label.
pub open spec fn emitted(
    out: Seq<LogLine>,
    pieces: Seq<Seq<u8>>,
    source: Seq<char>,
    fmt: Seq<char>,
    filters: LogFilters,
) -> bool
    decreases pieces.len(),
{
    if pieces.len() == 0 {
        out.len() == 0
    } else {
        match decode_line(pieces.last()) {
            None => false,
            Some(text) => {
                if out.len() > 0 && is_enriched(out.last(), source, text, fmt) && accepts(
                    filters,
                    out.last(),
                ) {
                    emitted(out.drop_last(), pieces.drop_last(), source, fmt, filters)
                } else {
                    (forall|rec: LogLine| is_enriched(rec, source, text, fmt) ==> !accepts(
                        filters,
                        rec,
                    )) && emitted(out, pieces.drop_last(), source, fmt, filters)
                }
            },
        }
    }
}

/// A session that skipped the `size` bytes already in the file waits while the
/// file keeps that size, and once it grows to `later` reads exactly the
/// appended bytes `size..later`.
pub proof fn lemma_skip_existing(size: u64, later: u64)
    ensures
        poll_outcome(size, Seq::empty(), size) == (size, Seq::<u8>::empty(), TailAction::Wait),
        later > size ==> poll_outcome(size, Seq::empty(), later) == (
            size,
            Seq::<u8>::empty(),
            TailAction::Read { from: size, to: later },
        ),
{
}

/// Two reads in a row, `a` then `b`, give the lines of `a + b` in append
/// order, each once, and keep the same unfinished rest as one read would.
pub proof fn lemma_reads_compose(partial: Seq<u8>, a: Seq<u8>, b: Seq<u8>)
    ensures
        scan(partial + a).0 + scan(scan(partial + a).1 + b).0 == scan(partial + (a + b)).0,
        scan(scan(partial + a).1 + b).1 == scan(partial + (a + b)).1,
{
    lemma_scan_concat(partial + a, b);
    assert(partial + a + b =~= partial + (a + b));
}

/// After the file shrinks below the offset, the session holds nothing from
/// before: the next poll on a non-empty file reads it from its start, and the
/// lines then taken are those of the new content alone.
pub proof fn lemma_truncation_restarts(offset: u64, partial: Seq<u8>, size: u64, next: u64, data: Seq<u8>)
    requires
        size < offset,
    ensures
        poll_outcome(offset, partial, size) == (0u64, Seq::<u8>::empty(), TailAction::Restarted),
        next > 0 ==> poll_outcome(0, Seq::empty(), next) == (
            0u64,
            Seq::<u8>::empty(),
            TailAction::Read { from: 0, to: next },
        ),
        scan(Seq::<u8>::empty() + data) == scan(data),
{
    assert(Seq::<u8>::empty() + data =~= data);
}

} // verus!
