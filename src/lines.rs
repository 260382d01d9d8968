//! Splitting file contents into trimmed lines, with gzip decompression.
use vstd::prelude::*;
use vstd::utf8::{decode_utf8, valid_utf8};

use crate::error::LogError;
use crate::text::{chars_of, trim, trim_bounds};

verus! {

/// The byte that ends a line.
pub const NEWLINE: u8 = 10;

/// Complete lines of `b` (without their terminators), and the fragment after
/// the last terminator.
pub open spec fn scan(b: Seq<u8>) -> (Seq<Seq<u8>>, Seq<u8>)
    decreases b.len(),
{
    if b.len() == 0 {
        (seq![], seq![])
    } else {
        let prev = scan(b.drop_last());
        if b.last() == NEWLINE {
            (prev.0.push(prev.1), seq![])
        } else {
            (prev.0, prev.1.push(b.last()))
        }
    }
}

/// The lines of a whole input: end of input ends a non-empty last fragment.
pub open spec fn batch_pieces(b: Seq<u8>) -> Seq<Seq<u8>> {
    let s = scan(b);
    if s.1.len() > 0 {
        s.0.push(s.1)
    } else {
        s.0
    }
}

/// The text of one line: decoded and trimmed, or none where it is not UTF-8.
pub open spec fn decode_line(piece: Seq<u8>) -> Option<Seq<char>> {
    if valid_utf8(piece) {
        Some(trim(decode_utf8(piece)))
    } else {
        None
    }
}

pub open spec fn decode_pieces(pieces: Seq<Seq<u8>>) -> Seq<Option<Seq<char>>> {
    pieces.map_values(|p: Seq<u8>| decode_line(p))
}

/// What gzip decompression of `data` gives, or none for a damaged stream.
pub uninterp spec fn gunzip(data: Seq<u8>) -> Option<Seq<u8>>;

/// The items that reading `data` yields: each line's text, or none for one
/// that fails; a damaged gzip stream yields one failure.
pub open spec fn line_items(data: Seq<u8>, gzip: bool) -> Seq<Option<Seq<char>>> {
    if gzip {
        match gunzip(data) {
            Some(d) => decode_pieces(batch_pieces(d)),
            None => seq![None],
        }
    } else {
        decode_pieces(batch_pieces(data))
    }
}

/// Relies on `flate2::read::GzDecoder`: the decompressed bytes of the first
/// gzip member of `data`, which depend on `data` alone.
#[verifier::external_body]
fn gunzip_bytes(data: &[u8]) -> (r: Option<Vec<u8>>)
    ensures
        r matches Some(v) ==> gunzip(data@) == Some(v@),
        r is None ==> gunzip(data@) is None,
{
    let mut out: Vec<u8> = Vec::new();
    let mut d = flate2::read::GzDecoder::new(data);
    match std::io::Read::read_to_end(&mut d, &mut out) {
        Ok(_) => Some(out),
        Err(_) => None,
    }
}

/// Relies on `std::str::from_utf8`: succeeds exactly on valid UTF-8.
#[verifier::external_body]
fn utf8_text(b: &[u8]) -> (r: Option<&str>)
    ensures
        r is Some <==> valid_utf8(b@),
        r matches Some(s) ==> s@ == decode_utf8(b@),
{
    match std::str::from_utf8(b) {
        Ok(s) => Some(s),
        Err(_) => None,
    }
}

/// Splits `b` at its line terminators.
pub fn split_lines(b: &[u8]) -> (r: (Vec<Vec<u8>>, Vec<u8>))
    ensures
        r.0@.map_values(|v: Vec<u8>| v@) == scan(b@).0,
        r.1@ == scan(b@).1,
{
    let mut lines: Vec<Vec<u8>> = Vec::new();
    let mut cur: Vec<u8> = Vec::new();
    let mut i: usize = 0;
    while i < b.len()
        invariant
            i <= b@.len(),
            lines@.map_values(|v: Vec<u8>| v@) == scan(b@.subrange(0, i as int)).0,
            cur@ == scan(b@.subrange(0, i as int)).1,
        decreases b@.len() - i,
    {
        assert(b@.subrange(0, i + 1).drop_last() == b@.subrange(0, i as int));
        if b[i] == NEWLINE {
            let done = cur;
            lines.push(done);
            cur = Vec::new();
            assert(lines@.map_values(|v: Vec<u8>| v@) =~= scan(b@.subrange(0, i + 1)).0);
        } else {
            cur.push(b[i]);
        }
        i = i + 1;
    }
    assert(b@.subrange(0, b@.len() as int) == b@);
    (lines, cur)
}

/// Decodes and trims one line.
pub fn decode_piece(piece: &[u8]) -> (r: Option<String>)
    ensures
        r is Some <==> decode_line(piece@) is Some,
        r matches Some(s) ==> decode_line(piece@) == Some(s@),
{
    match utf8_text(piece) {
        Some(s) => {
            let cs = chars_of(s);
            let (a, b) = trim_bounds(&cs, cs.len());
            assert(cs@.subrange(0, cs@.len() as int) == cs@);
            let t = vstd::string::StrSliceExecFns::substring_char(s, a, b);
            Some(t.to_owned())
        },
        None => None,
    }
}

/// The trimmed lines of one file's contents, read in one forward pass.
pub struct LineReader {
    path: String,
    pieces: Vec<Vec<u8>>,
    pos: usize,
    broken: bool,
}

impl View for LineReader {
    type V = Seq<Option<Seq<char>>>;

    /// The items still to come.
    closed spec fn view(&self) -> Seq<Option<Seq<char>>> {
        if self.broken {
            seq![None]
        } else {
            decode_pieces(
                self.pieces@.map_values(|v: Vec<u8>| v@).subrange(self.pos as int, self.pieces@.len() as int),
            )
        }
    }
}

impl LineReader {
    pub closed spec fn wf(&self) -> bool {
        &&& self.pos <= self.pieces@.len()
        &&& self.broken ==> self.pieces@.len() == 0
    }

    pub closed spec fn path_view(&self) -> Seq<char> {
        self.path@
    }

    /// Opens `data`, the contents of the file at `path`; `gzip` says whether
    /// it is to be decompressed. Nothing is checked until items are read.
    pub fn new(path: &str, data: &[u8], gzip: bool) -> (r: LineReader)
        ensures
            r.wf(),
            r@ == line_items(data@, gzip),
            r.path_view() == path@,
    {
        let plain: Option<Vec<u8>> = if gzip {
            gunzip_bytes(data)
        } else {
            None
        };
        if gzip && plain.is_none() {
            return LineReader { path: path.to_owned(), pieces: Vec::new(), pos: 0, broken: true };
        }
        let (mut pieces, last) = match &plain {
            Some(d) => split_lines(d.as_slice()),
            None => split_lines(data),
        };
        let ghost src = if gzip { gunzip(data@)->0 } else { data@ };
        assert(pieces@.map_values(|v: Vec<u8>| v@) == scan(src).0);
        if last.len() > 0 {
            pieces.push(last);
            assert(pieces@.map_values(|v: Vec<u8>| v@) =~= scan(src).0.push(scan(src).1));
        }
        let r = LineReader { path: path.to_owned(), pieces, pos: 0, broken: false };
        assert(r.pieces@.map_values(|v: Vec<u8>| v@).subrange(0, r.pieces@.len() as int)
            =~= batch_pieces(src));
        r
    }

    /// The next item: a trimmed line, or the error of a line that cannot be
    /// read; none once the input is exhausted.
    pub fn next(&mut self) -> (r: Option<Result<String, LogError>>)
        requires
            old(self).wf(),
        ensures
            final(self).wf(),
            final(self).path_view() == old(self).path_view(),
            old(self)@.len() == 0 ==> r is None && final(self)@ == old(self)@,
            old(self)@.len() > 0 ==> {
                &&& final(self)@ == old(self)@.drop_first()
                &&& r matches Some(x)
                &&& (x is Ok <==> old(self)@[0] is Some)
                &&& (x matches Ok(s) ==> old(self)@[0] == Some(s@))
                &&& (x matches Err(e) ==> (e matches LogError::Io { path } && path@ == old(self).path_view()))
            },
    {
        if self.broken {
            self.broken = false;
            proof {
                assert(decode_pieces(self.pieces@.map_values(|v: Vec<u8>| v@).subrange(self.pos as int, 0)) =~= seq![]);
                assert(self@ =~= old(self)@.drop_first());
            }
            return Some(Err(LogError::Io { path: self.path.clone() }));
        }
        if self.pos >= self.pieces.len() {
            return None;
        }
        let ghost whole = self.pieces@.map_values(|v: Vec<u8>| v@);
        let item = decode_piece(self.pieces[self.pos].as_slice());
        self.pos = self.pos + 1;
        proof {
            assert(self@ =~= old(self)@.drop_first());
        }
        match item {
            Some(s) => Some(Ok(s)),
            None => Some(Err(LogError::Io { path: self.path.clone() })),
        }
    }
}

/// Opens the contents of one file for reading, line by line.
pub fn read_lines(path: &str, data: &[u8], gzip: bool) -> (r: LineReader)
    ensures
        r.wf(),
        r@ == line_items(data@, gzip),
        r.path_view() == path@,
{
    LineReader::new(path, data, gzip)
}

/// Reading a gzip file gives the same items as reading its decompressed
/// contents as plain text.
pub proof fn lemma_gzip_round_trip(compressed: Seq<u8>, plain: Seq<u8>)
    requires
        gunzip(compressed) == Some(plain),
    ensures
        line_items(compressed, true) == line_items(plain, false),
{
}

/// The fragment left after the last terminator holds no terminator.
pub proof fn lemma_fragment_has_no_newline(b: Seq<u8>)
    ensures
        forall|i: int| 0 <= i < scan(b).1.len() ==> scan(b).1[i] != NEWLINE,
    decreases b.len(),
{
    if b.len() > 0 {
        lemma_fragment_has_no_newline(b.drop_last());
        let prev = scan(b.drop_last());
        if b.last() != NEWLINE {
            assert forall|i: int| 0 <= i < scan(b).1.len() implies scan(b).1[i] != NEWLINE by {
                if i < prev.1.len() {
                    assert(scan(b).1[i] == prev.1[i]);
                }
            }
        }
    }
}

/// Bytes without a terminator make no line.
pub proof fn lemma_scan_no_newline(f: Seq<u8>)
    requires
        forall|i: int| 0 <= i < f.len() ==> f[i] != NEWLINE,
    ensures
        scan(f) == (Seq::<Seq<u8>>::empty(), f),
    decreases f.len(),
{
    if f.len() > 0 {
        lemma_scan_no_newline(f.drop_last());
        assert(f.drop_last().push(f.last()) =~= f);
    }
}

/// Splitting `x + y` in one pass gives the lines of `x`, then the lines of
/// the fragment of `x` followed by `y`: a line cut between two reads is
/// completed, never lost or repeated.
pub proof fn lemma_scan_concat(x: Seq<u8>, y: Seq<u8>)
    ensures
        scan(x + y).0 == scan(x).0 + scan(scan(x).1 + y).0,
        scan(x + y).1 == scan(scan(x).1 + y).1,
    decreases y.len(),
{
    let f = scan(x).1;
    if y.len() == 0 {
        assert(x + y =~= x);
        assert(f + y =~= f);
        lemma_fragment_has_no_newline(x);
        lemma_scan_no_newline(f);
        assert(scan(x).0 + Seq::<Seq<u8>>::empty() =~= scan(x).0);
    } else {
        let y0 = y.drop_last();
        lemma_scan_concat(x, y0);
        assert((x + y).drop_last() =~= x + y0);
        assert((f + y).drop_last() =~= f + y0);
        assert((x + y).last() == y.last());
        assert((f + y).last() == y.last());
        let a = scan(f + y0);
        if y.last() == NEWLINE {
            assert(scan(x).0 + a.0.push(a.1) =~= (scan(x).0 + a.0).push(a.1));
        }
    }
}

} // verus!
