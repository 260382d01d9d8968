//! Turning a user-given path into the ordered list of files to read.
use vstd::prelude::*;

use crate::error::LogError;
use crate::level::{upper, upper_char};
use crate::text::{chars_of, string_of};

verus! {

/// Index just past the last `/` in `p[..end]`, or 0.
pub open spec fn name_start(p: Seq<char>, end: int) -> int
    decreases end,
{
    if end <= 0 {
        0
    } else if p[end - 1] == '/' {
        end
    } else {
        name_start(p, end - 1)
    }
}

/// Length of `p` without its trailing `/`s.
pub open spec fn stripped_len(p: Seq<char>, end: int) -> int
    decreases end,
{
    if end <= 0 {
        0
    } else if p[end - 1] == '/' {
        stripped_len(p, end - 1)
    } else {
        end
    }
}

/// The last component of a `/`-separated path; none for an empty one, `.` or `..`.
pub open spec fn file_name(p: Seq<char>) -> Option<Seq<char>> {
    let e = stripped_len(p, p.len() as int);
    let n = p.subrange(name_start(p, e), e);
    if n.len() == 0 || n == seq!['.'] || n == seq!['.', '.'] {
        None
    } else {
        Some(n)
    }
}

/// A file is gzip-compressed iff its name has the extension `gz`, in any case.
pub open spec fn is_gzip_name(p: Seq<char>) -> bool {
    file_name(p) matches Some(n) && n.len() > 3 && upper(n.subrange(n.len() - 3, n.len() as int))
        == seq!['.', 'G', 'Z']
}

/// A file to read and whether it is compressed.
#[derive(Debug)]
pub struct SourceFile {
    pub path: String,
    pub gzip: bool,
}

fn name_bounds(p: &Vec<char>) -> (r: (usize, usize))
    ensures
        r.1 == stripped_len(p@, p@.len() as int),
        r.0 == name_start(p@, r.1 as int),
        r.0 <= r.1 <= p@.len(),
{
    let mut e: usize = p.len();
    while e > 0 && p[e - 1] == '/'
        invariant
            e <= p@.len(),
            stripped_len(p@, p@.len() as int) == stripped_len(p@, e as int),
        decreases e,
    {
        e = e - 1;
    }
    let mut s: usize = e;
    while s > 0 && p[s - 1] != '/'
        invariant
            s <= e <= p@.len(),
            name_start(p@, e as int) == name_start(p@, s as int),
        decreases s,
    {
        s = s - 1;
    }
    (s, e)
}

fn slice_chars(p: &Vec<char>, a: usize, b: usize) -> (r: Vec<char>)
    requires
        a <= b <= p@.len(),
    ensures
        r@ == p@.subrange(a as int, b as int),
{
    let mut r: Vec<char> = Vec::new();
    let mut i: usize = a;
    while i < b
        invariant
            a <= i <= b <= p@.len(),
            r@ == p@.subrange(a as int, i as int),
        decreases b - i,
    {
        r.push(p[i]);
        i = i + 1;
    }
    r
}

/// The last component of `path`.
pub fn file_name_of(path: &str) -> (r: Option<String>)
    ensures
        r is Some <==> file_name(path@) is Some,
        r matches Some(n) ==> file_name(path@) == Some(n@),
{
    let p = chars_of(path);
    let (s, e) = name_bounds(&p);
    let n = slice_chars(&p, s, e);
    if n.len() == 0 || (n.len() == 1 && n[0] == '.') || (n.len() == 2 && n[0] == '.' && n[1] == '.') {
        proof {
            if n@.len() == 1 {
                assert(n@ =~= seq!['.']);
            }
            if n@.len() == 2 {
                assert(n@ =~= seq!['.', '.']);
            }
        }
        None
    } else {
        assert(n@ != seq!['.']);
        assert(n@ != seq!['.', '.']);
        Some(string_of(&n))
    }
}

/// Whether `path` names a gzip file.
pub fn is_gzip_path(path: &str) -> (r: bool)
    ensures
        r == is_gzip_name(path@),
{
    match file_name_of(path) {
        None => false,
        Some(n) => {
            let c = chars_of(n.as_str());
            let k = c.len();
            if k <= 3 {
                return false;
            }
            let ghost tail = c@.subrange(k - 3, k as int);
            let ok = c[k - 3] == '.' && upper_char_is(c[k - 2], 'G') && upper_char_is(c[k - 1], 'Z');
            proof {
                if ok {
                    assert(upper(tail) =~= seq!['.', 'G', 'Z']);
                } else {
                    if upper(tail) == seq!['.', 'G', 'Z'] {
                        assert(upper(tail)[0] == '.');
                        assert(upper(tail)[1] == 'G');
                        assert(upper(tail)[2] == 'Z');
                    }
                }
            }
            ok
        },
    }
}

fn upper_char_is(c: char, u: char) -> (r: bool)
    requires
        u == 'G' || u == 'Z',
    ensures
        r == (upper_char(c) == u),
{
    if u == 'G' {
        c == 'g' || c == 'G'
    } else {
        c == 'z' || c == 'Z'
    }
}

impl SourceFile {
    pub fn new(path: &str) -> (r: SourceFile)
        ensures
            r.path@ == path@,
            r.gzip == is_gzip_name(path@),
    {
        SourceFile { path: path.to_owned(), gzip: is_gzip_path(path) }
    }
}

/// The label that records of a file carry: `stdin` where the path came from
/// standard input, else the file's name, or `unknown` where it has none.
pub open spec fn source_label_of(path: Seq<char>, from_stdin: bool) -> Seq<char> {
    if from_stdin {
        seq!['s', 't', 'd', 'i', 'n']
    } else {
        match file_name(path) {
            Some(n) => n,
            None => seq!['u', 'n', 'k', 'n', 'o', 'w', 'n'],
        }
    }
}

pub fn source_label(path: &str, from_stdin: bool) -> (r: String)
    ensures
        r@ == source_label_of(path@, from_stdin),
{
    if from_stdin {
        let v = vec!['s', 't', 'd', 'i', 'n'];
        assert(v@ =~= seq!['s', 't', 'd', 'i', 'n']);
        string_of(&v)
    } else {
        match file_name_of(path) {
            Some(n) => n,
            None => {
                let v = vec!['u', 'n', 'k', 'n', 'o', 'w', 'n'];
                assert(v@ =~= seq!['u', 'n', 'k', 'n', 'o', 'w', 'n']);
                string_of(&v)
            },
        }
    }
}

/// What is at a path, as the file system reports it.
#[derive(Debug, Clone, Copy, PartialEq, Eq, Structural)]
pub enum PathKind {
    Missing,
    File,
    Dir,
}

/// One entry of a directory: its name, or a full path once joined, and
/// whether it is a directory itself.
#[derive(Debug)]
pub struct DirEntry {
    pub name: String,
    pub is_dir: bool,
}

pub open spec fn entries_view(v: Seq<DirEntry>) -> Seq<(Seq<char>, bool)> {
    v.map_values(|e: DirEntry| (e.name@, e.is_dir))
}

/// Names in lexicographic order of their characters.
pub open spec fn name_lt(a: Seq<char>, b: Seq<char>) -> bool
    decreases a.len(),
{
    if a.len() == 0 {
        b.len() > 0
    } else if b.len() == 0 {
        false
    } else if a[0] != b[0] {
        (a[0] as u32) < (b[0] as u32)
    } else {
        name_lt(a.drop_first(), b.drop_first())
    }
}

/// `x` placed in front of the first entry whose name it precedes.
pub open spec fn insert_by_name(s: Seq<(Seq<char>, bool)>, x: (Seq<char>, bool)) -> Seq<(Seq<char>, bool)>
    decreases s.len(),
{
    if s.len() == 0 {
        seq![x]
    } else if name_lt(x.0, s[0].0) {
        seq![x] + s
    } else {
        seq![s[0]] + insert_by_name(s.drop_first(), x)
    }
}

/// The entries ordered by name (insertion order kept among equal names).
pub open spec fn sort_by_name(s: Seq<(Seq<char>, bool)>) -> Seq<(Seq<char>, bool)>
    decreases s.len(),
{
    if s.len() == 0 {
        s
    } else {
        insert_by_name(sort_by_name(s.drop_last()), s.last())
    }
}

/// `name` under the directory `dir`.
pub open spec fn join(dir: Seq<char>, name: Seq<char>) -> Seq<char> {
    if dir.len() > 0 && dir.last() == '/' {
        dir + name
    } else {
        dir.push('/') + name
    }
}

pub open spec fn reversed<T>(s: Seq<T>) -> Seq<T> {
    Seq::new(s.len(), |i: int| s[s.len() - 1 - i])
}

/// Children of `dir` as they go on the stack of pending entries: joined to
/// `dir`, by name, the first to visit on top.
pub open spec fn pushed_children(dir: Seq<char>, entries: Seq<(Seq<char>, bool)>) -> Seq<(Seq<char>, bool)> {
    reversed(sort_by_name(entries).map_values(|e: (Seq<char>, bool)| (join(dir, e.0), e.1)))
}

/// Number of plain files on top of the stack, above the first directory.
pub open spec fn files_on_top(p: Seq<(Seq<char>, bool)>) -> nat
    decreases p.len(),
{
    if p.len() > 0 && !p.last().1 {
        1 + files_on_top(p.drop_last())
    } else {
        0
    }
}

pub open spec fn file_view(p: Seq<char>) -> (Seq<char>, bool) {
    (p, is_gzip_name(p))
}

pub open spec fn files_view(v: Seq<SourceFile>) -> Seq<(Seq<char>, bool)> {
    v.map_values(|f: SourceFile| (f.path@, f.gzip))
}

fn name_lt_exec(a: &Vec<char>, b: &Vec<char>) -> (r: bool)
    ensures
        r == name_lt(a@, b@),
{
    let mut i: usize = 0;
    assert(a@.subrange(0, a@.len() as int) =~= a@);
    assert(b@.subrange(0, b@.len() as int) =~= b@);
    while i < a.len() && i < b.len() && a[i] == b[i]
        invariant
            i <= a@.len(),
            i <= b@.len(),
            name_lt(a@, b@) == name_lt(a@.subrange(i as int, a@.len() as int), b@.subrange(i as int, b@.len() as int)),
        decreases a@.len() - i,
    {
        proof {
            let sa = a@.subrange(i as int, a@.len() as int);
            let sb = b@.subrange(i as int, b@.len() as int);
            assert(sa.drop_first() =~= a@.subrange(i + 1, a@.len() as int));
            assert(sb.drop_first() =~= b@.subrange(i + 1, b@.len() as int));
        }
        i = i + 1;
    }
    proof {
        let sa = a@.subrange(i as int, a@.len() as int);
        let sb = b@.subrange(i as int, b@.len() as int);
        if i < a@.len() && i < b@.len() {
            assert(sa[0] == a@[i as int]);
            assert(sb[0] == b@[i as int]);
        }
    }
    if i == a.len() {
        i < b.len()
    } else if i == b.len() {
        false
    } else {
        (a[i] as u32) < (b[i] as u32)
    }
}

proof fn lemma_insert_at(s: Seq<(Seq<char>, bool)>, x: (Seq<char>, bool), j: int)
    requires
        0 <= j <= s.len(),
        forall|k: int| 0 <= k < j ==> !name_lt(x.0, #[trigger] s[k].0),
        j < s.len() ==> name_lt(x.0, s[j].0),
    ensures
        insert_by_name(s, x) == s.subrange(0, j).push(x) + s.subrange(j, s.len() as int),
    decreases s.len(),
{
    if s.len() == 0 {
        assert(s.subrange(0, j).push(x) + s.subrange(j, s.len() as int) =~= seq![x]);
    } else if j == 0 {
        assert(s.subrange(0, j).push(x) + s.subrange(j, s.len() as int) =~= seq![x] + s);
    } else {
        let t = s.drop_first();
        assert forall|k: int| 0 <= k < j - 1 implies !name_lt(x.0, #[trigger] t[k].0) by {
            assert(t[k] == s[k + 1]);
        }
        lemma_insert_at(t, x, j - 1);
        assert(seq![s[0]] + (t.subrange(0, j - 1).push(x) + t.subrange(j - 1, t.len() as int))
            =~= s.subrange(0, j).push(x) + s.subrange(j, s.len() as int));
    }
}

/// Orders `entries` by name, keeping their order among equal names.
pub fn sort_entries(entries: Vec<DirEntry>) -> (r: Vec<DirEntry>)
    ensures
        entries_view(r@) == sort_by_name(entries_view(entries@)),
{
    let mut out: Vec<DirEntry> = Vec::new();
    let mut rest = entries;
    let ghost all = entries_view(rest@);
    let ghost n = all.len();
    assert(all.subrange(0, n as int) =~= all);
    while rest.len() > 0
        invariant
            n == all.len(),
            rest@.len() <= n,
            entries_view(rest@) == all.subrange(n - rest@.len(), n as int),
            entries_view(out@) == sort_by_name(all.subrange(0, n - rest@.len())),
        decreases rest@.len(),
    {
        let ghost before = entries_view(out@);
        let ghost i = n - rest@.len();
        assert(entries_view(rest@)[0] == all[i]);
        let ghost old_rest = rest@;
        let e = rest.remove(0);
        proof {
            assert(rest@ =~= old_rest.drop_first());
            assert(entries_view(rest@) =~= entries_view(old_rest).drop_first());
            assert(entries_view(rest@) =~= all.subrange(i + 1, n as int));
            assert((e.name@, e.is_dir) == all[i]);
            assert(all.subrange(0, i + 1).drop_last() =~= all.subrange(0, i));
        }
        let name = chars_of(e.name.as_str());
        let mut j: usize = 0;
        while j < out.len()
            invariant
                j <= out@.len(),
                name@ == e.name@,
                forall|k: int| 0 <= k < j ==> !name_lt(name@, #[trigger] entries_view(out@)[k].0),
            ensures
                j <= out@.len(),
                forall|k: int| 0 <= k < j ==> !name_lt(name@, #[trigger] entries_view(out@)[k].0),
                j < out@.len() ==> name_lt(name@, entries_view(out@)[j as int].0),
            decreases out@.len() - j,
        {
            let other = chars_of(out[j].name.as_str());
            if name_lt_exec(&name, &other) {
                break;
            }
            j = j + 1;
        }
        proof {
            lemma_insert_at(before, (e.name@, e.is_dir), j as int);
        }
        out.insert(j, e);
        assert(entries_view(out@) =~= before.subrange(0, j as int).push(all[i]) + before.subrange(j as int, before.len() as int));
    }
    out
}

/// A depth-first walk from one path, driven step by step by a caller that
/// lists directories: entries of each directory are taken in name order, and
/// a directory met twice (by its identity, such as its canonical path) stops
/// the walk.
pub struct Walker {
    pending: Vec<DirEntry>,
    visited: Vec<String>,
    files: Vec<SourceFile>,
}

impl Walker {
    /// Entries still to visit, the next one last.
    pub closed spec fn pending_view(&self) -> Seq<(Seq<char>, bool)> {
        entries_view(self.pending@)
    }

    /// Identities of the directories entered so far.
    pub closed spec fn visited_view(&self) -> Seq<Seq<char>> {
        self.visited@.map_values(|v: String| v@)
    }

    /// Files found so far, in order, with their gzip flags.
    pub closed spec fn files_view(&self) -> Seq<(Seq<char>, bool)> {
        files_view(self.files@)
    }

    pub closed spec fn wf(&self) -> bool {
        forall|i: int| 0 <= i < self.files@.len() ==> #[trigger] self.files@[i].gzip == is_gzip_name(self.files@[i].path@)
    }

    /// Begins at `path`, of which `kind` says what it is.
    pub fn start(path: &str, kind: PathKind) -> (r: Result<Walker, LogError>)
        ensures
            kind == PathKind::Missing <==> r is Err,
            r matches Err(e) ==> (e matches LogError::NotFound { path: p } && p@ == path@),
            r matches Ok(w) ==> {
                &&& w.wf()
                &&& w.visited_view().len() == 0
                &&& kind == PathKind::File ==> w.pending_view().len() == 0 && w.files_view() == seq![file_view(path@)]
                &&& kind == PathKind::Dir ==> w.pending_view() == seq![(path@, true)] && w.files_view().len() == 0
            },
    {
        match kind {
            PathKind::Missing => Err(LogError::NotFound { path: path.to_owned() }),
            PathKind::File => {
                let mut files: Vec<SourceFile> = Vec::new();
                files.push(SourceFile::new(path));
                let w = Walker { pending: Vec::new(), visited: Vec::new(), files };
                assert(w.files_view() =~= seq![file_view(path@)]);
                assert(w.visited_view() =~= Seq::<Seq<char>>::empty());
                Ok(w)
            },
            PathKind::Dir => {
                let mut pending: Vec<DirEntry> = Vec::new();
                pending.push(DirEntry { name: path.to_owned(), is_dir: true });
                let w = Walker { pending, visited: Vec::new(), files: Vec::new() };
                assert(w.pending_view() =~= seq![(path@, true)]);
                assert(w.files_view() =~= Seq::<(Seq<char>, bool)>::empty());
                assert(w.visited_view() =~= Seq::<Seq<char>>::empty());
                Ok(w)
            },
        }
    }

    /// Moves the plain files on top of the stack to the result; returns the
    /// directory to list next, or none when the walk is over.
    pub fn step(&mut self) -> (r: Option<String>)
        requires
            old(self).wf(),
        ensures
            final(self).wf(),
            final(self).visited_view() == old(self).visited_view(),
            ({
                let p = old(self).pending_view();
                let k = p.len() - files_on_top(p);
                &&& final(self).pending_view() == p.subrange(0, k)
                &&& final(self).files_view() == old(self).files_view() + reversed(
                    p.subrange(k, p.len() as int),
                ).map_values(|e: (Seq<char>, bool)| file_view(e.0))
                &&& (k == 0 <==> r is None)
                &&& (r matches Some(d) ==> d@ == p[k - 1].0)
            }),
    {
        let ghost p = self.pending_view();
        let ghost f0 = self.files_view();
        proof {
            assert(p.subrange(p.len() as int, p.len() as int).len() == 0);
            assert(f0 + reversed(p.subrange(p.len() as int, p.len() as int)).map_values(
                |e: (Seq<char>, bool)| file_view(e.0),
            ) =~= f0);
        }
        while self.pending.len() > 0 && !self.pending[self.pending.len() - 1].is_dir
            invariant
                self.wf(),
                self.visited_view() == old(self).visited_view(),
                self.pending_view().len() <= p.len(),
                self.pending_view() == p.subrange(0, self.pending_view().len() as int),
                files_on_top(p) == files_on_top(self.pending_view()) + (p.len() - self.pending_view().len()),
                self.files_view() == f0 + reversed(
                    p.subrange(self.pending_view().len() as int, p.len() as int),
                ).map_values(|e: (Seq<char>, bool)| file_view(e.0)),
            decreases self.pending@.len(),
        {
            let ghost before = self.pending_view();
            let ghost fb = self.files_view();
            let e = self.pending.pop().unwrap();
            let sf = SourceFile::new(e.name.as_str());
            self.files.push(sf);
            proof {
                let m = before.len() - 1;
                assert(self.pending_view() =~= before.drop_last());
                assert(before.drop_last() =~= p.subrange(0, m));
                assert(before.last() == (e.name@, e.is_dir));
                assert(self.files_view() =~= fb.push(file_view(e.name@)));
                assert(reversed(p.subrange(m, p.len() as int)) =~= reversed(p.subrange(m + 1, p.len() as int)).push(p[m]));
                assert(p[m] == before.last());
                assert(reversed(p.subrange(m, p.len() as int)).map_values(|e: (Seq<char>, bool)| file_view(e.0))
                    =~= reversed(p.subrange(m + 1, p.len() as int)).map_values(|e: (Seq<char>, bool)| file_view(e.0)).push(file_view(e.name@)));
                assert(f0 + reversed(p.subrange(m, p.len() as int)).map_values(|e: (Seq<char>, bool)| file_view(e.0))
                    =~= fb.push(file_view(e.name@)));
            }
        }
        if self.pending.len() == 0 {
            None
        } else {
            Some(self.pending[self.pending.len() - 1].name.clone())
        }
    }

    /// Enters the directory on top of the stack, whose identity is
    /// `identity` and whose entries are `entries`: fails if that identity was
    /// entered before; else puts its entries on the stack, in name order.
    pub fn enter_dir(&mut self, identity: &str, entries: Vec<DirEntry>) -> (r: Result<(), LogError>)
        requires
            old(self).wf(),
            old(self).pending_view().len() > 0,
            old(self).pending_view().last().1,
        ensures
            final(self).wf(),
            final(self).files_view() == old(self).files_view(),
            r is Err <==> old(self).visited_view().contains(identity@),
            r matches Err(e) ==> (e matches LogError::CycleDetected { path }
                && path@ == old(self).pending_view().last().0),
            r is Err ==> final(self).pending_view() == old(self).pending_view()
                && final(self).visited_view() == old(self).visited_view(),
            r is Ok ==> final(self).visited_view() == old(self).visited_view().push(identity@),
            r is Ok ==> final(self).pending_view() == old(self).pending_view().drop_last()
                + pushed_children(old(self).pending_view().last().0, entries_view(entries@)),
    {
        let id = chars_of(identity);
        let mut i: usize = 0;
        while i < self.visited.len()
            invariant
                id@ == identity@,
                self.wf(),
                self.pending_view() == old(self).pending_view(),
                self.pending@.len() > 0,
                self.files_view() == old(self).files_view(),
                self.visited_view() == old(self).visited_view(),
                i <= self.visited@.len(),
                forall|k: int| 0 <= k < i ==> #[trigger] self.visited_view()[k] != identity@,
            decreases self.visited@.len() - i,
        {
            let v = chars_of(self.visited[i].as_str());
            if chars_same(&v, &id) {
                assert(self.visited_view()[i as int] == identity@);
                let top = self.pending[self.pending.len() - 1].name.clone();
                return Err(LogError::CycleDetected { path: top });
            }
            i = i + 1;
        }
        let ghost base = self.pending_view();
        let dir = self.pending.pop().unwrap();
        let ghost dview = dir.name@;
        let sorted = sort_entries(entries);
        let ghost sv = entries_view(sorted@);
        let ghost mapped = sv.map_values(|e: (Seq<char>, bool)| (join(dview, e.0), e.1));
        let dchars = chars_of(dir.name.as_str());
        let mut j: usize = sorted.len();
        proof {
            assert(self.pending_view() =~= base.drop_last());
            assert(reversed(mapped.subrange(sv.len() as int, sv.len() as int)) =~= Seq::<(Seq<char>, bool)>::empty());
            assert(self.pending_view() =~= base.drop_last() + reversed(mapped.subrange(j as int, sv.len() as int)));
        }
        while j > 0
            invariant
                j <= sorted@.len(),
                sv == entries_view(sorted@),
                mapped == sv.map_values(|e: (Seq<char>, bool)| (join(dview, e.0), e.1)),
                dchars@ == dview,
                self.wf(),
                self.files_view() == old(self).files_view(),
                self.visited_view() == old(self).visited_view(),
                self.pending_view() == base.drop_last() + reversed(mapped.subrange(j as int, sv.len() as int)),
            decreases j,
        {
            let ghost pb = self.pending_view();
            let e = &sorted[j - 1];
            let full = join_path(&dchars, e.name.as_str());
            self.pending.push(DirEntry { name: full, is_dir: e.is_dir });
            proof {
                assert(mapped[j - 1] == (join(dview, e.name@), e.is_dir));
                assert(reversed(mapped.subrange(j - 1, sv.len() as int)) =~= reversed(mapped.subrange(j as int, sv.len() as int)).push(mapped[j - 1]));
                assert(self.pending_view() =~= pb.push((join(dview, e.name@), e.is_dir)));
            }
            j = j - 1;
        }
        let idc = identity.to_owned();
        self.visited.push(idc);
        proof {
            assert(mapped.subrange(0, sv.len() as int) =~= mapped);
            assert(self.visited_view() =~= old(self).visited_view().push(identity@));
            assert(base.last().0 == dview);
        }
        Ok(())
    }

    /// The files found, in walk order.
    pub fn into_files(self) -> (r: Vec<SourceFile>)
        ensures
            files_view(r@) == self.files_view(),
    {
        self.files
    }
}

fn chars_same(a: &Vec<char>, b: &Vec<char>) -> (r: bool)
    ensures
        r == (a@ == b@),
{
    if a.len() != b.len() {
        return false;
    }
    let mut i: usize = 0;
    while i < a.len()
        invariant
            a@.len() == b@.len(),
            i <= a@.len(),
            forall|j: int| 0 <= j < i ==> a@[j] == b@[j],
        decreases a@.len() - i,
    {
        if a[i] != b[i] {
            return false;
        }
        i = i + 1;
    }
    assert(a@ =~= b@);
    true
}

/// `name` under the directory whose path is `dir`.
fn join_path(dir: &Vec<char>, name: &str) -> (r: String)
    ensures
        r@ == join(dir@, name@),
{
    let mut v: Vec<char> = Vec::new();
    let mut i: usize = 0;
    while i < dir.len()
        invariant
            i <= dir@.len(),
            v@ == dir@.subrange(0, i as int),
        decreases dir@.len() - i,
    {
        v.push(dir[i]);
        i = i + 1;
    }
    assert(v@ =~= dir@);
    if !(dir.len() > 0 && dir[dir.len() - 1] == '/') {
        v.push('/');
    }
    let ghost head = v@;
    let n = chars_of(name);
    let mut k: usize = 0;
    while k < n.len()
        invariant
            k <= n@.len(),
            v@ == head + n@.subrange(0, k as int),
        decreases n@.len() - k,
    {
        v.push(n[k]);
        k = k + 1;
        assert(v@ =~= head + n@.subrange(0, k as int));
    }
    assert(n@.subrange(0, n@.len() as int) =~= n@);
    string_of(&v)
}

/// No entry comes after one whose name it precedes.
pub open spec fn sorted_by_name(s: Seq<(Seq<char>, bool)>) -> bool {
    forall|i: int, j: int| 0 <= i < j < s.len() ==> !name_lt(#[trigger] s[j].0, #[trigger] s[i].0)
}

proof fn lemma_name_lt_irreflexive(a: Seq<char>)
    ensures
        !name_lt(a, a),
    decreases a.len(),
{
    if a.len() > 0 {
        lemma_name_lt_irreflexive(a.drop_first());
    }
}

proof fn lemma_name_lt_transitive(a: Seq<char>, b: Seq<char>, c: Seq<char>)
    requires
        name_lt(a, b),
        name_lt(b, c),
    ensures
        name_lt(a, c),
    decreases a.len(),
{
    if a.len() > 0 && a[0] == b[0] && b[0] == c[0] {
        lemma_name_lt_transitive(a.drop_first(), b.drop_first(), c.drop_first());
    }
}

proof fn lemma_insert_keeps_items(s: Seq<(Seq<char>, bool)>, x: (Seq<char>, bool))
    ensures
        insert_by_name(s, x).to_multiset() == s.to_multiset().insert(x),
        insert_by_name(s, x).len() == s.len() + 1,
    decreases s.len(),
{
    broadcast use vstd::seq_lib::group_to_multiset_ensures;

    if s.len() == 0 {
        assert(seq![x] =~= s.push(x));
    } else if name_lt(x.0, s[0].0) {
        assert(seq![x] + s =~= s.insert(0, x));
        vstd::seq_lib::to_multiset_insert(s, 0, x);
    } else {
        let t = s.drop_first();
        lemma_insert_keeps_items(t, x);
        vstd::seq_lib::lemma_multiset_commutative(seq![s[0]], insert_by_name(t, x));
        vstd::seq_lib::lemma_multiset_commutative(seq![s[0]], t);
        assert(seq![s[0]] + t =~= s);
        assert(seq![s[0]].to_multiset().add(t.to_multiset().insert(x)) =~= seq![s[0]].to_multiset().add(
            t.to_multiset(),
        ).insert(x));
    }
}

proof fn lemma_insert_keeps_order(s: Seq<(Seq<char>, bool)>, x: (Seq<char>, bool))
    requires
        sorted_by_name(s),
    ensures
        sorted_by_name(insert_by_name(s, x)),
    decreases s.len(),
{
    broadcast use vstd::seq_lib::group_to_multiset_ensures;

    let r = insert_by_name(s, x);
    if s.len() == 0 {
    } else if name_lt(x.0, s[0].0) {
        assert forall|i: int, j: int| 0 <= i < j < r.len() implies !name_lt(#[trigger] r[j].0, #[trigger] r[i].0) by {
            if i == 0 {
                assert(r[j] == s[j - 1]);
                if name_lt(s[j - 1].0, x.0) {
                    lemma_name_lt_transitive(s[j - 1].0, x.0, s[0].0);
                    if j - 1 == 0 {
                        lemma_name_lt_irreflexive(s[0].0);
                    }
                }
            } else {
                assert(r[i] == s[i - 1] && r[j] == s[j - 1]);
            }
        }
    } else {
        let t = s.drop_first();
        lemma_insert_keeps_order(t, x);
        lemma_insert_keeps_items(t, x);
        let rt = insert_by_name(t, x);
        assert forall|i: int, j: int| 0 <= i < j < r.len() implies !name_lt(#[trigger] r[j].0, #[trigger] r[i].0) by {
            if i == 0 {
                let e = rt[j - 1];
                assert(r[j] == e);
                assert(rt.to_multiset().count(e) > 0);
                assert(rt.contains(e));
                if e != x {
                    assert(t.to_multiset().count(e) > 0);
                    assert(t.contains(e));
                    let k = choose|k: int| 0 <= k < t.len() && t[k] == e;
                    assert(s[k + 1] == e);
                }
            } else {
                assert(r[i] == rt[i - 1] && r[j] == rt[j - 1]);
            }
        }
    }
}

/// Ordering entries by name puts them in lexicographic order of their names
/// and keeps every entry, each as often as it came.
pub proof fn lemma_sort_by_name(s: Seq<(Seq<char>, bool)>)
    ensures
        sorted_by_name(sort_by_name(s)),
        sort_by_name(s).to_multiset() == s.to_multiset(),
    decreases s.len(),
{
    broadcast use vstd::seq_lib::group_to_multiset_ensures;

    if s.len() > 0 {
        lemma_sort_by_name(s.drop_last());
        lemma_insert_keeps_order(sort_by_name(s.drop_last()), s.last());
        lemma_insert_keeps_items(sort_by_name(s.drop_last()), s.last());
        assert(s.drop_last().push(s.last()) =~= s);
    }
}

} // verus!
