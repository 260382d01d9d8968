//! Batch ingestion: every line of every file, enriched, then filtered.
use vstd::prelude::*;

use crate::error::LogError;
use crate::filter::{accepts, LogFilters};
use crate::lines::{line_items, read_lines};
use crate::record::{enrich, is_enriched, LogLine};
use crate::source::{source_label, source_label_of, SourceFile};

verus! {

/// One resolved file and its raw contents.
pub struct SourceData {
    pub file: SourceFile,
    pub data: Vec<u8>,
}

pub open spec fn all_read(items: Seq<Option<Seq<char>>>) -> bool {
    forall|i: int| 0 <= i < items.len() ==> #[trigger] items[i] is Some
}

/// `(label, text)` of each line of one file.
pub open spec fn labelled(label: Seq<char>, items: Seq<Option<Seq<char>>>) -> Seq<(Seq<char>, Seq<char>)> {
    items.map_values(|o: Option<Seq<char>>| (label, o->0))
}

pub open spec fn items_of(d: SourceData) -> Seq<Option<Seq<char>>> {
    line_items(d.data@, d.file.gzip)
}

/// The `(label, text)` of every line of `inputs` in order, or none where a
/// line of some file cannot be read.
pub open spec fn ingested(inputs: Seq<SourceData>, from_stdin: bool) -> Option<Seq<(Seq<char>, Seq<char>)>>
    decreases inputs.len(),
{
    if inputs.len() == 0 {
        Some(Seq::empty())
    } else {
        match ingested(inputs.drop_last(), from_stdin) {
            None => None,
            Some(prev) => {
                let d = inputs.last();
                if all_read(items_of(d)) {
                    Some(prev + labelled(source_label_of(d.file.path@, from_stdin), items_of(d)))
                } else {
                    None
                }
            },
        }
    }
}

/// `out` is `expected`, each line enriched under `fmt`.
pub open spec fn enriched_all(out: Seq<LogLine>, expected: Seq<(Seq<char>, Seq<char>)>, fmt: Seq<char>) -> bool {
    &&& out.len() == expected.len()
    &&& forall|i: int| 0 <= i < out.len() ==> is_enriched(#[trigger] out[i], expected[i].0, expected[i].1, fmt)
}

proof fn lemma_ingested_prefix(inputs: Seq<SourceData>, from_stdin: bool, k: int)
    requires
        0 <= k <= inputs.len(),
        ingested(inputs.subrange(0, k), from_stdin) is None,
    ensures
        ingested(inputs, from_stdin) is None,
    decreases inputs.len(),
{
    if k < inputs.len() {
        assert(inputs.drop_last().subrange(0, k) =~= inputs.subrange(0, k));
        lemma_ingested_prefix(inputs.drop_last(), from_stdin, k);
    } else {
        assert(inputs.subrange(0, k) =~= inputs);
    }
}

/// Reads every line of every input in order, enriching each with its
/// timestamp and level; the first line that cannot be read stops the run with
/// an error naming its file.
pub fn get_log_lines(inputs: &Vec<SourceData>, from_stdin: bool, date_format: &str) -> (r: Result<Vec<LogLine>, LogError>)
    ensures
        r is Ok <==> ingested(inputs@, from_stdin) is Some,
        r matches Ok(v) ==> enriched_all(v@, ingested(inputs@, from_stdin)->0, date_format@),
        r matches Err(e) ==> (e matches LogError::Io { path } && exists|k: int|
            0 <= k < inputs@.len() && ingested(inputs@.subrange(0, k), from_stdin) is Some
                && !all_read(items_of(#[trigger] inputs@[k])) && path@ == inputs@[k].file.path@),
{
    let mut out: Vec<LogLine> = Vec::new();
    let mut f: usize = 0;
    assert(inputs@.subrange(0, 0) =~= Seq::<SourceData>::empty());
    while f < inputs.len()
        invariant
            f <= inputs@.len(),
            ingested(inputs@.subrange(0, f as int), from_stdin) is Some,
            enriched_all(out@, ingested(inputs@.subrange(0, f as int), from_stdin)->0, date_format@),
        decreases inputs@.len() - f,
    {
        let input = &inputs[f];
        let label = source_label(input.file.path.as_str(), from_stdin);
        let mut reader = read_lines(input.file.path.as_str(), input.data.as_slice(), input.file.gzip);
        let ghost items = items_of(*input);
        let ghost prev = ingested(inputs@.subrange(0, f as int), from_stdin)->0;
        let ghost start = out@;
        let ghost mut m: int = 0;
        proof {
            assert(inputs@.subrange(0, f + 1).drop_last() =~= inputs@.subrange(0, f as int));
            assert(items.subrange(0, items.len() as int) =~= items);
        }
        loop
            invariant
                f < inputs@.len(),
                *input == inputs@[f as int],
                items == items_of(*input),
                ingested(inputs@.subrange(0, f as int), from_stdin) is Some,
                prev == ingested(inputs@.subrange(0, f as int), from_stdin)->0,
                inputs@.subrange(0, f + 1).drop_last() == inputs@.subrange(0, f as int),
                reader.wf(),
                reader.path_view() == input.file.path@,
                label@ == source_label_of(input.file.path@, from_stdin),
                0 <= m <= items.len(),
                reader@ == items.subrange(m, items.len() as int),
                forall|i: int| 0 <= i < m ==> #[trigger] items[i] is Some,
                start.len() == prev.len(),
                out@.len() == prev.len() + m,
                out@.subrange(0, prev.len() as int) == start,
                enriched_all(start, prev, date_format@),
                forall|i: int| 0 <= i < m ==> is_enriched(#[trigger] out@[prev.len() + i], label@, items[i]->0, date_format@),
            ensures
                f < inputs@.len(),
                *input == inputs@[f as int],
                items == items_of(*input),
                ingested(inputs@.subrange(0, f as int), from_stdin) is Some,
                prev == ingested(inputs@.subrange(0, f as int), from_stdin)->0,
                inputs@.subrange(0, f + 1).drop_last() == inputs@.subrange(0, f as int),
                reader.wf(),
                reader.path_view() == input.file.path@,
                label@ == source_label_of(input.file.path@, from_stdin),
                0 <= m <= items.len(),
                reader@ == items.subrange(m, items.len() as int),
                forall|i: int| 0 <= i < m ==> #[trigger] items[i] is Some,
                start.len() == prev.len(),
                out@.len() == prev.len() + m,
                out@.subrange(0, prev.len() as int) == start,
                enriched_all(start, prev, date_format@),
                forall|i: int| 0 <= i < m ==> is_enriched(#[trigger] out@[prev.len() + i], label@, items[i]->0, date_format@),
                m == items.len(),
            decreases reader@.len(),
        {
            match reader.next() {
                None => {
                    break;
                },
                Some(Ok(raw)) => {
                    let rec = enrich(label.as_str(), raw, date_format);
                    out.push(rec);
                    proof {
                        assert(items.subrange(m + 1, items.len() as int) =~= items.subrange(m, items.len() as int).drop_first());
                        assert(out@.subrange(0, prev.len() as int) =~= start);
                        m = m + 1;
                    }
                },
                Some(Err(_)) => {
                    proof {
                        assert(items[m] is None);
                        assert(!all_read(items));
                        assert(ingested(inputs@.subrange(0, f + 1), from_stdin) is None);
                        lemma_ingested_prefix(inputs@, from_stdin, f + 1);
                        assert(inputs@[f as int] == *input);
                        assert(ingested(inputs@.subrange(0, f as int), from_stdin) is Some && !all_read(items_of(inputs@[f as int])));
                    }
                    return Err(LogError::Io { path: input.file.path.clone() });
                },
            }
        }
        proof {
            assert(m == items.len());
            let lab = labelled(source_label_of(input.file.path@, from_stdin), items);
            assert(ingested(inputs@.subrange(0, f + 1), from_stdin) == Some(prev + lab));
            assert forall|i: int| 0 <= i < out@.len() implies is_enriched(#[trigger] out@[i], (prev + lab)[i].0, (prev + lab)[i].1, date_format@) by {
                if i < prev.len() {
                    assert(out@[i] == start[i]);
                } else {
                    assert(out@[prev.len() + (i - prev.len())] == out@[i]);
                }
            }
        }
        f = f + 1;
    }
    assert(inputs@.subrange(0, inputs@.len() as int) =~= inputs@);
    Ok(out)
}

/// The records that pass every configured filter, in their order.
pub fn apply_filters(filters: &LogFilters, lines: Vec<LogLine>) -> (r: Vec<LogLine>)
    ensures
        r@ == lines@.filter(|l: LogLine| accepts(*filters, l)),
{
    let ghost all = lines@;
    let mut rest = lines;
    let mut out: Vec<LogLine> = Vec::new();
    let ghost n = all.len();
    assert(all.subrange(0, 0).filter(|l: LogLine| accepts(*filters, l)) =~= Seq::<LogLine>::empty()) by {
        reveal(Seq::filter);
    }
    assert(all.subrange(0, n as int) =~= all);
    while rest.len() > 0
        invariant
            n == all.len(),
            rest@.len() <= n,
            rest@ == all.subrange(n - rest@.len(), n as int),
            out@ == all.subrange(0, n - rest@.len()).filter(|l: LogLine| accepts(*filters, l)),
        decreases rest@.len(),
    {
        let ghost i = n - rest@.len();
        let ghost old_rest = rest@;
        let rec = rest.remove(0);
        let keep = filters.matches(&rec);
        proof {
            assert(rest@ =~= all.subrange(i + 1, n as int));
            assert(rec == all[i]);
            let s = all.subrange(0, i + 1);
            assert(s.drop_last() =~= all.subrange(0, i));
            reveal(Seq::filter);
        }
        if keep {
            out.push(rec);
        }
    }
    out
}

} // verus!
