//! Properties of line ingestion as a whole.

use vstd::prelude::*;
use crate::model::{EntryView, SkipReason, Timestamp};
use crate::parser::{fields_of, fold_pairs, pair_of};
use crate::record::line_record;
use crate::text::split;

verus! {

/// The outcome of ingesting a line depends on its text alone: equal lines give
/// field-for-field equal records, or the same reason for skipping.
pub proof fn lemma_ingest_deterministic(a: Seq<char>, b: Seq<char>)
    requires
        a == b,
    ensures
        line_record(a) == line_record(b),
        fields_of(a) == fields_of(b),
{
}

/// A line of fewer than four space-separated tokens yields no fields and is
/// skipped as malformed, whatever it holds.
pub proof fn lemma_short_line_fails(line: Seq<char>)
    requires
        split(line, ' ').len() < 4,
    ensures
        fields_of(line) is None,
        line_record(line) == Err::<EntryView, SkipReason>(SkipReason::Malformed),
{
}

proof fn lemma_split_without_sep(s: Seq<char>, sep: char)
    requires
        !s.contains(sep),
    ensures
        split(s, sep).len() == 1,
    decreases s.len(),
{
    if s.len() > 0 {
        assert(s.last() == s[s.len() - 1]);
        assert forall|i: int| 0 <= i < s.drop_last().len() implies s.drop_last()[i] != sep by {
            assert(s.drop_last()[i] == s[i]);
        }
        lemma_split_without_sep(s.drop_last(), sep);
    }
}

proof fn lemma_fold_skips(m: Map<Seq<char>, Seq<char>>, tokens: Seq<Seq<char>>, k: int)
    requires
        0 <= k < tokens.len(),
        pair_of(tokens[k]) is None,
    ensures
        fold_pairs(m, tokens.remove(k)) == fold_pairs(m, tokens),
    decreases tokens.len(),
{
    if k == tokens.len() - 1 {
        assert(tokens.remove(k) =~= tokens.drop_last());
    } else {
        let rest = tokens.remove(k);
        assert(rest.drop_last() =~= tokens.drop_last().remove(k));
        assert(rest.last() == tokens.last());
        lemma_fold_skips(m, tokens.drop_last(), k);
    }
}

/// A token after the annotation that holds no `=` is dropped without failing the
/// line: the line reads exactly as the same line without that token.
pub proof fn lemma_token_without_equals_dropped(line: Seq<char>, shorter: Seq<char>, j: int)
    requires
        4 <= j < split(line, ' ').len(),
        !split(line, ' ')[j].contains('='),
        split(shorter, ' ') == split(line, ' ').remove(j),
    ensures
        fields_of(line) == fields_of(shorter),
{
    let tokens = split(line, ' ');
    lemma_split_without_sep(tokens[j], '=');
    let rest = tokens.skip(4);
    assert(rest[j - 4] == tokens[j]);
    assert(split(shorter, ' ').skip(4) =~= rest.remove(j - 4));
    assert(split(shorter, ' ')[0] == tokens[0]);
    assert(split(shorter, ' ')[3] == tokens[3]);
    match crate::parser::annotation_of(tokens[3]) {
        None => {},
        Some((f, r, a, i)) => {
            lemma_fold_skips(
                crate::parser::header_fields(tokens[0], f, r, a, i),
                rest,
                j - 4,
            );
        },
    }
}

/// The composite key under which a store keeps at most one record: source
/// address, protocol, packet id, packet size and time.
pub open spec fn record_key(e: EntryView) -> (Seq<char>, Seq<char>, i32, i32, Option<Timestamp>) {
    (e.src_ip, e.protocol, e.packet_id, e.packet_size, e.logged_at)
}

/// A store that refuses a record whose key it already holds.
pub open spec fn store_record(
    store: Map<(Seq<char>, Seq<char>, i32, i32, Option<Timestamp>), EntryView>,
    e: EntryView,
) -> Map<(Seq<char>, Seq<char>, i32, i32, Option<Timestamp>), EntryView> {
    if store.contains_key(record_key(e)) {
        store
    } else {
        store.insert(record_key(e), e)
    }
}

/// The store after each line's record, if any, is offered to it in turn.
pub open spec fn ingest_lines(
    store: Map<(Seq<char>, Seq<char>, i32, i32, Option<Timestamp>), EntryView>,
    lines: Seq<Seq<char>>,
) -> Map<(Seq<char>, Seq<char>, i32, i32, Option<Timestamp>), EntryView>
    decreases lines.len(),
{
    if lines.len() == 0 {
        store
    } else {
        let before = ingest_lines(store, lines.drop_last());
        match line_record(lines.last()) {
            Ok(e) => store_record(before, e),
            Err(_) => before,
        }
    }
}

proof fn lemma_ingest_covers(
    store: Map<(Seq<char>, Seq<char>, i32, i32, Option<Timestamp>), EntryView>,
    lines: Seq<Seq<char>>,
)
    ensures
        forall|i: int|
            0 <= i < lines.len() && (#[trigger] line_record(lines[i])) is Ok ==> ingest_lines(
                store,
                lines,
            ).contains_key(record_key(line_record(lines[i])->Ok_0)),
    decreases lines.len(),
{
    if lines.len() > 0 {
        let prefix = lines.drop_last();
        lemma_ingest_covers(store, prefix);
        assert forall|i: int|
            0 <= i < lines.len() && (#[trigger] line_record(lines[i])) is Ok implies ingest_lines(
                store,
                lines,
            ).contains_key(record_key(line_record(lines[i])->Ok_0)) by {
            if i < lines.len() - 1 {
                assert(prefix[i] == lines[i]);
            }
        }
    }
}

proof fn lemma_ingest_unchanged(
    store: Map<(Seq<char>, Seq<char>, i32, i32, Option<Timestamp>), EntryView>,
    lines: Seq<Seq<char>>,
)
    requires
        forall|i: int|
            0 <= i < lines.len() && (#[trigger] line_record(lines[i])) is Ok ==> store.contains_key(
                record_key(line_record(lines[i])->Ok_0),
            ),
    ensures
        ingest_lines(store, lines) == store,
    decreases lines.len(),
{
    if lines.len() > 0 {
        let prefix = lines.drop_last();
        assert forall|i: int|
            0 <= i < prefix.len() && (#[trigger] line_record(prefix[i])) is Ok implies store.contains_key(
                record_key(line_record(prefix[i])->Ok_0),
            ) by {
            assert(prefix[i] == lines[i]);
        }
        lemma_ingest_unchanged(store, prefix);
        assert(line_record(lines[lines.len() - 1]) == line_record(lines.last()));
    }
}

/// Against a store that keeps one record per composite key, ingesting the same
/// lines a second time stores exactly what ingesting them once did.
pub proof fn lemma_reingest_idempotent(
    store: Map<(Seq<char>, Seq<char>, i32, i32, Option<Timestamp>), EntryView>,
    lines: Seq<Seq<char>>,
)
    ensures
        ingest_lines(ingest_lines(store, lines), lines) == ingest_lines(store, lines),
{
    lemma_ingest_covers(store, lines);
    lemma_ingest_unchanged(ingest_lines(store, lines), lines);
}

} // verus!
