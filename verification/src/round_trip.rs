//! What a streaming preview preserves: the lines of a preview make up its
//! content, chunking does not matter, and a gzip stream comes out whole
//! however it is cut.

use vstd::prelude::*;
use crate::preview::{
    append_step,
    gunzip,
    gzip_finish,
    gzip_process,
    lemma_line_starts,
    line_bounds,
    line_of,
    line_starts,
    strip_line_end,
    GzipState,
    PreviewState,
    StatusView,
    TransformState,
    MAX_LINE_BYTES,
};

verus! {

/// Line `i` of `content` without its newline: the bytes from the start of
/// the line to the byte before the start of the next, or to the end for the
/// last line.
pub open spec fn raw_line(content: Seq<u8>, i: int) -> Seq<u8> {
    let bounds = line_bounds(line_starts(content), content.len(), i);
    if bounds.0 <= bounds.1 <= content.len() {
        content.subrange(bounds.0 as int, bounds.1 as int)
    } else {
        Seq::empty()
    }
}

/// The lines of `content` without their newlines.
pub open spec fn raw_lines(content: Seq<u8>) -> Seq<Seq<u8>> {
    Seq::new(line_starts(content).len(), |i: int| raw_line(content, i))
}

/// The lines joined with a newline between each two.
pub open spec fn join_lines(lines: Seq<Seq<u8>>) -> Seq<u8>
    decreases lines.len(),
{
    if lines.len() == 0 {
        Seq::empty()
    } else if lines.len() == 1 {
        lines[0]
    } else {
        join_lines(lines.drop_last()) + seq![10u8] + lines.last()
    }
}

/// The chunks one after another.
pub open spec fn concat(chunks: Seq<Seq<u8>>) -> Seq<u8>
    decreases chunks.len(),
{
    if chunks.len() == 0 {
        Seq::empty()
    } else {
        concat(chunks.drop_last()) + chunks.last()
    }
}

/// The offset behind every newline is the start of a line.
pub proof fn lemma_newline_starts_line(content: Seq<u8>, p: int)
    requires
        0 <= p < content.len(),
        content[p] == 10,
    ensures
        line_starts(content).contains((p + 1) as nat),
    decreases content.len(),
{
    let starts = line_starts(content);
    if p == content.len() - 1 {
        assert(starts[starts.len() - 1] == (p + 1) as nat);
    } else {
        lemma_newline_starts_line(content.drop_last(), p);
        let prev = line_starts(content.drop_last());
        let k = choose|k: int| 0 <= k < prev.len() && prev[k] == (p + 1) as nat;
        assert(starts[k] == (p + 1) as nat);
    }
}

/// A byte appended to a content leaves every line but the last as it is.
proof fn lemma_raw_line_inner(c: Seq<u8>, b: u8, i: int)
    requires
        0 <= i,
        i + 1 < line_starts(c).len(),
    ensures
        raw_line(c.push(b), i) == raw_line(c, i),
{
    let content = c.push(b);
    assert(content.drop_last() =~= c);
    lemma_line_starts(c);
    let before = line_starts(c);
    let starts = line_starts(content);
    assert(starts[i] == before[i]);
    assert(starts[i + 1] == before[i + 1]);
    assert(before[i] < before[i + 1]);
    assert(before[i + 1] <= c.len());
    assert(content.subrange(before[i] as int, before[i + 1] - 1) =~= c.subrange(
        before[i] as int,
        before[i + 1] - 1,
    ));
}

/// A newline appended to a content ends its last line, which stays as it
/// is, and begins an empty line.
proof fn lemma_raw_line_newline(c: Seq<u8>)
    ensures
        line_starts(c.push(10u8)) == line_starts(c).push((c.len() + 1) as nat),
        raw_line(c.push(10u8), line_starts(c).len() - 1) == raw_line(c, line_starts(c).len() - 1),
        raw_line(c.push(10u8), line_starts(c).len() as int) == Seq::<u8>::empty(),
{
    let content = c.push(10u8);
    assert(content.drop_last() =~= c);
    lemma_line_starts(c);
    let before = line_starts(c);
    let starts = line_starts(content);
    let m = before.len() as int;
    assert(starts == before.push((c.len() + 1) as nat));
    assert(starts[m - 1] == before[m - 1]);
    assert(starts[m] == c.len() + 1);
    assert(before[m - 1] <= c.len());
    assert(content.subrange(before[m - 1] as int, c.len() as int) =~= c.subrange(
        before[m - 1] as int,
        c.len() as int,
    ));
    assert(content.subrange(c.len() as int + 1, c.len() as int + 1) =~= Seq::<u8>::empty());
}

/// Another byte appended to a content joins its last line.
proof fn lemma_raw_line_grows(c: Seq<u8>, b: u8)
    requires
        b != 10,
    ensures
        line_starts(c.push(b)) == line_starts(c),
        raw_line(c.push(b), line_starts(c).len() - 1) == raw_line(c, line_starts(c).len() - 1).push(
            b,
        ),
{
    let content = c.push(b);
    assert(content.drop_last() =~= c);
    lemma_line_starts(c);
    let before = line_starts(c);
    let m = before.len() as int;
    assert(before[m - 1] <= c.len());
    assert(content.subrange(before[m - 1] as int, c.len() as int + 1) =~= c.subrange(
        before[m - 1] as int,
        c.len() as int,
    ).push(b));
}

/// The lines of a content, without their newlines and joined with newlines,
/// are the content.
pub proof fn lemma_lines_partition_content(content: Seq<u8>)
    ensures
        join_lines(raw_lines(content)) == content,
    decreases content.len(),
{
    if content.len() == 0 {
        assert(raw_line(content, 0) =~= Seq::<u8>::empty());
        assert(raw_lines(content) =~= seq![Seq::<u8>::empty()]);
    } else {
        let c = content.drop_last();
        let b = content.last();
        lemma_lines_partition_content(c);
        assert(content =~= c.push(b));
        let m = line_starts(c).len() as int;
        lemma_line_starts(c);
        let lines = raw_lines(content);
        let old_lines = raw_lines(c);
        assert forall|i: int| 0 <= i < m - 1 implies lines[i] == old_lines[i] by {
            lemma_raw_line_inner(c, b, i);
        }
        if b == 10 {
            lemma_raw_line_newline(c);
            assert(lines.len() == m + 1);
            assert(lines[m - 1] == old_lines[m - 1]);
            assert(lines.drop_last() =~= old_lines);
            assert(lines.last() == Seq::<u8>::empty());
            assert(c + seq![10u8] + Seq::<u8>::empty() =~= c.push(10u8));
        } else {
            lemma_raw_line_grows(c, b);
            assert(lines.len() == m);
            assert(lines[m - 1] == old_lines[m - 1].push(b));
            if m == 1 {
                assert(join_lines(old_lines) == old_lines[0]);
                assert(join_lines(lines) == lines[0]);
            } else {
                assert(lines.drop_last() =~= old_lines.drop_last());
                assert(lines.last() == old_lines.last().push(b));
                assert((join_lines(old_lines.drop_last()) + seq![10u8] + old_lines.last()).push(b)
                    =~= join_lines(old_lines.drop_last()) + seq![10u8] + old_lines.last().push(
                    b,
                ));
            }
        }
    }
}

/// No carriage return stands directly before a newline or at the end.
pub open spec fn no_carriage_return_at_line_end(content: Seq<u8>) -> bool {
    forall|p: int|
        0 <= p < content.len() && #[trigger] content[p] == 13 ==> p + 1 < content.len()
            && content[p + 1] != 10
}

/// No line is longer than what is read in one piece.
pub open spec fn lines_within_limit(content: Seq<u8>) -> bool {
    forall|i: int|
        0 <= i < line_starts(content).len() ==> (#[trigger] raw_line(content, i)).len()
            <= MAX_LINE_BYTES
}

/// Stripping the line end leaves alone a text that does not end in one.
proof fn lemma_strip_nothing(s: Seq<u8>)
    requires
        s.len() == 0 || (s.last() != 10 && s.last() != 13),
    ensures
        strip_line_end(s) == s,
{
}

/// A line read from the whole content is the line without its newline,
/// where it is not too long and does not end in a carriage return.
pub proof fn lemma_line_read_is_raw_line(content: Seq<u8>, i: int)
    requires
        0 <= i < line_starts(content).len(),
        no_carriage_return_at_line_end(content),
        raw_line(content, i).len() <= MAX_LINE_BYTES,
    ensures
        line_of(content, line_starts(content), content.len(), i) == raw_line(content, i),
{
    lemma_line_starts(content);
    let starts = line_starts(content);
    let bounds = line_bounds(starts, content.len(), i);
    let start = bounds.0 as int;
    let end = bounds.1 as int;
    if i + 1 < starts.len() {
        assert(starts[i] < starts[i + 1]);
    }
    assert(start <= end <= content.len());
    let raw = raw_line(content, i);
    assert(raw == content.subrange(start, end));
    if start >= end || start >= content.len() {
        assert(raw =~= Seq::<u8>::empty());
    } else {
        let last = content[end - 1];
        assert(raw.last() == last);
        if last == 10 {
            lemma_newline_starts_line(content, end - 1);
            let k = choose|k: int| 0 <= k < starts.len() && starts[k] == end as nat;
            if k <= i {
                if k < i {
                    assert(starts[k] < starts[i]);
                }
            } else if i + 1 < starts.len() {
                if k > i + 1 {
                    assert(starts[i + 1] < starts[k]);
                }
            }
            assert(false);
        }
        if last == 13 {
            if i + 1 < starts.len() {
                assert(content[starts[i + 1] - 1] == 10);
            }
            assert(false);
        }
        lemma_strip_nothing(raw);
    }
}

/// For bytes without compression, the lines read after the bytes have been
/// appended in one piece, joined with newlines, are the bytes again; a
/// trailing newline shows as an empty last line. This holds where no line
/// ends in a carriage return or exceeds the length that is read in one
/// piece.
pub proof fn lemma_identity_round_trip(total: nat, data: Seq<u8>)
    requires
        data.len() <= usize::MAX,
        no_carriage_return_at_line_end(data),
        lines_within_limit(data),
    ensures
        ({
            let fresh = PreviewState {
                content: Seq::empty(),
                source_bytes: 0,
                total_source_size: total,
                status: StatusView::Prefetching,
                transform: TransformState::Identity,
            };
            let after = append_step(fresh, data, 0).0;
            &&& after.content == data
            &&& join_lines(
                Seq::new(
                    line_starts(after.content).len(),
                    |i: int|
                        line_of(
                            after.content,
                            line_starts(after.content),
                            after.content.len(),
                            i,
                        ),
                ),
            ) == data
        }),
{
    let fresh = PreviewState {
        content: Seq::empty(),
        source_bytes: 0,
        total_source_size: total,
        status: StatusView::Prefetching,
        transform: TransformState::Identity,
    };
    let after = append_step(fresh, data, 0).0;
    assert(Seq::<u8>::empty() + data =~= data);
    assert(data + Seq::<u8>::empty() =~= data);
    assert(Seq::<u8>::empty() + (data + Seq::<u8>::empty()) =~= data);
    assert(after.content == data);
    lemma_lines_partition_content(data);
    assert forall|i: int| 0 <= i < line_starts(data).len() implies line_of(
        data,
        line_starts(data),
        data.len(),
        i,
    ) == raw_line(data, i) by {
        lemma_line_read_is_raw_line(data, i);
    }
    assert(Seq::new(
        line_starts(data).len(),
        |i: int| line_of(data, line_starts(data), data.len(), i),
    ) =~= raw_lines(data));
}

/// The state of a preview after the first `upto` chunks have been appended,
/// each at the offset at which the chunks before it end.
pub open spec fn append_all(s: PreviewState, chunks: Seq<Seq<u8>>, upto: int) -> PreviewState
    decreases upto,
{
    if upto <= 0 {
        s
    } else {
        append_step(
            append_all(s, chunks, upto - 1),
            chunks[upto - 1],
            concat(chunks.take(upto - 1)).len(),
        ).0
    }
}

/// Appending bytes without compression chunk by chunk gives the same
/// content, the same count of bytes and with it the same line index and the
/// same lines as appending them in one piece.
pub proof fn lemma_chunking_is_immaterial(total: nat, chunks: Seq<Seq<u8>>)
    requires
        concat(chunks).len() <= usize::MAX,
    ensures
        ({
            let fresh = PreviewState {
                content: Seq::empty(),
                source_bytes: 0,
                total_source_size: total,
                status: StatusView::Prefetching,
                transform: TransformState::Identity,
            };
            let chunked = append_all(fresh, chunks, chunks.len() as int);
            let whole = append_step(fresh, concat(chunks), 0).0;
            &&& chunked.content == whole.content
            &&& chunked.content == concat(chunks)
            &&& chunked.source_bytes == whole.source_bytes
            &&& line_starts(chunked.content) == line_starts(whole.content)
            &&& forall|mapped: Seq<u8>, i: int|
                line_of(mapped, line_starts(chunked.content), chunked.content.len(), i)
                    == line_of(mapped, line_starts(whole.content), whole.content.len(), i)
        }),
{
    let fresh = PreviewState {
        content: Seq::empty(),
        source_bytes: 0,
        total_source_size: total,
        status: StatusView::Prefetching,
        transform: TransformState::Identity,
    };
    lemma_append_all(fresh, chunks, chunks.len() as int);
    assert(chunks.take(chunks.len() as int) =~= chunks);
    let all = concat(chunks);
    assert(Seq::<u8>::empty() + all =~= all);
    assert(all + Seq::<u8>::empty() =~= all);
    assert(Seq::<u8>::empty() + (all + Seq::<u8>::empty()) =~= all);
}

/// A prefix of the chunks is no longer than all of them.
proof fn lemma_concat_prefix_len(chunks: Seq<Seq<u8>>, upto: int)
    requires
        0 <= upto <= chunks.len(),
    ensures
        concat(chunks.take(upto)).len() <= concat(chunks).len(),
    decreases chunks.len() - upto,
{
    if upto == chunks.len() {
        assert(chunks.take(upto) =~= chunks);
    } else {
        lemma_concat_prefix_len(chunks, upto + 1);
        assert(chunks.take(upto + 1).drop_last() =~= chunks.take(upto));
    }
}

/// After the first chunks have been appended without compression, the
/// content is those chunks one after another.
proof fn lemma_append_all(fresh: PreviewState, chunks: Seq<Seq<u8>>, upto: int)
    requires
        0 <= upto <= chunks.len(),
        concat(chunks).len() <= usize::MAX,
        fresh.content.len() == 0,
        fresh.source_bytes == 0,
        fresh.transform is Identity,
        !(fresh.status is Error),
    ensures
        append_all(fresh, chunks, upto).content == concat(chunks.take(upto)),
        append_all(fresh, chunks, upto).source_bytes == concat(chunks.take(upto)).len(),
        append_all(fresh, chunks, upto).transform is Identity,
        !(append_all(fresh, chunks, upto).status is Error),
        append_all(fresh, chunks, upto).total_source_size == fresh.total_source_size,
    decreases upto,
{
    if upto <= 0 {
        assert(chunks.take(0) =~= Seq::<Seq<u8>>::empty());
        assert(fresh.content =~= Seq::<u8>::empty());
    } else {
        lemma_append_all(fresh, chunks, upto - 1);
        lemma_concat_prefix_len(chunks, upto);
        let before = append_all(fresh, chunks, upto - 1);
        let chunk = chunks[upto - 1];
        assert(chunks.take(upto).drop_last() =~= chunks.take(upto - 1));
        assert(chunks.take(upto).last() == chunk);
        assert(concat(chunks.take(upto)) == concat(chunks.take(upto - 1)) + chunk);
        assert(chunk + Seq::<u8>::empty() =~= chunk);
    }
}

/// What a gzip transform has handed out after the first `upto` chunks, and
/// its state then.
pub open spec fn gzip_outputs(s: GzipState, chunks: Seq<Seq<u8>>, upto: int) -> (
    GzipState,
    Seq<u8>,
)
    decreases upto,
{
    if upto <= 0 {
        (s, Seq::empty())
    } else {
        let before = gzip_outputs(s, chunks, upto - 1);
        let step = gzip_process(before.0, chunks[upto - 1]);
        (
            step.0,
            before.1 + match step.1 {
                Ok(bytes) => bytes,
                Err(_) => Seq::empty(),
            },
        )
    }
}

/// Whether the gzip reader, given the first chunks only, yields without
/// failure a prefix of what it yields for all chunks.
pub open spec fn decodes_to_prefix(chunks: Seq<Seq<u8>>, upto: int) -> bool {
    &&& gunzip(concat(chunks.take(upto))).1 is None
    &&& gunzip(concat(chunks.take(upto))).0.is_prefix_of(gunzip(concat(chunks)).0)
}

/// A gzip stream that is fed to the transform in chunks, however it is cut,
/// comes out as the reader yields it for the whole stream.
///
/// This holds of a reader that, given a stream that breaks off, yields the
/// beginning of what it yields for the whole stream: of each prefix of the
/// chunks that is asked.
pub proof fn lemma_gzip_chunking(chunks: Seq<Seq<u8>>)
    requires
        forall|k: int| 0 <= k <= chunks.len() ==> #[trigger] decodes_to_prefix(chunks, k),
    ensures
        ({
            let fresh = GzipState { buffer: Seq::empty(), emitted: 0, error: false };
            let fed = gzip_outputs(fresh, chunks, chunks.len() as int);
            let finished = gzip_finish(fed.0);
            &&& finished.1 is Ok
            &&& fed.1 + finished.1->Ok_0 == gunzip(concat(chunks)).0
        }),
{
    let fresh = GzipState { buffer: Seq::empty(), emitted: 0, error: false };
    let full = gunzip(concat(chunks)).0;
    lemma_gzip_outputs(chunks, chunks.len() as int);
    let fed = gzip_outputs(fresh, chunks, chunks.len() as int);
    assert(chunks.take(chunks.len() as int) =~= chunks);
    assert(decodes_to_prefix(chunks, chunks.len() as int));
    let finished = gzip_finish(fed.0);
    if full.len() > fed.0.emitted {
        assert(full.take(fed.0.emitted as int) + full.skip(fed.0.emitted as int) =~= full);
    } else {
        assert(full.take(fed.0.emitted as int) + Seq::<u8>::empty() =~= full);
    }
}

/// After the first chunks, the gzip transform has handed out a beginning of
/// what the reader yields for the whole stream.
proof fn lemma_gzip_outputs(chunks: Seq<Seq<u8>>, upto: int)
    requires
        0 <= upto <= chunks.len(),
        forall|k: int| 0 <= k <= chunks.len() ==> #[trigger] decodes_to_prefix(chunks, k),
    ensures
        ({
            let fresh = GzipState { buffer: Seq::empty(), emitted: 0, error: false };
            let fed = gzip_outputs(fresh, chunks, upto);
            let full = gunzip(concat(chunks)).0;
            &&& fed.0.buffer == concat(chunks.take(upto))
            &&& !fed.0.error
            &&& fed.0.emitted <= full.len()
            &&& fed.1 == full.take(fed.0.emitted as int)
        }),
    decreases upto,
{
    let fresh = GzipState { buffer: Seq::empty(), emitted: 0, error: false };
    let full = gunzip(concat(chunks)).0;
    if upto <= 0 {
        assert(chunks.take(0) =~= Seq::<Seq<u8>>::empty());
        assert(full.take(0) =~= Seq::<u8>::empty());
    } else {
        lemma_gzip_outputs(chunks, upto - 1);
        let before = gzip_outputs(fresh, chunks, upto - 1);
        let chunk = chunks[upto - 1];
        assert(chunks.take(upto).drop_last() =~= chunks.take(upto - 1));
        assert(chunks.take(upto).last() == chunk);
        assert(concat(chunks.take(upto)) == concat(chunks.take(upto - 1)) + chunk);
        assert(decodes_to_prefix(chunks, upto));
        if chunk.len() == 0 {
            assert(before.0.buffer + chunk =~= before.0.buffer);
            assert(before.1 + Seq::<u8>::empty() =~= before.1);
        } else {
            let part = gunzip(before.0.buffer + chunk).0;
            if part.len() > before.0.emitted {
                assert(part.skip(before.0.emitted as int) =~= full.subrange(
                    before.0.emitted as int,
                    part.len() as int,
                ));
                assert(full.take(before.0.emitted as int) + full.subrange(
                    before.0.emitted as int,
                    part.len() as int,
                ) =~= full.take(part.len() as int));
            } else {
                assert(before.1 + Seq::<u8>::empty() =~= before.1);
            }
        }
    }
}

/// A fresh preview of a gzip object of `total` compressed bytes.
pub open spec fn fresh_gzip_preview(total: nat) -> PreviewState {
    PreviewState {
        content: Seq::empty(),
        source_bytes: 0,
        total_source_size: total,
        status: StatusView::Prefetching,
        transform: TransformState::Gzip(
            GzipState { buffer: Seq::empty(), emitted: 0, error: false },
        ),
    }
}

/// What holds of a gzip preview after the first `upto` chunks of a stream:
/// it has taken in those chunks, has not failed, holds a beginning of what
/// the reader yields for the whole stream, and is complete, with all of it,
/// exactly when the chunks taken in make up the stream.
spec fn gzip_preview_fed(chunks: Seq<Seq<u8>>, upto: int, s: PreviewState) -> bool {
    let full = gunzip(concat(chunks)).0;
    &&& !(s.status is Error)
    &&& s.total_source_size == concat(chunks).len()
    &&& s.source_bytes == concat(chunks.take(upto)).len()
    &&& s.transform matches TransformState::Gzip(g) && g.buffer == concat(chunks.take(upto))
        && !g.error && g.emitted == s.content.len()
    &&& s.content.is_prefix_of(full)
    &&& (s.status is Complete) == (upto >= 1 && s.source_bytes >= s.total_source_size)
    &&& s.status is Complete ==> s.content == full
}

/// The first chunks of a stream, one after another, are a beginning of the
/// stream.
proof fn lemma_concat_prefix(chunks: Seq<Seq<u8>>, upto: int)
    requires
        0 <= upto <= chunks.len(),
    ensures
        concat(chunks.take(upto)).is_prefix_of(concat(chunks)),
    decreases chunks.len() - upto,
{
    if upto == chunks.len() {
        assert(chunks.take(upto) =~= chunks);
    } else {
        lemma_concat_prefix(chunks, upto + 1);
        assert(chunks.take(upto + 1).drop_last() =~= chunks.take(upto));
    }
}

/// After each chunk, a gzip preview that is fed a stream in chunks stands as
/// `gzip_preview_fed` says.
proof fn lemma_gzip_preview_fed(chunks: Seq<Seq<u8>>, upto: int)
    requires
        0 <= upto <= chunks.len(),
        forall|k: int| 0 <= k <= chunks.len() ==> #[trigger] decodes_to_prefix(chunks, k),
        concat(chunks).len() <= usize::MAX,
        gunzip(concat(chunks)).0.len() <= usize::MAX,
    ensures
        gzip_preview_fed(
            chunks,
            upto,
            append_all(fresh_gzip_preview(concat(chunks).len()), chunks, upto),
        ),
    decreases upto,
{
    let total = concat(chunks).len();
    let fresh = fresh_gzip_preview(total);
    let full = gunzip(concat(chunks)).0;
    if upto <= 0 {
        assert(chunks.take(0) =~= Seq::<Seq<u8>>::empty());
        assert(fresh.content.is_prefix_of(full));
    } else {
        lemma_gzip_preview_fed(chunks, upto - 1);
        lemma_concat_prefix(chunks, upto);
        let before = append_all(fresh, chunks, upto - 1);
        let chunk = chunks[upto - 1];
        let taken = concat(chunks.take(upto));
        assert(chunks.take(upto).drop_last() =~= chunks.take(upto - 1));
        assert(chunks.take(upto).last() == chunk);
        assert(taken == concat(chunks.take(upto - 1)) + chunk);
        assert(decodes_to_prefix(chunks, upto));
        let g = before.transform->Gzip_0;
        let processed = gzip_process(g, chunk);
        let part = gunzip(taken).0;
        if chunk.len() == 0 {
            assert(g.buffer + chunk =~= g.buffer);
            assert(taken =~= g.buffer);
            assert(before.content + Seq::<u8>::empty() =~= before.content);
        } else {
            if part.len() > g.emitted {
                assert(before.content + part.skip(g.emitted as int) =~= part);
            } else {
                assert(before.content + Seq::<u8>::empty() =~= before.content);
            }
        }
        let first = processed.1->Ok_0;
        let mid = before.content + first;
        assert(mid.is_prefix_of(full));
        assert(processed.0.emitted == mid.len());
        assert(processed.0.buffer == taken);
        if taken.len() >= total {
            assert(taken =~= concat(chunks));
            if !(before.status is Complete) {
                let finished = gzip_finish(processed.0);
                if full.len() > mid.len() {
                    assert(mid + full.skip(mid.len() as int) =~= full);
                    assert(before.content + (first + full.skip(mid.len() as int)) =~= full);
                } else {
                    assert(mid =~= full);
                    assert(before.content + (first + Seq::<u8>::empty()) =~= full);
                }
            } else {
                assert(mid =~= full);
            }
        }
    }
}

/// A gzip preview that is fed a stream in chunks, however it is cut, ends
/// with the same content, the same counts and with them the same line index
/// as one that is fed the stream in one piece: with what the reader yields
/// for the whole stream.
///
/// This holds of a reader that, given a stream that breaks off, yields the
/// beginning of what it yields for the whole stream, and of a stream and a
/// result whose lengths are counts of the machine.
pub proof fn lemma_gzip_preview_chunking(chunks: Seq<Seq<u8>>)
    requires
        chunks.len() >= 1,
        forall|k: int| 0 <= k <= chunks.len() ==> #[trigger] decodes_to_prefix(chunks, k),
        concat(chunks).len() <= usize::MAX,
        gunzip(concat(chunks)).0.len() <= usize::MAX,
    ensures
        ({
            let fresh = fresh_gzip_preview(concat(chunks).len());
            let chunked = append_all(fresh, chunks, chunks.len() as int);
            let whole = append_step(fresh, concat(chunks), 0).0;
            &&& chunked.content == gunzip(concat(chunks)).0
            &&& chunked.content == whole.content
            &&& chunked.source_bytes == whole.source_bytes
            &&& chunked.source_bytes == concat(chunks).len()
            &&& chunked.status is Complete
            &&& whole.status is Complete
            &&& line_starts(chunked.content) == line_starts(whole.content)
        }),
{
    let all = concat(chunks);
    let fresh = fresh_gzip_preview(all.len());
    let full = gunzip(all).0;
    lemma_gzip_preview_fed(chunks, chunks.len() as int);
    assert(chunks.take(chunks.len() as int) =~= chunks);
    assert(decodes_to_prefix(chunks, chunks.len() as int));
    assert(Seq::<u8>::empty() + all =~= all);
    let g = GzipState { buffer: Seq::empty(), emitted: 0, error: false };
    let processed = gzip_process(g, all);
    if all.len() == 0 {
        assert(Seq::<u8>::empty() + (Seq::<u8>::empty() + full.skip(0)) =~= full);
        assert(Seq::<u8>::empty() + (Seq::<u8>::empty() + Seq::<u8>::empty())
            =~= Seq::<u8>::empty());
    } else {
        assert(full.skip(0) =~= full);
        assert(Seq::<u8>::empty() + (full + Seq::<u8>::empty()) =~= full);
        assert(Seq::<u8>::empty() + (Seq::<u8>::empty() + Seq::<u8>::empty())
            =~= Seq::<u8>::empty());
    }
}

} // verus!
