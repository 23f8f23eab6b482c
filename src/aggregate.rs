//! Aggregation of lines into per-key statistics, and the laws that make the
//! chunked, out-of-order reduction exact.
use vstd::prelude::*;
use crate::stats::{Summary, single};
use crate::partial_map::{
    PartialMap,
    StatsMap,
    absorb,
    merge_maps,
    lemma_absorb_is_merge,
    lemma_merge_associative,
    lemma_merge_commutative,
    lemma_merge_empty,
};
use crate::row::{parse_row, parse_row_spec};
use crate::progress::{chunk_count, progress_spec, lemma_empty_input, COMPLETE};

verus! {

/// The observations that lines hold, in order, malformed lines left out.
pub open spec fn observations(lines: Seq<Seq<char>>) -> Seq<(Seq<char>, int)>
    decreases lines.len(),
{
    if lines.len() == 0 {
        Seq::empty()
    } else {
        let rest = observations(lines.drop_last());
        match parse_row_spec(lines.last()) {
            Some(o) => rest.push(o),
            None => rest,
        }
    }
}

/// Per-key statistics of a sequence of observations.
pub open spec fn summarize(obs: Seq<(Seq<char>, int)>) -> StatsMap
    decreases obs.len(),
{
    if obs.len() == 0 {
        Map::empty()
    } else {
        absorb(summarize(obs.drop_last()), obs.last().0, single(obs.last().1))
    }
}

/// Per-key statistics of the well-formed lines among `lines`.
pub open spec fn aggregate(lines: Seq<Seq<char>>) -> StatsMap {
    summarize(observations(lines))
}

/// The text of each line.
pub open spec fn line_views(chunk: Seq<String>) -> Seq<Seq<char>> {
    chunk.map_values(|s: String| s@)
}

/// Number of observations of key `k`.
pub open spec fn key_count(obs: Seq<(Seq<char>, int)>, k: Seq<char>) -> nat
    decreases obs.len(),
{
    if obs.len() == 0 {
        0
    } else {
        key_count(obs.drop_last(), k) + if obs.last().0 == k {
            1nat
        } else {
            0nat
        }
    }
}

/// The lines cut into consecutive chunks of `c` lines, the last one possibly
/// shorter.
pub open spec fn chunks_of<T>(lines: Seq<T>, c: nat) -> Seq<Seq<T>>
    decreases lines.len(),
{
    if lines.len() == 0 {
        Seq::empty()
    } else if c == 0 || lines.len() <= c {
        seq![lines]
    } else {
        seq![lines.take(c as int)] + chunks_of(lines.skip(c as int), c)
    }
}

/// A stream cut as the chunk buffer cuts it, into full chunks of `c` lines
/// followed by fewer than `c` pending lines, gives the chunks of `chunks_of`:
/// the full ones, then the pending lines as a last chunk if there are any.
pub proof fn lemma_stream_chunks<T>(emitted: Seq<Seq<T>>, pending: Seq<T>, c: nat)
    requires
        c > 0,
        forall|i: int| 0 <= i < emitted.len() ==> (#[trigger] emitted[i]).len() == c,
        pending.len() < c,
    ensures
        chunks_of(emitted.flatten() + pending, c) == if pending.len() == 0 {
            emitted
        } else {
            emitted.push(pending)
        },
    decreases emitted.len(),
{
    let lines = emitted.flatten() + pending;
    if emitted.len() == 0 {
        assert(lines =~= pending);
        if pending.len() == 0 {
            assert(chunks_of(lines, c) =~= emitted);
        } else {
            assert(chunks_of(lines, c) =~= emitted.push(pending));
        }
    } else {
        let e0 = emitted[0];
        let rest = emitted.drop_first();
        assert forall|i: int| 0 <= i < rest.len() implies (#[trigger] rest[i]).len() == c by {
            assert(rest[i] == emitted[i + 1]);
        }
        lemma_stream_chunks(rest, pending, c);
        assert(lines =~= e0 + (rest.flatten() + pending));
        if rest.len() == 0 && pending.len() == 0 {
            assert(rest.flatten() =~= Seq::<T>::empty());
            assert(lines =~= e0);
            assert(chunks_of(lines, c) =~= emitted);
        } else {
            if rest.len() > 0 {
                assert(rest.flatten() == rest[0] + rest.drop_first().flatten());
            }
            assert(lines.len() > c);
            assert(lines.take(c as int) =~= e0);
            assert(lines.skip(c as int) =~= rest.flatten() + pending);
            if pending.len() == 0 {
                assert(chunks_of(lines, c) =~= emitted);
            } else {
                assert(chunks_of(lines, c) =~= emitted.push(pending));
            }
        }
    }
}

/// The results merged one after another into an initially empty map, as the
/// consumer does.
pub open spec fn merge_all(ms: Seq<StatsMap>) -> StatsMap
    decreases ms.len(),
{
    if ms.len() == 0 {
        Map::empty()
    } else {
        merge_maps(merge_all(ms.drop_last()), ms.last())
    }
}

/// The statistics of two runs of observations, one after the other, are the
/// merge of the statistics of each.
pub proof fn lemma_summarize_concat(o1: Seq<(Seq<char>, int)>, o2: Seq<(Seq<char>, int)>)
    ensures
        summarize(o1 + o2) == merge_maps(summarize(o1), summarize(o2)),
    decreases o2.len(),
{
    if o2.len() == 0 {
        assert(o1 + o2 =~= o1);
        lemma_merge_empty(summarize(o1));
    } else {
        let x = o2.last();
        let t = o2.drop_last();
        lemma_summarize_concat(o1, t);
        assert((o1 + o2).drop_last() =~= o1 + t);
        assert((o1 + o2).last() == x);
        lemma_absorb_is_merge(summarize(o1 + t), x.0, single(x.1));
        lemma_absorb_is_merge(summarize(t), x.0, single(x.1));
        lemma_merge_associative(summarize(o1), summarize(t), map![x.0 => single(x.1)]);
    }
}

/// The observations of two runs of lines are those of each, in order.
pub proof fn lemma_observations_concat(l1: Seq<Seq<char>>, l2: Seq<Seq<char>>)
    ensures
        observations(l1 + l2) == observations(l1) + observations(l2),
    decreases l2.len(),
{
    if l2.len() == 0 {
        assert(l1 + l2 =~= l1);
        assert(observations(l1) + observations(l2) =~= observations(l1));
    } else {
        lemma_observations_concat(l1, l2.drop_last());
        assert((l1 + l2).drop_last() =~= l1 + l2.drop_last());
        assert((l1 + l2).last() == l2.last());
        match parse_row_spec(l2.last()) {
            Some(o) => {
                assert(observations(l1) + observations(l2.drop_last()).push(o) =~= (observations(l1)
                    + observations(l2.drop_last())).push(o));
            },
            None => {},
        }
    }
}

/// Aggregating two runs of lines separately and merging the results gives
/// the aggregate of all the lines.
pub proof fn lemma_aggregate_concat(l1: Seq<Seq<char>>, l2: Seq<Seq<char>>)
    ensures
        aggregate(l1 + l2) == merge_maps(aggregate(l1), aggregate(l2)),
{
    lemma_observations_concat(l1, l2);
    lemma_summarize_concat(observations(l1), observations(l2));
}

/// Merging a sequence of results in two parts and merging the parts gives
/// the same as merging them all.
pub proof fn lemma_merge_all_concat(a: Seq<StatsMap>, b: Seq<StatsMap>)
    ensures
        merge_all(a + b) == merge_maps(merge_all(a), merge_all(b)),
    decreases b.len(),
{
    if b.len() == 0 {
        assert(a + b =~= a);
        lemma_merge_empty(merge_all(a));
    } else {
        lemma_merge_all_concat(a, b.drop_last());
        assert((a + b).drop_last() =~= a + b.drop_last());
        assert((a + b).last() == b.last());
        lemma_merge_associative(merge_all(a), merge_all(b.drop_last()), b.last());
    }
}

proof fn lemma_merge_all_single(x: StatsMap)
    ensures
        merge_all(seq![x]) == x,
{
    let s = seq![x];
    assert(s.drop_last() =~= Seq::<StatsMap>::empty());
    assert(merge_all(s.drop_last()) == Map::<Seq<char>, Summary>::empty());
    assert(s.last() == x);
    lemma_merge_empty(x);
}

/// Chunk-size invariance: whatever the chunk size, merging the chunks'
/// aggregates in file order gives the aggregate of the whole input.
pub proof fn lemma_chunked_aggregate(lines: Seq<Seq<char>>, c: nat)
    ensures
        merge_all(chunks_of(lines, c).map_values(|ch: Seq<Seq<char>>| aggregate(ch))) == aggregate(
            lines,
        ),
    decreases lines.len(),
{
    let ms = chunks_of(lines, c).map_values(|ch: Seq<Seq<char>>| aggregate(ch));
    if lines.len() == 0 {
        assert(ms.len() == 0);
        assert(observations(lines) =~= Seq::empty());
    } else if c == 0 || lines.len() <= c {
        assert(chunks_of(lines, c) == seq![lines]);
        assert(ms.len() == 1);
        assert(ms =~= seq![aggregate(lines)]);
        lemma_merge_all_single(aggregate(lines));
    } else {
        let head = lines.take(c as int);
        let tail = lines.skip(c as int);
        lemma_chunked_aggregate(tail, c);
        let rest = chunks_of(tail, c).map_values(|ch: Seq<Seq<char>>| aggregate(ch));
        assert(chunks_of(lines, c) == seq![head] + chunks_of(tail, c));
        assert(ms =~= seq![aggregate(head)] + rest);
        lemma_merge_all_concat(seq![aggregate(head)], rest);
        lemma_merge_all_single(aggregate(head));
        assert(lines =~= head + tail);
        lemma_aggregate_concat(head, tail);
    }
}

/// Completion order does not matter: exchanging two neighbouring results
/// leaves the merge of all of them unchanged, so any reordering does.
pub proof fn lemma_merge_all_swap(
    a: Seq<StatsMap>,
    x: StatsMap,
    y: StatsMap,
    b: Seq<StatsMap>,
)
    ensures
        merge_all(a + seq![x, y] + b) == merge_all(a + seq![y, x] + b),
{
    lemma_merge_all_concat(a + seq![x, y], b);
    lemma_merge_all_concat(a + seq![y, x], b);
    lemma_merge_all_concat(a, seq![x, y]);
    lemma_merge_all_concat(a, seq![y, x]);
    assert(seq![x, y].drop_last() =~= seq![x]);
    assert(seq![y, x].drop_last() =~= seq![y]);
    lemma_merge_all_single(x);
    lemma_merge_all_single(y);
    assert(merge_all(seq![x, y]) == merge_maps(x, y));
    assert(merge_all(seq![y, x]) == merge_maps(y, x));
    lemma_merge_commutative(x, y);
    assert(a + seq![x, y] + b == (a + seq![x, y]) + b);
}

/// Count conservation: a key is present exactly when it was observed, and
/// its count is the number of its observations.
pub proof fn lemma_count_conservation(obs: Seq<(Seq<char>, int)>, k: Seq<char>)
    ensures
        summarize(obs).contains_key(k) <==> key_count(obs, k) > 0,
        summarize(obs).contains_key(k) ==> summarize(obs)[k].count == key_count(obs, k),
    decreases obs.len(),
{
    if obs.len() > 0 {
        lemma_count_conservation(obs.drop_last(), k);
    }
}

/// Count conservation under chunking: whatever the chunk size, a key is in
/// the merged result exactly when some line parses to it, and its count is
/// the number of such lines.
pub proof fn lemma_chunked_counts(lines: Seq<Seq<char>>, c: nat, k: Seq<char>)
    ensures
        ({
            let m = merge_all(chunks_of(lines, c).map_values(|ch: Seq<Seq<char>>| aggregate(ch)));
            &&& m.contains_key(k) <==> key_count(observations(lines), k) > 0
            &&& m.contains_key(k) ==> m[k].count == key_count(observations(lines), k)
        }),
{
    lemma_chunked_aggregate(lines, c);
    lemma_count_conservation(observations(lines), k);
}

/// Empty input: no chunks, an empty result, and complete progress at once.
pub proof fn lemma_empty_run(c: nat)
    requires
        c > 0,
    ensures
        chunks_of(Seq::<Seq<char>>::empty(), c).len() == 0,
        aggregate(Seq::empty()) == Map::<Seq<char>, Summary>::empty(),
        chunk_count(0, c as int) == 0,
        progress_spec(0, chunk_count(0, c as int)) == COMPLETE,
{
    assert(observations(Seq::empty()) =~= Seq::empty());
    lemma_empty_input(c as int);
}

/// Skip correctness: a line that does not parse changes no statistics,
/// wherever it stands.
pub proof fn lemma_skip_malformed(l1: Seq<Seq<char>>, bad: Seq<char>, l2: Seq<Seq<char>>)
    requires
        parse_row_spec(bad) is None,
    ensures
        aggregate(l1 + seq![bad] + l2) == aggregate(l1 + l2),
{
    lemma_aggregate_concat(l1 + seq![bad], l2);
    lemma_aggregate_concat(l1, seq![bad]);
    lemma_aggregate_concat(l1, l2);
    assert(seq![bad].drop_last() =~= Seq::<Seq<char>>::empty());
    assert(seq![bad].last() == bad);
    assert(observations(Seq::<Seq<char>>::empty()) =~= Seq::empty());
    assert(observations(seq![bad]) =~= Seq::empty());
    lemma_merge_empty(aggregate(l1));
}

/// Every count is at most the number of observations.
proof fn lemma_count_bound(obs: Seq<(Seq<char>, int)>)
    ensures
        forall|k: Seq<char>| #[trigger] summarize(obs).contains_key(k) ==> summarize(obs)[k].count <= obs.len(),
    decreases obs.len(),
{
    if obs.len() > 0 {
        let t = obs.drop_last();
        lemma_count_bound(t);
        assert forall|k: Seq<char>| #[trigger] summarize(obs).contains_key(k) implies summarize(
            obs,
        )[k].count <= obs.len() by {
            if summarize(t).contains_key(k) {
                assert(summarize(t)[k].count <= t.len());
            }
        }
    }
}

proof fn lemma_observations_len(lines: Seq<Seq<char>>)
    ensures
        observations(lines).len() <= lines.len(),
    decreases lines.len(),
{
    if lines.len() > 0 {
        lemma_observations_len(lines.drop_last());
    }
}

/// Aggregates one chunk of lines into per-key statistics.
pub fn process_chunk(chunk: Vec<String>) -> (r: PartialMap)
    ensures
        r.wf(),
        r@ == aggregate(line_views(chunk@)),
{
    let mut m = PartialMap::new();
    let mut i: usize = 0;
    proof {
        assert(line_views(chunk@.take(0)) =~= Seq::<Seq<char>>::empty());
    }
    while i < chunk.len()
        invariant
            i <= chunk@.len(),
            m.wf(),
            m@ == aggregate(line_views(chunk@.take(i as int))),
        decreases chunk@.len() - i,
    {
        let ghost before = line_views(chunk@.take(i as int));
        proof {
            assert(line_views(chunk@.take(i as int + 1)) =~= before.push(chunk@[i as int]@));
            assert(before.push(chunk@[i as int]@).drop_last() =~= before);
            lemma_observations_len(before);
            lemma_count_bound(observations(before));
        }
        let ghost line = chunk@[i as int]@;
        proof {
            assert(before.push(line).last() == line);
        }
        match parse_row(chunk[i].as_str()) {
            Some((key, value)) => {
                proof {
                    let o = (key@, value as int);
                    assert(observations(before.push(line)) == observations(before).push(o));
                    assert(observations(before).push(o).drop_last() =~= observations(before));
                    assert(observations(before).push(o).last() == o);
                }
                m.record(key, value);
            },
            None => {
                assert(observations(before.push(line)) == observations(before));
            },
        }
        i = i + 1;
    }
    proof {
        assert(chunk@.take(chunk@.len() as int) =~= chunk@);
    }
    m
}

} // verus!
