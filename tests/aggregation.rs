use process_1bilrows::aggregate::process_chunk;
use process_1bilrows::partial_map::{can_merge, merge_results, PartialMap};
use process_1bilrows::report::report_line;
use process_1bilrows::stats::KeyStats;

fn lines(v: &[&str]) -> Vec<String> {
    v.iter().map(|s| s.to_string()).collect()
}

fn run_chunked(input: &[&str], chunk: usize, reverse: bool) -> PartialMap {
    let mut parts: Vec<PartialMap> = input.chunks(chunk).map(|c| process_chunk(lines(c))).collect();
    if reverse {
        parts.reverse();
    }
    let mut global = PartialMap::new();
    for p in parts {
        assert!(can_merge(&global, &p));
        merge_results(&mut global, p);
    }
    global
}

fn same(a: &PartialMap, b: &PartialMap) {
    assert_eq!(a.len(), b.len());
    for i in 0..a.len() {
        let (k, s) = a.entry(i);
        let t = b.get(&k).expect("key present in both");
        assert_eq!((s.min(), s.max(), s.total(), s.count()), (t.min(), t.max(), t.total(), t.count()));
    }
}

#[test]
fn example_two_chunks_in_either_order() {
    let input = ["A:3", "B:5", "A:7"];
    for reverse in [false, true] {
        let m = run_chunked(&input, 2, reverse);
        assert_eq!(m.len(), 2);
        let a = m.get("A").unwrap();
        assert_eq!((a.min(), a.max(), a.total(), a.count()), (3_000_000, 7_000_000, 10_000_000, 2));
        let b = m.get("B").unwrap();
        assert_eq!((b.min(), b.max(), b.total(), b.count()), (5_000_000, 5_000_000, 5_000_000, 1));
        assert_eq!(report_line("A", &a), "A: min: 3.00, max: 7.00, avg: 5.00");
        assert_eq!(report_line("B", &b), "B: min: 5.00, max: 5.00, avg: 5.00");
    }
}

#[test]
fn chunk_size_does_not_change_result() {
    let mut input: Vec<String> = Vec::new();
    for i in 0..2500 {
        input.push(format!("k{}:{}.{}", i % 7, (i * 37) % 101, i % 10));
        if i % 13 == 0 {
            input.push("garbage".to_string());
        }
    }
    let refs: Vec<&str> = input.iter().map(|s| s.as_str()).collect();
    let whole = process_chunk(input.clone());
    for c in [1, 3, 1000, 1_000_000] {
        same(&run_chunked(&refs, c, false), &whole);
        same(&run_chunked(&refs, c, true), &whole);
    }
}

#[test]
fn counts_are_conserved() {
    let input = ["x:1", "y:2", "x:3", "bad", "x:", "y:4", "x:5", ":6"];
    let m = run_chunked(&input, 3, false);
    assert_eq!(m.get("x").unwrap().count(), 3);
    assert_eq!(m.get("y").unwrap().count(), 2);
    assert_eq!(m.get("").unwrap().count(), 1);
    assert_eq!(m.len(), 3);
}

#[test]
fn malformed_lines_are_skipped() {
    let m = process_chunk(lines(&["", "   ", "no colon here", "k:abc", "k:1e5", "k:.", "k:1:2", "k:2"]));
    assert_eq!(m.len(), 1);
    let k = m.get("k").unwrap();
    assert_eq!((k.min(), k.max(), k.count()), (2_000_000, 2_000_000, 1));
    assert!(m.get("no colon here").is_none());
}

#[test]
fn empty_input_gives_empty_map() {
    let m = process_chunk(Vec::new());
    assert_eq!(m.len(), 0);
    let mut g = PartialMap::new();
    merge_results(&mut g, m);
    assert_eq!(g.len(), 0);
}

#[test]
fn merge_is_commutative_and_associative() {
    let a = || process_chunk(lines(&["p:1", "q:-2.5", "p:9"]));
    let b = || process_chunk(lines(&["q:4", "r:0.25"]));
    let c = || process_chunk(lines(&["p:-3", "r:8", "s:1"]));
    let mut ab = a();
    merge_results(&mut ab, b());
    let mut ba = b();
    merge_results(&mut ba, a());
    same(&ab, &ba);
    let mut ab_c = ab;
    merge_results(&mut ab_c, c());
    let mut bc = b();
    merge_results(&mut bc, c());
    let mut a_bc = a();
    merge_results(&mut a_bc, bc);
    same(&ab_c, &a_bc);
    let p = a_bc.get("p").unwrap();
    assert_eq!((p.min(), p.max(), p.total(), p.count()), (-3_000_000, 9_000_000, 7_000_000, 3));
}

#[test]
fn key_stats_observe_and_combine() {
    let mut s = KeyStats::new(5);
    s.observe(-2);
    s.observe(11);
    assert_eq!((s.min(), s.max(), s.total(), s.count()), (-2, 11, 14, 3));
    let mut t = KeyStats::new(20);
    t.combine(&s);
    assert_eq!((t.min(), t.max(), t.total(), t.count()), (-2, 20, 34, 4));
}

#[test]
fn report_rounds_half_away_from_zero() {
    let m = process_chunk(lines(&["n:-1.005", "n:-2.004", "t:1", "t:0", "t:0", "é ü:12345.678"]));
    assert_eq!(report_line("n", &m.get("n").unwrap()), "n: min: -2.00, max: -1.01, avg: -1.50");
    assert_eq!(report_line("t", &m.get("t").unwrap()), "t: min: 0.00, max: 1.00, avg: 0.33");
    assert_eq!(report_line("é ü", &m.get("é ü").unwrap()), "é ü: min: 12345.68, max: 12345.68, avg: 12345.68");
}

#[test]
fn entries_list_every_key_once() {
    let m = process_chunk(lines(&["b:1", "a:2", "b:3", "c:4"]));
    let mut keys: Vec<String> = (0..m.len()).map(|i| m.entry(i).0).collect();
    keys.sort();
    assert_eq!(keys, vec!["a".to_string(), "b".to_string(), "c".to_string()]);
}
