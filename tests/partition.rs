use combosutils::{
    plan_by_lines, plan_by_parts, split_lines, ByLinesSplitter, ByPartsSplitter, PartWriter,
};

fn numbered(n: usize) -> Vec<String> {
    (0..n).map(|i| format!("line{}", i)).collect()
}

#[test]
fn partition_exactness_by_lines() {
    assert_eq!(plan_by_lines(10, 3), vec![3, 3, 3, 1]);
    let lines = numbered(10);
    let parts = split_lines(&lines, &vec![3, 3, 3, 1], 2);
    let sizes: Vec<usize> = parts.iter().map(|p| p.len()).collect();
    assert_eq!(sizes, vec![3, 3, 3, 1]);
    assert_eq!(parts.concat(), lines);
}

#[test]
fn partition_by_count_larger_than_lines() {
    assert_eq!(plan_by_parts(10, 20), vec![10]);
}

#[test]
fn partition_by_count_last_absorbs_remainder() {
    assert_eq!(plan_by_parts(10, 3), vec![3, 3, 4]);
    assert_eq!(plan_by_parts(10, 4), vec![2, 2, 2, 4]);
    assert_eq!(plan_by_parts(6, 6), vec![1, 1, 1, 1, 1, 1]);
}

#[test]
fn partition_lines_per_part_cut_to_source() {
    assert_eq!(plan_by_lines(5, 100), vec![5]);
    assert_eq!(plan_by_lines(6, 3), vec![3, 3]);
}

#[test]
fn partition_of_empty_source() {
    assert!(plan_by_lines(0, 3).is_empty());
    assert!(plan_by_parts(0, 3).is_empty());
    assert!(split_lines(&Vec::new(), &Vec::new(), 4).is_empty());
}

#[test]
fn splitter_constructors_reject_zero() {
    assert!(ByLinesSplitter::new(0).is_none());
    assert!(ByPartsSplitter::new(0).is_none());
    assert_eq!(ByLinesSplitter::new(4).unwrap().plan(9), vec![4, 4, 1]);
    assert_eq!(ByPartsSplitter::new(2).unwrap().plan(9), vec![4, 5]);
}

#[test]
fn part_writer_never_straddles_a_boundary() {
    let lines = numbered(7);
    let mut w = PartWriter::new(vec![3, 4], 2);
    let mut writes = Vec::new();
    for l in &lines {
        if let Some(x) = w.push(l.clone()) {
            writes.push((x.part, x.first, x.lines));
        }
    }
    assert!(w.finish().is_none());
    assert_eq!(
        writes,
        vec![
            (0, 0, vec!["line0".to_string(), "line1".to_string()]),
            (0, 2, vec!["line2".to_string()]),
            (1, 3, vec!["line3".to_string(), "line4".to_string()]),
            (1, 5, vec!["line5".to_string(), "line6".to_string()]),
        ]
    );
    assert_eq!(w.part(), 2);
}

#[test]
fn part_writer_finish_flushes_short_source() {
    let mut w = PartWriter::new(vec![5], 4);
    assert!(w.push("a".to_string()).is_none());
    let last = w.finish().unwrap();
    assert_eq!((last.part, last.first, last.lines), (0, 0, vec!["a".to_string()]));
}
