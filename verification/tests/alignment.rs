use spor::alignment::align::{Aligner, AlignmentCell};
use spor::alignment::smith_waterman::Scorer;
use spor::alignment::smith_waterman::details::{build_score_matrix, traceback_to_alignment, tracebacks};
use spor::alignment::smith_waterman::{SimpleScorer, SmithWaterman};

const INPUT1: &str = "GGTTGACTA";
const INPUT2: &str = "TGTTACGG";

#[test]
fn canned_tracebacks() {
    let (score_matrix, traceback_matrix) =
        build_score_matrix(INPUT1, INPUT2, &SimpleScorer::default());

    let mut max_idx: (usize, usize) = (0, 0);
    let mut max_score: i64 = 0;
    for r in 0..10usize {
        for c in 0..9usize {
            if score_matrix.get(r, c) > max_score {
                max_score = score_matrix.get(r, c);
                max_idx = (r, c);
            }
        }
    }

    let tbs = tracebacks(&traceback_matrix, max_idx);
    assert_eq!(tbs.len(), 1);

    let expected: Vec<(usize, usize)> = vec![(7, 6), (6, 5), (5, 4), (4, 4), (3, 3), (2, 2)];
    assert_eq!(tbs[0], expected);
}

#[test]
fn canned_score_matrix() {
    let expected: Vec<i64> = vec![
        0, 0, 0, 0, 0, 0, 0, 0, 0, 0, 0, 3, 1, 0, 0, 0, 3, 3, 0, 0, 3, 1, 0, 0, 0, 3, 6, 0, 3, 1,
        6, 4, 2, 0, 1, 4, 0, 3, 1, 4, 9, 7, 5, 3, 2, 0, 1, 6, 4, 7, 6, 4, 8, 6, 0, 0, 4, 3, 5, 10,
        8, 6, 5, 0, 0, 2, 1, 3, 8, 13, 11, 9, 0, 3, 1, 5, 4, 6, 11, 10, 8, 0, 1, 0, 3, 2, 7, 9, 8,
        7,
    ];

    let (score_matrix, _) = build_score_matrix(INPUT1, INPUT2, &SimpleScorer::default());

    for r in 0..10usize {
        for c in 0..9usize {
            assert_eq!(score_matrix.get(r, c), expected[r * 9 + c]);
        }
    }
}

#[test]
fn canned_alignment() {
    let alignments = SmithWaterman::<SimpleScorer>::new(SimpleScorer::default())
        .align(INPUT1, INPUT2)
        .unwrap();
    assert_eq!(alignments.score(), 13);
    assert_eq!(alignments.len(), 1);

    let expected = vec![
        AlignmentCell::Both { left: 1, right: 1 },
        AlignmentCell::Both { left: 2, right: 2 },
        AlignmentCell::Both { left: 3, right: 3 },
        AlignmentCell::RightGap { left: 4 },
        AlignmentCell::Both { left: 5, right: 4 },
        AlignmentCell::Both { left: 6, right: 5 },
    ];

    assert_eq!(*alignments.get(0), expected);
}

#[test]
fn align_rejects_empty_sequences() {
    let engine = SmithWaterman::<SimpleScorer>::new(SimpleScorer::default());
    assert!(engine.align("", "TGTT").is_err());
    assert!(engine.align("GGTT", "").is_err());
    assert!(engine.align("", "").is_err());
}

#[test]
fn align_identical_sequences() {
    let engine = SmithWaterman::<SimpleScorer>::new(SimpleScorer::default());
    let alignments = engine.align("GATTACA", "GATTACA").unwrap();
    assert_eq!(alignments.score(), 21);
    assert_eq!(alignments.len(), 1);
    let expected: Vec<AlignmentCell> = (0..7)
        .map(|i| AlignmentCell::Both { left: i, right: i })
        .collect();
    assert_eq!(*alignments.get(0), expected);
}

#[test]
fn align_single_character() {
    let engine = SmithWaterman::<SimpleScorer>::new(SimpleScorer::default());
    let alignments = engine.align("a", "a").unwrap();
    assert_eq!(alignments.score(), 3);
    assert_eq!(alignments.len(), 1);
    assert_eq!(
        *alignments.get(0),
        vec![AlignmentCell::Both { left: 0, right: 0 }]
    );
}

#[test]
fn align_no_common_characters_scores_zero() {
    let engine = SmithWaterman::<SimpleScorer>::new(SimpleScorer::default());
    let alignments = engine.align("aaa", "bbb").unwrap();
    assert_eq!(alignments.score(), 0);
    assert!(alignments.len() >= 1);
}

#[test]
fn scorer_values() {
    let scorer = SimpleScorer::default();
    assert_eq!(scorer.score('a', 'a'), 3);
    assert_eq!(scorer.score('a', 'b'), -3);
    assert_eq!(scorer.gap_penalty(1), 2);
}

#[test]
fn gap_penalty_is_linear() {
    let scorer = SimpleScorer::default();
    for k in 1..10u32 {
        assert_eq!(scorer.gap_penalty(k), (k as i64) * scorer.gap_penalty(1));
    }
    let other = SimpleScorer::new(5, 7);
    assert_eq!(other.gap_penalty(4), 28);
}

#[test]
fn traceback_conversion() {
    let good: Vec<(usize, usize)> = vec![(3, 3), (2, 2), (1, 1)];
    let alignment = traceback_to_alignment(&good).unwrap();
    assert_eq!(
        alignment,
        vec![
            AlignmentCell::Both { left: 0, right: 0 },
            AlignmentCell::Both { left: 1, right: 1 },
            AlignmentCell::Both { left: 2, right: 2 },
        ]
    );

    let bad: Vec<(usize, usize)> = vec![(5, 5), (1, 1)];
    let err = traceback_to_alignment(&bad).unwrap_err();
    assert_eq!(err.traceback, bad);
}
