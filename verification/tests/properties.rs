use ng_diff::{
    score_last_line, AsCharsIter, CharsIter, Diff, DiffItem, Difference, Hirschberg,
    HirschbergAlg, Insert, Lcs, NwScoreLine, SeqIter, SequenceIterator, SliceIter,
};

fn lcs_of(a: &str, b: &str) -> Vec<char> {
    Hirschberg::lcs(a.chars_iter(), b.chars_iter())
}

fn diff_of(a: &str, b: &str) -> Vec<DiffItem<char>> {
    Hirschberg::diff(a.chars_iter(), b.chars_iter())
}

const PAIRS: [(&str, &str); 8] = [
    ("", ""),
    ("A", ""),
    ("", "B"),
    ("AGTACGCA", "TATGC"),
    ("ABCBDAB", "BDCABA"),
    ("abcdfghjqvz", "abcdefgijkrxyz"),
    ("aaaa", "aa"),
    ("xyz", "abc"),
];

#[test]
fn lcs_length_is_symmetric() {
    for (a, b) in PAIRS {
        assert_eq!(lcs_of(a, b).len(), lcs_of(b, a).len());
    }
    assert_eq!(lcs_of("ABCBDAB", "BDCABA").len(), 4);
}

#[test]
fn diff_shares_the_lcs() {
    for (a, b) in PAIRS {
        let shared: Vec<char> = diff_of(a, b)
            .into_iter()
            .filter(|item| matches!(item, DiffItem::Both(_)))
            .map(|item| item.into_inner())
            .collect();
        assert_eq!(shared, lcs_of(a, b));
    }
}

#[test]
fn diff_reconstructs_both_inputs() {
    for (a, b) in PAIRS {
        let first: String = diff_of(a, b)
            .into_iter()
            .filter(|item| !matches!(item, DiffItem::Second(_)))
            .map(|item| item.into_inner())
            .collect();
        let second: String = diff_of(a, b)
            .into_iter()
            .filter(|item| !matches!(item, DiffItem::First(_)))
            .map(|item| item.into_inner())
            .collect();
        assert_eq!(first, a);
        assert_eq!(second, b);
    }
}

#[test]
fn lcs_of_self_is_self() {
    for (a, _) in PAIRS {
        let expected: Vec<char> = a.chars().collect();
        assert_eq!(lcs_of(a, a), expected);
    }
}

#[test]
fn empty_second_sequence_tags_all_first() {
    assert_eq!(lcs_of("AGTACGCA", ""), Vec::<char>::new());
    assert_eq!(
        diff_of("AGT", ""),
        vec![DiffItem::First('A'), DiffItem::First('G'), DiffItem::First('T')]
    );
    assert_eq!(diff_of("", "TA"), vec![DiffItem::Second('T'), DiffItem::Second('A')]);
}

#[test]
fn score_line_of_empty_sequences() {
    let line: Vec<usize> = score_last_line("".chars_iter(), "TATGC".chars_iter());
    assert_eq!(line, vec![0; 6]);
    let line: Vec<usize> = score_last_line("TATGC".chars_iter(), "".chars_iter());
    assert_eq!(line, vec![0]);
}

#[test]
fn single_element_matches_first_occurrence() {
    assert_eq!(
        diff_of("a", "baab"),
        vec![
            DiffItem::Second('b'),
            DiffItem::Both('a'),
            DiffItem::Second('a'),
            DiffItem::Second('b'),
        ]
    );
    assert_eq!(
        diff_of("x", "ab"),
        vec![DiffItem::Second('a'), DiffItem::Second('b'), DiffItem::First('x')]
    );
}

#[test]
fn split_ties_go_to_the_leftmost_cut() {
    assert_eq!(
        diff_of("ab", "ba"),
        vec![DiffItem::First('a'), DiffItem::Both('b'), DiffItem::Second('a')]
    );
}

#[test]
fn window_clamps_and_reverses() {
    let a = [1, 2, 3, 4, 5];
    let mut short = SeqIter::new(SliceIter::new(&a), 2);
    assert_eq!(short.len(), 2);
    assert_eq!(short.size_hint(), (2, Some(2)));
    assert_eq!(short.next_back(), Some(&2));
    assert_eq!(short.next(), Some(&1));
    assert_eq!(short.next(), None);

    let mut long = SeqIter::new(SliceIter::new(&a), 9);
    assert_eq!(long.len(), 5);
    assert_eq!(long.nth(3), Some(&4));
    assert_eq!(long.nth_back(0), Some(&5));
    assert_eq!(long.len(), 0);

    let mut narrowed = SeqIter::new(SliceIter::new(&a), 3).take(2);
    assert_eq!(narrowed.len(), 2);
    assert_eq!(narrowed.next(), Some(&1));
    assert_eq!(narrowed.next(), Some(&2));
    assert_eq!(narrowed.next(), None);

    let mut twice = SeqIter::new(SliceIter::new(&a), 5).rev().rev();
    assert_eq!(twice.next(), Some(&1));
    let mut copy = twice.clone();
    assert_eq!(copy.next(), Some(&2));
    assert_eq!(twice.len(), 4);
    assert_eq!(twice.nth_back(9), None);
    assert_eq!(twice.len(), 0);
}

#[test]
fn chars_cursor_steps_by_character() {
    let mut it = CharsIter::new("añb");
    assert_eq!(it.len(), 3);
    assert_eq!(it.size_hint(), (3, Some(3)));
    assert_eq!(it.next(), Some('a'));
    assert_eq!(it.as_str(), "ñb");
    assert_eq!(it.next_back(), Some('b'));
    assert_eq!(it.as_str(), "ñ");
    assert_eq!(it.clone().count(), 1);
    assert_eq!(it.clone().last(), Some('ñ'));
    assert_eq!(it.nth(0), Some('ñ'));
    assert_eq!(it.next(), None);
    assert_eq!(String::from("xy").chars_iter().nth_back(1), Some('x'));
}

#[test]
fn copied_cursor_yields_values() {
    let a = [7u8, 8, 9];
    let mut it = SliceIter::new(&a).copied();
    assert_eq!(it.len(), 3);
    assert_eq!(it.next(), Some(7));
    assert_eq!(it.next_back(), Some(9));
    assert_eq!(it.clone().nth(0), Some(8));
    assert_eq!(it.nth_back(1), None);
    assert_eq!(it.len(), 0);
}

#[test]
fn sinks_keep_what_they_should() {
    let mut lcs: Lcs<Vec<u8>> = Difference::empty();
    lcs.push_first(1);
    lcs.push_both(2);
    lcs.push_second(3);
    assert_eq!(lcs.0, vec![2]);

    let mut diff: Diff<Vec<DiffItem<u8>>> = Difference::empty();
    diff.push_first(1);
    diff.push_both(2);
    diff.push_second(3);
    assert_eq!(diff.0, vec![DiffItem::First(1), DiffItem::Both(2), DiffItem::Second(3)]);

    let mut plain: Vec<u8> = Insert::empty();
    Insert::insert(&mut plain, 5);
    assert_eq!(plain, vec![5]);
}

#[test]
fn score_line_cells_read_and_write() {
    let mut line: Vec<usize> = NwScoreLine::zeroed(3);
    assert_eq!(line, vec![0, 0, 0]);
    NwScoreLine::set(&mut line, 1, 7);
    assert_eq!(NwScoreLine::get(&line, 1), 7);
    assert_eq!(NwScoreLine::len(&line), 3);
    assert_eq!(DiffItem::Both(4).into_inner(), 4);
}

#[test]
fn chars_cursor_from_str() {
    let mut it: CharsIter = "ab".into();
    assert_eq!(it.len(), 2);
    assert_eq!(it.next_back(), Some('b'));
    assert_eq!(CharsIter::from("xyz").as_str(), "xyz");
}
