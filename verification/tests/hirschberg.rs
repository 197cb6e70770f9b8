use ng_diff::{
    score_last_line, AsCharsIter, CharsIter, DiffItem, Hirschberg, HirschbergAlg, SliceIter,
};

fn format_diff(diff: Vec<DiffItem<char>>) -> String {
    let mut line = String::new();
    for item in diff {
        match &item {
            DiffItem::First(_) => line.push_str("-"),
            DiffItem::Second(_) => line.push_str("+"),
            _ => (),
        }
        line.push_str(&item.into_inner().to_string());
    }
    line
}

#[test]
fn test_score_last_line() {
    let last: Vec<_> = score_last_line(SliceIter::new(b""), SliceIter::new(b""));
    assert_eq!(last, vec![0]);

    let last: Vec<_> = score_last_line(SliceIter::new(b"AGTACGCA"), SliceIter::new(b""));
    assert_eq!(last, vec![0]);

    let last: Vec<_> = score_last_line(SliceIter::new(b""), SliceIter::new(b"TATGC"));
    assert_eq!(last, vec![0, 0, 0, 0, 0, 0]);

    let last: Vec<_> = score_last_line(SliceIter::new(b"AGTACGCA"), SliceIter::new(b"TATGC"));
    assert_eq!(last, vec![0, 1, 2, 2, 3, 4]);

    let last: Vec<_> = score_last_line(SliceIter::new(b"ABCBDAB"), SliceIter::new(b"BDCABA"));
    assert_eq!(last, vec![0, 1, 2, 2, 3, 4, 4]);

    let last: Vec<_> = score_last_line(SliceIter::new(b"BDCABA"), SliceIter::new(b"ABCBDAB"));
    assert_eq!(last, vec![0, 1, 2, 2, 3, 3, 4, 4]);

    let last: Vec<_> = score_last_line(
        SliceIter::new(&Vec::from("BDCABA")),
        SliceIter::new(&b"ABCBDAB"[..]),
    );
    assert_eq!(last, vec![0, 1, 2, 2, 3, 3, 4, 4]);

    let first = vec!['B', 'D', 'C', 'A', 'B', 'A'];
    let last: Vec<_> =
        score_last_line(SliceIter::new(&first).copied(), "ABCBDAB".chars_iter());
    assert_eq!(last, vec![0, 1, 2, 2, 3, 3, 4, 4]);
}

#[test]
fn test_hirschberg_lcs() {
    let lcs: Vec<_> = Hirschberg::lcs(SliceIter::new(b""), SliceIter::new(b""));
    assert_eq!(lcs, Vec::<&u8>::new());

    let lcs: Vec<_> = Hirschberg::lcs(SliceIter::new(b"AGTACGCA"), SliceIter::new(b""));
    assert_eq!(lcs, Vec::<&u8>::new());

    let lcs: Vec<_> = Hirschberg::lcs(SliceIter::new(b""), SliceIter::new(b"TATGC"));
    assert_eq!(lcs, Vec::<&u8>::new());

    let lcs: Vec<_> = Hirschberg::lcs(SliceIter::new(b"AGTACGCA"), SliceIter::new(b"TATGC"));
    assert_eq!(lcs, b"TAGC".iter().collect::<Vec<_>>());

    let lcs: Vec<_> = Hirschberg::lcs(SliceIter::new(b"ABCBDAB"), SliceIter::new(b"BDCABA"));
    assert_eq!(lcs, b"BDAB".iter().collect::<Vec<_>>());

    let lcs: Vec<_> = Hirschberg::lcs(SliceIter::new(b"BDCABA"), SliceIter::new(b"ABCBDAB"));
    assert_eq!(lcs, b"BCBA".iter().collect::<Vec<_>>());

    let first = vec!['B', 'D', 'C', 'A', 'B', 'A'];
    let lcs: Vec<_> = Hirschberg::lcs(SliceIter::new(&first).copied(), "ABCBDAB".chars_iter());
    assert_eq!(lcs, "BCBA".chars().collect::<Vec<_>>());

    let lcs: Vec<_> = Hirschberg::lcs("abcdfghjqvz".chars_iter(), "abcdefgijkrxyz".chars_iter());
    assert_eq!(lcs, "abcdfgjz".chars().collect::<Vec<_>>());
}

#[test]
fn test_hirschberg_diff() {
    let diff: Vec<_> = Hirschberg::diff(SliceIter::new(b""), SliceIter::new(b""));
    assert_eq!(diff, Vec::<DiffItem<&u8>>::new());

    let diff: Vec<_> = Hirschberg::diff("AGTACGCA".chars_iter(), "".chars_iter());
    assert_eq!(format_diff(diff), "-A-G-T-A-C-G-C-A".to_string());

    let diff: Vec<_> = Hirschberg::diff("".chars_iter(), "TATGC".chars_iter());
    assert_eq!(format_diff(diff), "+T+A+T+G+C".to_string());

    let diff: Vec<_> = Hirschberg::diff("AGTACGCA".chars_iter(), "TATGC".chars_iter());
    assert_eq!(format_diff(diff), "-A-GTA-C+TGC-A".to_string());

    let diff: Vec<_> = Hirschberg::diff("ABCBDAB".chars_iter(), "BDCABA".chars_iter());
    assert_eq!(format_diff(diff), "-A-B-CBD+CAB+A".to_string());

    let diff: Vec<_> = Hirschberg::diff("BDCABA".chars_iter(), "ABCBDAB".chars_iter());
    assert_eq!(format_diff(diff), "+AB-DC-AB+DA+B".to_string());

    let diff: Vec<_> =
        Hirschberg::diff("abcdfghjqvz".chars_iter(), "abcdefgijkrxyz".chars_iter());
    assert_eq!(format_diff(diff), "abcd+efg-h+ij-q-v+k+r+x+yz".to_string());
}

#[test]
fn chars_iter_of_string_and_str_agree() {
    let owned = String::from("héllo");
    let lcs: Vec<char> = Hirschberg::lcs(owned.chars_iter(), CharsIter::new("hello"));
    assert_eq!(lcs, vec!['h', 'l', 'l', 'o']);
}
