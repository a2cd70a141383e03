use bytekit::{
    array_init_from_iter, array_init_from_iter_, array_init_from_rev_iter, fill_from,
    rsplitn_exact_by, splitn_exact_by, SliceExt,
};

#[test]
fn text_forward_three_pieces() {
    assert_eq!("a,b,c".splitn_exact::<3>(','), Some(["a", "b", "c"]));
}

#[test]
fn text_forward_two_pieces_keeps_rest() {
    assert_eq!("a,b,c".splitn_exact::<2>(','), Some(["a", "b,c"]));
}

#[test]
fn text_reverse_two_pieces_leftmost_first() {
    assert_eq!("a,b,c".rsplitn_exact::<2>(','), Some(["a,b", "c"]));
}

#[test]
fn text_reverse_three_pieces() {
    assert_eq!("a,b,c".rsplitn_exact::<3>(','), Some(["a", "b", "c"]));
}

#[test]
fn text_without_separator_is_absent() {
    assert_eq!("a".splitn_exact::<2>(','), None);
    assert_eq!("a".rsplitn_exact::<2>(','), None);
}

#[test]
fn text_one_piece_is_the_whole() {
    assert_eq!("a,b".splitn_exact::<1>(','), Some(["a,b"]));
    assert_eq!("a,b".rsplitn_exact::<1>(','), Some(["a,b"]));
    assert_eq!("".splitn_exact::<1>(','), Some([""]));
}

#[test]
fn text_zero_pieces_is_empty_array() {
    let empty: [&str; 0] = [];
    assert_eq!("a,b,c".splitn_exact::<0>(','), Some(empty));
    assert_eq!("a,b,c".rsplitn_exact::<0>(','), Some(empty));
    assert_eq!("".splitn_exact::<0>(','), Some(empty));
}

#[test]
fn text_equal_to_separator() {
    assert_eq!(",".splitn_exact::<2>(','), Some(["", ""]));
    assert_eq!(",".rsplitn_exact::<2>(','), Some(["", ""]));
    assert_eq!(",".splitn_exact::<3>(','), None);
}

#[test]
fn text_empty_input() {
    assert_eq!("".splitn_exact::<2>(','), None);
    assert_eq!("".rsplitn_exact::<2>(','), None);
}

#[test]
fn text_separator_at_the_ends() {
    assert_eq!(",a".splitn_exact::<2>(','), Some(["", "a"]));
    assert_eq!("a,".splitn_exact::<2>(','), Some(["a", ""]));
    assert_eq!(",a,".splitn_exact::<2>(','), Some(["", "a,"]));
    assert_eq!(",a,".rsplitn_exact::<2>(','), Some([",a", ""]));
    assert_eq!(",a,".splitn_exact::<3>(','), Some(["", "a", ""]));
}

#[test]
fn text_counts_characters_not_bytes() {
    assert_eq!("é→ü→ß".splitn_exact::<2>('→'), Some(["é", "ü→ß"]));
    assert_eq!("é→ü→ß".rsplitn_exact::<2>('→'), Some(["é→ü", "ß"]));
    assert_eq!("é→ü→ß".rsplitn_exact::<3>('→'), Some(["é", "ü", "ß"]));
}

#[test]
fn text_agrees_with_std() {
    let inputs = ["", ",", "a", "a,b", "a,,b", ",a,b,", "x,y,z,w", ",,,"];
    for s in inputs {
        let forward: Vec<&str> = s.splitn(3, ',').collect();
        let expected = if forward.len() == 3 {
            Some([forward[0], forward[1], forward[2]])
        } else {
            None
        };
        assert_eq!(s.splitn_exact::<3>(','), expected);
        let backward: Vec<&str> = s.rsplitn(3, ',').collect();
        let expected = if backward.len() == 3 {
            Some([backward[2], backward[1], backward[0]])
        } else {
            None
        };
        assert_eq!(s.rsplitn_exact::<3>(','), expected);
    }
}

#[test]
fn items_forward_and_reverse() {
    let v = [10, 40, 30, 20, 60, 50];
    assert_eq!(v[..].splitn_exact::<2>(30), Some([&[10, 40][..], &[20, 60, 50][..]]));
    assert_eq!(v[..].rsplitn_exact::<2>(60), Some([&[10, 40, 30, 20][..], &[50][..]]));
    assert_eq!(v[..].splitn_exact::<2>(7), None);
    assert_eq!(v[..].rsplitn_exact::<2>(7), None);
}

#[test]
fn items_repeated_separator() {
    let v = [0u8, 1, 0, 0, 2, 0];
    assert_eq!(
        v[..].splitn_exact::<3>(0u8),
        Some([&[][..], &[1][..], &[0, 2, 0][..]])
    );
    assert_eq!(
        v[..].rsplitn_exact::<3>(0u8),
        Some([&[0, 1, 0][..], &[2][..], &[][..]])
    );
    assert_eq!(v[..].splitn_exact::<6>(0u8), None);
    let all: Option<[&[u8]; 5]> = v[..].splitn_exact::<5>(0u8);
    assert_eq!(all, Some([&[][..], &[1][..], &[][..], &[2][..], &[][..]]));
}

#[test]
fn items_zero_pieces_is_empty_array() {
    let empty: [&[i32]; 0] = [];
    let v = [1, 2, 3];
    assert_eq!(v[..].splitn_exact::<0>(2), Some(empty));
    assert_eq!(v[..].rsplitn_exact::<0>(2), Some(empty));
}

#[test]
fn items_agree_with_std() {
    let inputs: [&[u8]; 6] = [b"", b"0", b"1", b"102", b"01020", b"000"];
    for s in inputs {
        let forward: Vec<&[u8]> = s.splitn(2, |b| *b == b'0').collect();
        let expected = if forward.len() == 2 { Some([forward[0], forward[1]]) } else { None };
        assert_eq!(s.splitn_exact::<2>(b'0'), expected);
        let backward: Vec<&[u8]> = s.rsplitn(2, |b| *b == b'0').collect();
        let expected = if backward.len() == 2 { Some([backward[1], backward[0]]) } else { None };
        assert_eq!(s.rsplitn_exact::<2>(b'0'), expected);
    }
}

#[test]
fn bytes_by_test() {
    let s: &[u8] = b"key = value = more";
    let is_eq = |b: &u8| *b == b'=';
    assert_eq!(s.splitn_exact::<2>(is_eq), Some([&b"key "[..], &b" value = more"[..]]));
    assert_eq!(s.rsplitn_exact::<2>(is_eq), Some([&b"key = value "[..], &b" more"[..]]));
    assert_eq!(s.splitn_exact::<4>(is_eq), None);
    let none: [&[u8]; 0] = [];
    assert_eq!(s.splitn_exact::<0>(is_eq), Some(none));
}

#[test]
fn bytes_by_test_asks_no_more_than_needed() {
    let s: &[u8] = b"a,b,c,d";
    let mut asked = Vec::new();
    let r = s.splitn_exact::<2>(|b: &u8| {
        asked.push(*b);
        *b == b','
    });
    assert_eq!(r, Some([&b"a"[..], &b"b,c,d"[..]]));
    assert_eq!(asked, b"a,".to_vec());

    let mut asked = Vec::new();
    let r = s.rsplitn_exact::<2>(|b: &u8| {
        asked.push(*b);
        *b == b','
    });
    assert_eq!(r, Some([&b"a,b,c"[..], &b"d"[..]]));
    assert_eq!(asked, b"d,".to_vec());

    let mut asked = 0;
    let r = s.splitn_exact::<1>(|_: &u8| {
        asked += 1;
        true
    });
    assert_eq!(r, Some([&b"a,b,c,d"[..]]));
    assert_eq!(asked, 0);
}

#[test]
fn any_items_by_test() {
    let words = ["one", "", "two", "three", "", "four"];
    let r = splitn_exact_by::<&str, _, 2>(&words, |w: &&str| w.is_empty());
    assert_eq!(r, Some([&["one"][..], &["two", "three", "", "four"][..]]));
    let r = rsplitn_exact_by::<&str, _, 2>(&words, |w: &&str| w.is_empty());
    assert_eq!(r, Some([&["one", "", "two", "three"][..], &["four"][..]]));
    let r = rsplitn_exact_by::<&str, _, 4>(&words, |w: &&str| w.is_empty());
    assert_eq!(r, None);
}

#[test]
fn bytes_by_byte_string() {
    let s: &[u8] = b"a::b::c";
    let sep: &[u8] = b"::";
    assert_eq!(s.splitn_exact::<3>(sep), Some([&b"a"[..], &b"b"[..], &b"c"[..]]));
    assert_eq!(s.splitn_exact::<2>(sep), Some([&b"a"[..], &b"b::c"[..]]));
    assert_eq!(s.rsplitn_exact::<2>(sep), Some([&b"a::b"[..], &b"c"[..]]));
    assert_eq!(s.rsplitn_exact::<3>(sep), Some([&b"a"[..], &b"b"[..], &b"c"[..]]));
    assert_eq!(s.splitn_exact::<4>(sep), None);
    assert_eq!(s.rsplitn_exact::<4>(sep), None);
}

#[test]
fn bytes_by_byte_string_edges() {
    let sep: &[u8] = b"::";
    let empty: &[u8] = b"";
    assert_eq!(empty.splitn_exact::<2>(sep), None);
    assert_eq!(empty.splitn_exact::<1>(sep), Some([&b""[..]]));
    let only: &[u8] = b"::";
    assert_eq!(only.splitn_exact::<2>(sep), Some([&b""[..], &b""[..]]));
    assert_eq!(only.rsplitn_exact::<2>(sep), Some([&b""[..], &b""[..]]));
    let ends: &[u8] = b"::a::";
    assert_eq!(ends.splitn_exact::<3>(sep), Some([&b""[..], &b"a"[..], &b""[..]]));
    assert_eq!(ends.rsplitn_exact::<2>(sep), Some([&b"::a"[..], &b""[..]]));
    let odd: &[u8] = b"a:::b";
    assert_eq!(odd.splitn_exact::<2>(sep), Some([&b"a"[..], &b":b"[..]]));
    assert_eq!(odd.rsplitn_exact::<2>(sep), Some([&b"a:"[..], &b"b"[..]]));
    let none: [&[u8]; 0] = [];
    assert_eq!(ends.splitn_exact::<0>(sep), Some(none));
    assert_eq!(ends.rsplitn_exact::<0>(sep), Some(none));
}

#[test]
fn array_from_any_iterator() {
    let words = ["x", "y", "z"];
    let r: Option<[&str; 2]> = array_init_from_iter(words.iter().copied());
    assert_eq!(r, Some(["x", "y"]));
    let r: Option<[&str; 3]> = array_init_from_rev_iter(words.iter().copied());
    assert_eq!(r, Some(["z", "y", "x"]));
    let r: Option<[&str; 4]> = array_init_from_iter(words.iter().copied());
    assert_eq!(r, None);
    let r: Option<[&str; 4]> = array_init_from_rev_iter(words.iter().copied());
    assert_eq!(r, None);
    let r: Option<[&str; 2]> = array_init_from_iter_::<str, _, 2, true>(words.iter().copied());
    assert_eq!(r, Some(["y", "x"]));
}

#[test]
fn array_takes_no_more_than_it_needs() {
    let words = ["x", "y", "z"];
    let mut source = words.iter().copied();
    let r: Option<[&str; 2]> = array_init_from_iter(&mut source);
    assert_eq!(r, Some(["x", "y"]));
    assert_eq!(source.next(), Some("z"));

    let mut source = words.iter().copied();
    let r: Option<[&str; 0]> = array_init_from_rev_iter(&mut source);
    assert_eq!(r, Some([]));
    assert_eq!(source.next(), Some("x"));
}

#[test]
fn array_stops_at_the_first_dry_answer() {
    let mut asked = 0;
    let mut left = 2;
    let source = std::iter::from_fn(|| {
        asked += 1;
        if left > 0 {
            left -= 1;
            Some("item")
        } else {
            None
        }
    });
    let r: Option<[&str; 5]> = array_init_from_iter(source);
    assert_eq!(r, None);
    assert_eq!(asked, 3);
}

#[test]
fn filling_leaves_the_rest_in_the_source() {
    let words = ["p", "q", "r", "s"];
    let mut source = words.iter().copied();
    let first: Option<[&str; 2]> = fill_from::<str, _, 2, false>(&mut source);
    assert_eq!(first, Some(["p", "q"]));
    let none: Option<[&str; 0]> = fill_from::<str, _, 0, true>(&mut source);
    assert_eq!(none, Some([]));
    let second: Option<[&str; 2]> = fill_from::<str, _, 2, true>(&mut source);
    assert_eq!(second, Some(["s", "r"]));
    let third: Option<[&str; 1]> = fill_from::<str, _, 1, false>(&mut source);
    assert_eq!(third, None);
}

/// Every string of at most `max` characters over `alphabet`.
fn all_strings(alphabet: &[char], max: usize) -> Vec<String> {
    let mut all = vec![String::new()];
    let mut last = vec![String::new()];
    for _ in 0..max {
        let mut next = Vec::new();
        for s in &last {
            for c in alphabet {
                let mut longer = s.clone();
                longer.push(*c);
                next.push(longer);
            }
        }
        all.extend(next.iter().cloned());
        last = next;
    }
    all
}

fn std_forward<const N: usize>(s: &str) -> Option<[&str; N]> {
    let pieces: Vec<&str> = s.splitn(N, ',').collect();
    <[&str; N]>::try_from(pieces).ok()
}

fn std_reverse<const N: usize>(s: &str) -> Option<[&str; N]> {
    let mut pieces: Vec<&str> = s.rsplitn(N, ',').collect();
    pieces.reverse();
    <[&str; N]>::try_from(pieces).ok()
}

fn bytes_of<const N: usize>(pieces: Option<[&str; N]>) -> Option<[&[u8]; N]> {
    pieces.map(|p| p.map(|s| s.as_bytes()))
}

fn compare_all<const N: usize>(s: &str) {
    let forward = std_forward::<N>(s);
    let reverse = std_reverse::<N>(s);
    assert_eq!(s.splitn_exact::<N>(','), forward, "forward, {:?}", s);
    assert_eq!(s.rsplitn_exact::<N>(','), reverse, "reverse, {:?}", s);

    let bytes = s.as_bytes();
    assert_eq!(bytes.splitn_exact::<N>(b','), bytes_of(forward));
    assert_eq!(bytes.rsplitn_exact::<N>(b','), bytes_of(reverse));
    assert_eq!(bytes.splitn_exact::<N>(|b: &u8| *b == b','), bytes_of(forward));
    assert_eq!(bytes.rsplitn_exact::<N>(|b: &u8| *b == b','), bytes_of(reverse));
    let comma: &[u8] = b",";
    assert_eq!(bytes.splitn_exact::<N>(comma), bytes_of(forward));
    assert_eq!(bytes.rsplitn_exact::<N>(comma), bytes_of(reverse));
}

#[test]
fn every_short_input_agrees_with_std() {
    for s in all_strings(&['a', ',', 'é'], 6) {
        compare_all::<0>(&s);
        compare_all::<1>(&s);
        compare_all::<2>(&s);
        compare_all::<3>(&s);
        compare_all::<4>(&s);
        compare_all::<7>(&s);
    }
}

#[test]
fn both_directions_agree_when_all_separators_are_used() {
    for s in all_strings(&['a', ','], 7) {
        let separators = s.matches(',').count();
        if separators == 2 {
            assert_eq!(s.splitn_exact::<3>(','), s.rsplitn_exact::<3>(','));
        }
        assert_eq!(s.splitn_exact::<3>(',').is_some(), separators >= 2);
        assert_eq!(s.rsplitn_exact::<3>(',').is_some(), separators >= 2);
        if let Some(pieces) = s.rsplitn_exact::<3>(',') {
            assert_eq!(pieces.join(","), s);
        }
        if let Some(pieces) = s.splitn_exact::<3>(',') {
            assert_eq!(pieces.join(","), s);
        }
    }
}

#[test]
fn byte_string_pieces_make_up_the_input() {
    let sep: &[u8] = b"ab";
    for s in all_strings(&['a', 'b'], 8) {
        let bytes = s.as_bytes();
        if let Some(pieces) = bytes.splitn_exact::<3>(sep) {
            assert_eq!(pieces.join(sep), bytes);
            assert!(!pieces[0].windows(2).any(|w| w == sep));
            assert!(!pieces[1].windows(2).any(|w| w == sep));
        }
        if let Some(pieces) = bytes.rsplitn_exact::<3>(sep) {
            assert_eq!(pieces.join(sep), bytes);
            assert!(!pieces[1].windows(2).any(|w| w == sep));
            assert!(!pieces[2].windows(2).any(|w| w == sep));
        }
    }
}
