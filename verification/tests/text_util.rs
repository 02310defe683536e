use wy_ui::text_util::{graphemes_bounds, next_boundary, next_word_boundary, prev_boundary, prev_word_boundary};

#[test]
fn prev_boundary_ascii() {
    assert_eq!(prev_boundary("abc", 2), 1);
    assert_eq!(prev_boundary("abc", 0), 0);
}

#[test]
fn next_boundary_ascii() {
    assert_eq!(next_boundary("abc", 0), 1);
    assert_eq!(next_boundary("abc", 3), 3);
    assert_eq!(next_boundary("abc", 9), 3);
    assert_eq!(prev_boundary("abc", 9), 2);
}

// The whole emoji is one cluster: it spans bytes 1..5 ("😀" is four bytes
// long), so the boundary after "a" is 5. Byte 4 lies inside the emoji and is
// no boundary at all (asking from there would panic).
#[test]
fn emoji_not_split() {
    let s = "a😀b";
    assert_eq!(next_boundary(s, 1), 5);
    assert_eq!(prev_boundary(s, 5), 1);
}

#[test]
fn combining_char_not_split() {
    let s = "e\u{301}x";
    let b = next_boundary(s, 0);
    assert_eq!(&s[..b], "e\u{301}");
}

#[test]
fn word_boundaries_basic() {
    let s = "hello world foo";
    assert_eq!(prev_word_boundary(s, 6), 5);
    assert_eq!(next_word_boundary(s, 0), 5);
    assert_eq!(prev_word_boundary(s, 0), 0);
    assert_eq!(next_word_boundary(s, s.len()), s.len());
}

#[test]
fn word_boundary_skips_spaces() {
    let s = "a  b";
    assert_eq!(next_word_boundary(s, 0), 1);
    assert_eq!(next_word_boundary(s, 1), 3);
}

#[test]
fn graphemes_bounds_cover_text() {
    assert_eq!(graphemes_bounds("ae\u{301}😀"), vec![(0, 1), (1, 4), (4, 8)]);
    assert!(graphemes_bounds("").is_empty());
}

#[test]
fn boundaries_clamp_past_end() {
    assert_eq!(prev_boundary("abc", 10), 2);
    assert_eq!(next_word_boundary("abc", 10), 3);
    assert_eq!(prev_word_boundary("ab cd", 100), 3);
}

#[test]
fn graphemes_bounds_are_slices_on_char_boundaries() {
    let s = "a😀b";
    let v = graphemes_bounds(s);
    assert_eq!(v, vec![(0, 1), (1, 5), (5, 6)]);
    let mut joined = String::new();
    for &(a, b) in &v {
        assert!(s.is_char_boundary(a) && s.is_char_boundary(b));
        joined.push_str(&s[a..b]);
    }
    assert_eq!(joined, s);
}
