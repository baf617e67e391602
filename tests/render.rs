use chimp_type::key::Key;
use chimp_type::render::{layout, word_glyphs, Glyph, Placement, Viewport};
use chimp_type::session::TestState;

fn chars(s: &str) -> Vec<Key> {
    s.chars().map(Key::Char).collect()
}

#[test]
fn cat_against_cot() {
    let g = word_glyphs(&chars("cat"), Some(&chars("cot")), true);
    assert_eq!(g, vec![Glyph::Correct('c'), Glyph::Incorrect('o'), Glyph::Correct('t')]);
}

#[test]
fn cat_against_cats_overflows() {
    let g = word_glyphs(&chars("cat"), Some(&chars("cats")), true);
    assert_eq!(g.len(), 4);
    assert_eq!(g[3], Glyph::Overflow('s'));
}

#[test]
fn pending_positions_are_underlined_only_in_passed_words() {
    let current = word_glyphs(&chars("cat"), Some(&chars("c")), true);
    assert_eq!(
        current,
        vec![
            Glyph::Correct('c'),
            Glyph::Pending { ch: 'a', underlined: false },
            Glyph::Pending { ch: 't', underlined: false },
        ]
    );
    let passed = word_glyphs(&chars("cat"), Some(&chars("c")), false);
    assert_eq!(passed[1], Glyph::Pending { ch: 'a', underlined: true });
    let unreached = word_glyphs(&chars("ab"), None, false);
    assert_eq!(
        unreached,
        vec![
            Glyph::Pending { ch: 'a', underlined: false },
            Glyph::Pending { ch: 'b', underlined: false },
        ]
    );
}

#[test]
fn layout_wraps_whole_words() {
    let p = layout(&vec![3, 3, 3], 8);
    assert_eq!(
        p,
        vec![
            Placement { row: 0, col: 0 },
            Placement { row: 0, col: 4 },
            Placement { row: 1, col: 0 },
        ]
    );
}

#[test]
fn layout_of_word_wider_than_area() {
    let p = layout(&vec![10, 1, 1], 5);
    assert_eq!(
        p,
        vec![
            Placement { row: 1, col: 0 },
            Placement { row: 2, col: 0 },
            Placement { row: 2, col: 2 },
        ]
    );
    assert_eq!(layout(&vec![], 5), vec![]);
}

#[test]
fn viewport_of_terminal_sizes() {
    assert_eq!(Viewport::of_terminal(80, 24), Viewport { width: 60, left: 10, top: 9 });
    assert_eq!(Viewport::of_terminal(30, 10), Viewport { width: 20, left: 5, top: 2 });
    assert_eq!(Viewport::of_terminal(10, 6), Viewport { width: 0, left: 5, top: 0 });
}

#[test]
fn frame_of_running_test() {
    let list: Vec<String> = ["dog", "cat", "sun"].iter().map(|s| s.to_string()).collect();
    let mut s = TestState::new(&list);
    for k in [Key::Char('d'), Key::Char('x'), Key::Space, Key::Char('c'), Key::Char('a'), Key::Char('t'), Key::Char('s')] {
        s.handle_key(k).unwrap();
    }
    let f = s.frame(10);
    assert_eq!(f.len(), 3);
    assert_eq!(f[0].at, Placement { row: 0, col: 0 });
    assert_eq!(
        f[0].glyphs,
        vec![Glyph::Correct('d'), Glyph::Incorrect('x'), Glyph::Pending { ch: 'g', underlined: true }]
    );
    assert_eq!(f[1].at, Placement { row: 0, col: 4 });
    assert_eq!(
        f[1].glyphs,
        vec![Glyph::Correct('c'), Glyph::Correct('a'), Glyph::Correct('t'), Glyph::Overflow('s')]
    );
    assert_eq!(f[2].at, Placement { row: 1, col: 0 });
    assert_eq!(
        f[2].glyphs,
        vec![
            Glyph::Pending { ch: 's', underlined: false },
            Glyph::Pending { ch: 'u', underlined: false },
            Glyph::Pending { ch: 'n', underlined: false },
        ]
    );
}
