use chimp_type::key::Key;
use chimp_type::session::{SessionError, TestState};

fn words(list: &[&str]) -> Vec<String> {
    list.iter().map(|s| s.to_string()).collect()
}

fn chars(s: &str) -> Vec<Key> {
    s.chars().map(Key::Char).collect()
}

fn type_keys(state: &mut TestState, keys: &[Key]) {
    for k in keys {
        assert_eq!(state.handle_key(*k), Ok(()));
    }
}

#[test]
fn fresh_session_is_on_first_word() {
    let s = TestState::new(&words(&["dog", "cat"]));
    assert_eq!(s.word_index, 0);
    assert!(!s.finished);
    assert_eq!(s.typed_words(), vec![Vec::<Key>::new()]);
    assert_eq!(s.word_list, vec![chars("dog"), chars("cat")]);
    assert_eq!(s.current_word(), &chars("dog"));
}

#[test]
fn characters_never_change_word_or_finish() {
    let mut s = TestState::new(&words(&["ab"]));
    for c in "abcdefg".chars() {
        assert_eq!(s.handle_key(Key::Char(c)), Ok(()));
        assert_eq!(s.word_index, 0);
        assert!(!s.finished);
    }
    assert_eq!(s.typed_words(), vec![chars("abcdefg")]);
}

#[test]
fn space_on_last_word_finishes_once() {
    let mut s = TestState::new(&words(&["a", "b"]));
    type_keys(&mut s, &[Key::Char('a'), Key::Space, Key::Char('b')]);
    assert!(!s.finished);
    let before = s.typed_chars.clone();
    assert_eq!(s.handle_key(Key::Space), Ok(()));
    assert!(s.finished);
    assert_eq!(s.word_index, 1);
    assert_eq!(&s.typed_chars[..before.len()], &before[..]);
    let done = s.clone();
    for k in [Key::Char('x'), Key::Space, Key::Backspace, Key::Enter, Key::Esc] {
        assert_eq!(s.handle_key(k), Err(SessionError::InvalidOperation));
        assert_eq!(s, done);
    }
}

#[test]
fn backspace_undoes_character() {
    let mut s = TestState::new(&words(&["cat", "dog"]));
    type_keys(&mut s, &[Key::Char('c'), Key::Char('x')]);
    let before = s.clone();
    type_keys(&mut s, &[Key::Char('q'), Key::Backspace]);
    assert_eq!(s, before);
    assert_eq!(s.typed_words(), vec![chars("cx")]);
}

#[test]
fn backspace_undoes_space_between_words() {
    let mut s = TestState::new(&words(&["cat", "dog"]));
    type_keys(&mut s, &[Key::Char('c'), Key::Char('a')]);
    let before = s.clone();
    type_keys(&mut s, &[Key::Space]);
    assert_eq!(s.word_index, 1);
    assert_eq!(s.typed_words(), vec![chars("ca"), vec![]]);
    type_keys(&mut s, &[Key::Backspace]);
    assert_eq!(s.word_index, 0);
    assert_eq!(s, before);
    assert_eq!(s.typed_words(), vec![chars("ca")]);
}

#[test]
fn backspace_at_start_changes_nothing() {
    let mut s = TestState::new(&words(&["ab"]));
    let before = s.clone();
    assert_eq!(s.handle_key(Key::Backspace), Ok(()));
    assert_eq!(s, before);
}

#[test]
fn segments_stay_between_one_and_word_count() {
    let list = words(&["a", "b", "c"]);
    let mut s = TestState::new(&list);
    let keys = [
        Key::Space,
        Key::Space,
        Key::Backspace,
        Key::Char('z'),
        Key::Space,
        Key::Char('c'),
        Key::Space,
    ];
    for k in keys {
        assert_eq!(s.handle_key(k), Ok(()));
        let n = s.typed_words().len();
        assert!(n >= 1 && n <= list.len());
        assert_eq!(n, s.word_index + 1);
    }
    assert!(s.finished);
    assert_eq!(s.typed_words(), vec![vec![], chars("z"), chars("c")]);
}

#[test]
fn dog_cat_end_to_end() {
    let mut s = TestState::new(&words(&["dog", "cat"]));
    let keys = [
        Key::Char('d'),
        Key::Char('o'),
        Key::Char('g'),
        Key::Space,
        Key::Char('c'),
        Key::Char('a'),
        Key::Char('t'),
        Key::Space,
    ];
    for (i, k) in keys.iter().enumerate() {
        assert_eq!(s.handle_key(*k), Ok(()));
        if i == 3 {
            assert_eq!(s.word_index, 1);
            assert!(!s.finished);
        }
    }
    assert!(s.finished);
    assert_eq!(s.typed_words(), vec![chars("dog"), chars("cat")]);
}

#[test]
fn second_backspace_is_noop() {
    let mut s = TestState::new(&words(&["ab"]));
    type_keys(&mut s, &[Key::Char('a'), Key::Backspace]);
    let after_first = s.clone();
    assert_eq!(s.handle_key(Key::Backspace), Ok(()));
    assert_eq!(s, after_first);
    assert_eq!(s.typed_words(), vec![Vec::<Key>::new()]);
    assert_eq!(s.word_index, 0);
}

#[test]
fn segments_match_manual_replay() {
    let mut s = TestState::new(&words(&["one", "two", "three", "four"]));
    let keys = [
        Key::Char('o'),
        Key::Backspace,
        Key::Backspace,
        Key::Char('o'),
        Key::Char('n'),
        Key::Space,
        Key::Backspace,
        Key::Char('e'),
        Key::Space,
        Key::Char('t'),
        Key::Space,
        Key::Space,
        Key::Backspace,
        Key::Char('h'),
    ];
    let mut stream: Vec<Key> = Vec::new();
    for k in keys {
        assert_eq!(s.handle_key(k), Ok(()));
        if k == Key::Backspace {
            stream.pop();
        } else {
            stream.push(k);
        }
        assert_eq!(s.typed_chars, stream);
        let manual: Vec<Vec<Key>> =
            stream.split(|k| *k == Key::Space).map(|w| w.to_vec()).collect();
        assert_eq!(s.typed_words(), manual);
    }
    assert_eq!(s.typed_words(), vec![chars("one"), chars("t"), chars("h")]);
}

#[test]
fn enter_is_rejected_and_esc_abandons() {
    let mut s = TestState::new(&words(&["ab"]));
    type_keys(&mut s, &[Key::Char('a')]);
    let before = s.clone();
    assert_eq!(s.handle_key(Key::Enter), Err(SessionError::InvalidOperation));
    assert_eq!(s, before);
    assert_eq!(s.handle_key(Key::Esc), Err(SessionError::Abandoned));
    assert_eq!(s, before);
}

#[test]
fn keys_decode_from_characters() {
    assert_eq!(Key::from_char(' '), Key::Space);
    assert_eq!(Key::from_char('\n'), Key::Enter);
    assert_eq!(Key::from_char('x'), Key::Char('x'));
    assert_eq!(Key::from_char('é'), Key::Char('é'));
}

#[test]
fn words_keep_unicode_characters() {
    let s = TestState::new(&words(&["héllo"]));
    assert_eq!(s.word_list, vec![chars("héllo")]);
    assert_eq!(s.word_list[0].len(), 5);
}
