use vstd::prelude::*;
use crate::key::{Key, all_chars, char_key, keys_of};

verus! {

/// Why a key event was not applied to a session.
#[derive(Debug, Clone, Copy, PartialEq, Eq, Structural)]
pub enum SessionError {
    /// `Enter`, or any event once the session is finished.
    InvalidOperation,
    /// `Esc`: the user gave the test up.
    Abandoned,
}

/// Number of `Space` entries in a typed stream.
pub open spec fn count_spaces(t: Seq<Key>) -> nat
    decreases t.len(),
{
    if t.len() == 0 {
        0
    } else if t.last() == Key::Space {
        count_spaces(t.drop_last()) + 1
    } else {
        count_spaces(t.drop_last())
    }
}

/// Number of entries since the last `Space` (or since the start).
pub open spec fn char_index_of(t: Seq<Key>) -> nat
    decreases t.len(),
{
    if t.len() == 0 || t.last() == Key::Space {
        0
    } else {
        char_index_of(t.drop_last()) + 1
    }
}

/// A typed stream split on `Space`, in order; there is always at least one
/// (possibly empty) segment.
pub open spec fn split_spaces(t: Seq<Key>) -> Seq<Seq<Key>>
    decreases t.len(),
{
    if t.len() == 0 {
        seq![Seq::empty()]
    } else {
        let p = split_spaces(t.drop_last());
        if t.last() == Key::Space {
            p.push(Seq::empty())
        } else {
            p.update(p.len() - 1, p.last().push(t.last()))
        }
    }
}

/// The entries a typing session may hold: characters and spaces.
pub open spec fn only_chars_and_spaces(t: Seq<Key>) -> bool {
    forall|i: int| 0 <= i < t.len() ==> (#[trigger] t[i] is Char || t[i] == Key::Space)
}

/// The abstract state of a typing session.
pub struct SessionView {
    pub words: Seq<Seq<Key>>,
    pub word_index: nat,
    pub typed: Seq<Key>,
    pub finished: bool,
}

impl SessionView {
    pub open spec fn wf(self) -> bool {
        &&& self.words.len() >= 1
        &&& forall|i: int| 0 <= i < self.words.len() ==> all_chars(#[trigger] self.words[i])
        &&& self.word_index < self.words.len()
        &&& only_chars_and_spaces(self.typed)
        &&& count_spaces(self.typed) == self.word_index + if self.finished { 1nat } else { 0nat }
    }

    /// The user's attempt at each word so far: the typed stream split on
    /// `Space`. The `Space` that finishes the last word opens no new segment.
    pub open spec fn segments(self) -> Seq<Seq<Key>> {
        if self.finished {
            split_spaces(self.typed).drop_last()
        } else {
            split_spaces(self.typed)
        }
    }

    /// The state after one key event.
    pub open spec fn apply(self, key: Key) -> SessionView {
        if self.finished {
            self
        } else {
            match key {
                Key::Char(_) => SessionView { typed: self.typed.push(key), ..self },
                Key::Space => if self.word_index + 1 == self.words.len() {
                    SessionView { typed: self.typed.push(Key::Space), finished: true, ..self }
                } else {
                    SessionView {
                        typed: self.typed.push(Key::Space),
                        word_index: self.word_index + 1,
                        ..self
                    }
                },
                Key::Backspace => if self.word_index == 0 && self.typed.len() == 0 {
                    self
                } else if char_index_of(self.typed) == 0 {
                    SessionView {
                        typed: self.typed.drop_last(),
                        word_index: (self.word_index - 1) as nat,
                        ..self
                    }
                } else {
                    SessionView { typed: self.typed.drop_last(), ..self }
                },
                _ => self,
            }
        }
    }

    /// What applying one key event reports.
    pub open spec fn outcome(self, key: Key) -> Result<(), SessionError> {
        if self.finished {
            Err(SessionError::InvalidOperation)
        } else {
            match key {
                Key::Enter => Err(SessionError::InvalidOperation),
                Key::Esc => Err(SessionError::Abandoned),
                _ => Ok(()),
            }
        }
    }
}

/// The state of a session that was just given its words.
pub open spec fn fresh(words: Seq<Seq<char>>) -> SessionView {
    SessionView {
        words: Seq::new(words.len(), |i: int| keys_of(words[i])),
        word_index: 0,
        typed: Seq::empty(),
        finished: false,
    }
}

/// Splitting a stream of characters and spaces gives one more segment than
/// there are spaces, and no segment holds anything but characters.
pub proof fn lemma_split_spaces(t: Seq<Key>)
    requires
        only_chars_and_spaces(t),
    ensures
        split_spaces(t).len() == count_spaces(t) + 1,
        forall|k: int| 0 <= k < split_spaces(t).len() ==> all_chars(#[trigger] split_spaces(t)[k]),
    decreases t.len(),
{
    if t.len() > 0 {
        let d = t.drop_last();
        assert forall|i: int| 0 <= i < d.len() implies (#[trigger] d[i] is Char || d[i] == Key::Space) by {
            assert(d[i] == t[i]);
        }
        lemma_split_spaces(d);
        let p = split_spaces(d);
        let q = split_spaces(t);
        assert(t[t.len() - 1] is Char || t[t.len() - 1] == Key::Space);
        assert forall|k: int| 0 <= k < q.len() implies all_chars(#[trigger] q[k]) by {
            if t.last() != Key::Space && k == p.len() - 1 {
                let w = p.last().push(t.last());
                assert(q[k] == w);
                assert forall|j: int| 0 <= j < w.len() implies (#[trigger] w[j]) is Char by {
                    if j < p.last().len() {
                        assert(w[j] == p[k][j]);
                    }
                }
            }
        }
    }
}

/// Under the session invariant there is exactly one typed segment for each
/// word reached, so never fewer than one nor more than there are words; and
/// every segment holds only characters.
pub proof fn lemma_segments(s: SessionView)
    requires
        s.wf(),
    ensures
        s.segments().len() == s.word_index + 1,
        1 <= s.segments().len() <= s.words.len(),
        forall|k: int| 0 <= k < s.segments().len() ==> all_chars(#[trigger] s.segments()[k]),
{
    lemma_split_spaces(s.typed);
    let p = split_spaces(s.typed);
    if s.finished {
        assert forall|k: int| 0 <= k < s.segments().len() implies all_chars(#[trigger] s.segments()[k]) by {
            assert(s.segments()[k] == p[k]);
        }
    }
}

pub proof fn lemma_keys_of_all_chars(w: Seq<char>)
    ensures
        all_chars(keys_of(w)),
{
}

pub proof fn lemma_keys_of_push(s: Seq<char>, c: char)
    ensures
        keys_of(s.push(c)) == keys_of(s).push(Key::Char(c)),
{
    let a = keys_of(s.push(c));
    let b = keys_of(s).push(Key::Char(c));
    assert(a.len() == b.len());
    assert forall|i: int| 0 <= i < a.len() implies a[i] == b[i] by {
        if i < s.len() {
            assert(a[i] == char_key(s.push(c)[i]));
            assert(b[i] == keys_of(s)[i]);
        } else {
            assert(a[i] == char_key(c));
        }
    }
    assert(a =~= b);
}

/// The contents of a list of key vectors.
pub open spec fn deep(v: Seq<Vec<Key>>) -> Seq<Seq<Key>> {
    Seq::new(v.len(), |i: int| v[i]@)
}

/// The text of each string of a list.
pub open spec fn texts(v: Seq<String>) -> Seq<Seq<char>> {
    Seq::new(v.len(), |i: int| v[i]@)
}

/// Every key event keeps the session invariant.
pub proof fn lemma_apply_wf(s: SessionView, key: Key)
    requires
        s.wf(),
    ensures
        s.apply(key).wf(),
{
    let t = s.typed;
    if !s.finished {
        match key {
            Key::Char(_) | Key::Space => {
                let u = t.push(key);
                assert(u.drop_last() =~= t);
                assert forall|i: int| 0 <= i < u.len() implies (#[trigger] u[i] is Char || u[i] == Key::Space) by {
                    if i < t.len() {
                        assert(u[i] == t[i]);
                    }
                }
            },
            Key::Backspace => {
                if !(s.word_index == 0 && t.len() == 0) {
                    let u = t.drop_last();
                    assert forall|i: int| 0 <= i < u.len() implies (#[trigger] u[i] is Char || u[i] == Key::Space) by {
                        assert(u[i] == t[i]);
                    }
                }
            },
            _ => {},
        }
    }
}

/// A session that was just given a non-empty word list is on its first
/// word, not finished, and holds one empty typed segment.
pub proof fn lemma_fresh(words: Seq<Seq<char>>)
    requires
        words.len() >= 1,
    ensures
        fresh(words).wf(),
        fresh(words).word_index == 0,
        !fresh(words).finished,
        fresh(words).segments() == seq![Seq::<Key>::empty()],
{
    let s = fresh(words);
    assert forall|i: int| 0 <= i < s.words.len() implies all_chars(#[trigger] s.words[i]) by {
        lemma_keys_of_all_chars(words[i]);
    }
}

/// A character key never moves to another word and never finishes the
/// test.
pub proof fn lemma_char_keeps_word(s: SessionView, c: char)
    requires
        s.wf(),
    ensures
        s.apply(Key::Char(c)).word_index == s.word_index,
        s.apply(Key::Char(c)).finished == s.finished,
{
}

/// Only `Space` on the last word finishes a session, it keeps every entry
/// typed before it, and once finished a session stays as it is.
pub proof fn lemma_finish_once(s: SessionView, key: Key)
    requires
        s.wf(),
    ensures
        !s.finished && s.apply(key).finished ==> key == Key::Space && s.word_index + 1
            == s.words.len(),
        !s.finished && key == Key::Space && s.word_index + 1 == s.words.len() ==> s.apply(
            key,
        ).finished && s.apply(key).typed.drop_last() == s.typed,
        s.finished ==> s.apply(key) == s,
{
    assert(s.typed.push(Key::Space).drop_last() =~= s.typed);
}

/// `Backspace` undoes the last character, and the `Space` that moved on from
/// a word that was not the last: the whole state comes back, its typed
/// segments with it.
pub proof fn lemma_backspace_undoes(s: SessionView, key: Key)
    requires
        s.wf(),
        !s.finished,
        key is Char || (key == Key::Space && s.word_index + 1 < s.words.len()),
    ensures
        s.apply(key).apply(Key::Backspace) == s,
        s.apply(key).apply(Key::Backspace).segments() == s.segments(),
{
    let u = s.typed.push(key);
    assert(u.drop_last() =~= s.typed);
}

/// `Backspace` before anything was typed changes nothing.
pub proof fn lemma_backspace_at_start(s: SessionView)
    requires
        s.wf(),
        s.word_index == 0,
        s.typed.len() == 0,
    ensures
        s.apply(Key::Backspace) == s,
{
}

/// The state after a sequence of key events.
pub open spec fn run(s: SessionView, keys: Seq<Key>) -> SessionView
    decreases keys.len(),
{
    if keys.len() == 0 {
        s
    } else {
        run(s, keys.drop_last()).apply(keys.last())
    }
}

/// A stream edited by the keys alone: characters and spaces are appended,
/// `Backspace` removes the last entry if there is one.
pub open spec fn replay(keys: Seq<Key>) -> Seq<Key>
    decreases keys.len(),
{
    if keys.len() == 0 {
        Seq::empty()
    } else {
        let t = replay(keys.drop_last());
        if keys.last() == Key::Backspace {
            if t.len() > 0 {
                t.drop_last()
            } else {
                t
            }
        } else {
            t.push(keys.last())
        }
    }
}

/// Characters, spaces and backspaces applied to a new session, none of them
/// after it finished, leave exactly the stream that replaying them with
/// "backspace removes the last entry" gives, and the typed segments are
/// that stream split on spaces.
pub proof fn lemma_run_replays(words: Seq<Seq<char>>, keys: Seq<Key>)
    requires
        words.len() >= 1,
        forall|i: int| 0 <= i < keys.len() ==> (#[trigger] keys[i] is Char || keys[i] == Key::Space
            || keys[i] == Key::Backspace),
        forall|j: int| 0 <= j < keys.len() ==> !(#[trigger] run(fresh(words), keys.take(j))).finished,
    ensures
        run(fresh(words), keys).wf(),
        run(fresh(words), keys).typed == replay(keys),
        run(fresh(words), keys).segments() == if run(fresh(words), keys).finished {
            split_spaces(replay(keys)).drop_last()
        } else {
            split_spaces(replay(keys))
        },
    decreases keys.len(),
{
    lemma_fresh(words);
    if keys.len() > 0 {
        let d = keys.drop_last();
        assert forall|i: int| 0 <= i < d.len() implies (#[trigger] d[i] is Char || d[i] == Key::Space
            || d[i] == Key::Backspace) by {
            assert(d[i] == keys[i]);
        }
        assert forall|j: int| 0 <= j < d.len() implies !(#[trigger] run(fresh(words), d.take(j))).finished by {
            assert(d.take(j) =~= keys.take(j));
        }
        lemma_run_replays(words, d);
        let p = run(fresh(words), d);
        assert(keys.take(d.len() as int) =~= d);
        assert(!p.finished);
        lemma_apply_wf(p, keys.last());
        assert(keys.last() == keys[keys.len() - 1]);
    }
}

/// A typing test in progress: the words to type, the word the user is on,
/// every surviving keystroke, and whether the last word was completed.
#[derive(Debug, Clone, PartialEq, Eq)]
pub struct TestState {
    pub word_list: Vec<Vec<Key>>,
    pub word_index: usize,
    pub typed_chars: Vec<Key>,
    pub finished: bool,
}

impl View for TestState {
    type V = SessionView;

    open spec fn view(&self) -> SessionView {
        SessionView {
            words: deep(self.word_list@),
            word_index: self.word_index as nat,
            typed: self.typed_chars@,
            finished: self.finished,
        }
    }
}

/// The character keys that spell `s`.
fn keys_from_str(s: &str) -> (r: Vec<Key>)
    ensures
        r@ == keys_of(s@),
{
    let mut r: Vec<Key> = Vec::new();
    assert(keys_of(s@.take(0)) =~= Seq::<Key>::empty());
    for ch in it: s.chars()
        invariant
            it.seq() == s@,
            r@ == keys_of(s@.take(it.index())),
    {
        assert(ch == s@[it.index()]);
        assert(it.index() < s@.len());
        assert(s@.take(it.index() + 1) =~= s@.take(it.index()).push(ch));
        proof { lemma_keys_of_push(s@.take(it.index()), ch); }
        r.push(Key::Char(ch));
    }
    assert(s@.take(s@.len() as int) =~= s@);
    r
}

impl TestState {
    pub open spec fn wf(&self) -> bool {
        self@.wf()
    }

    pub fn new(word_list: &Vec<String>) -> (s: Self)
        requires
            word_list.len() >= 1,
        ensures
            s@ == fresh(texts(word_list@)),
            s.wf(),
    {
        let s = TestState {
            word_list: Self::create_word_list(word_list),
            word_index: 0,
            typed_chars: Vec::new(),
            finished: false,
        };
        assert(s@.typed =~= Seq::<Key>::empty());
        assert forall|i: int| 0 <= i < s@.words.len() implies all_chars(#[trigger] s@.words[i]) by {
            lemma_keys_of_all_chars(texts(word_list@)[i]);
        }
        s
    }

    fn create_word_list(word_list: &Vec<String>) -> (r: Vec<Vec<Key>>)
        ensures
            deep(r@) == fresh(texts(word_list@)).words,
    {
        let mut r: Vec<Vec<Key>> = Vec::new();
        let n = word_list.len();
        let mut i: usize = 0;
        while i < n
            invariant
                n == word_list.len(),
                i <= n,
                deep(r@) =~= fresh(texts(word_list@.take(i as int))).words,
            decreases n - i,
        {
            let w = keys_from_str(word_list[i].as_str());
            let ghost prev = r@;
            r.push(w);
            proof {
                assert(deep(r@) =~= deep(prev).push(w@));
                assert(word_list@.take(i + 1) =~= word_list@.take(i as int).push(word_list@[i as int]));
            }
            i = i + 1;
        }
        assert(word_list@.take(n as int) =~= word_list@);
        r
    }

    /// Applies one key event. `Char` and `Space` append to the typed stream
    /// (`Space` also moves to the next word, or finishes the test on the
    /// last one); `Backspace` removes the last entry, stepping back a word
    /// when that entry is the `Space` that committed it. `Enter`, `Esc` and
    /// any event on a finished session change nothing and are reported.
    pub fn handle_key(&mut self, key: Key) -> (r: Result<(), SessionError>)
        requires
            old(self).wf(),
        ensures
            final(self).wf(),
            final(self)@ == old(self)@.apply(key),
            r == old(self)@.outcome(key),
    {
        if self.finished {
            return Err(SessionError::InvalidOperation);
        }
        match key {
            Key::Char(_) => {
                self.handle_char(key);
                Ok(())
            },
            Key::Space => {
                self.handle_space();
                Ok(())
            },
            Key::Backspace => {
                self.handle_backspace();
                Ok(())
            },
            Key::Enter => Err(SessionError::InvalidOperation),
            Key::Esc => Err(SessionError::Abandoned),
        }
    }

    fn handle_backspace(&mut self)
        requires
            old(self).wf(),
            !old(self).finished,
        ensures
            final(self).wf(),
            final(self)@ == old(self)@.apply(Key::Backspace),
    {
        if self.word_index == 0 && self.typed_chars.len() == 0 {
            return;
        }
        let char_index = self.char_index();
        let ghost t = self.typed_chars@;
        proof {
            assert(t.len() > 0);
            if char_index == 0 {
                assert(t.last() == Key::Space);
            }
        }
        if char_index == 0 {
            self.word_index -= 1;
        }
        self.typed_chars.pop();
        proof {
            let u = self.typed_chars@;
            assert(u =~= t.drop_last());
            assert forall|i: int| 0 <= i < u.len() implies (#[trigger] u[i] is Char || u[i] == Key::Space) by {
                assert(u[i] == t[i]);
            }
        }
    }

    fn handle_char(&mut self, ch: Key)
        requires
            old(self).wf(),
            !old(self).finished,
            ch is Char,
        ensures
            final(self).wf(),
            final(self)@ == old(self)@.apply(ch),
    {
        let ghost t = self.typed_chars@;
        self.typed_chars.push(ch);
        proof {
            assert(self.typed_chars@.drop_last() =~= t);
        }
    }

    fn handle_space(&mut self)
        requires
            old(self).wf(),
            !old(self).finished,
        ensures
            final(self).wf(),
            final(self)@ == old(self)@.apply(Key::Space),
    {
        let ghost t = self.typed_chars@;
        self.typed_chars.push(Key::Space);
        proof {
            assert(self.typed_chars@.drop_last() =~= t);
        }
        if self.word_index == self.word_list.len() - 1 {
            self.finished = true;
        } else {
            self.word_index += 1;
        }
    }

    /// How many entries were typed since the last `Space`.
    fn char_index(&self) -> (r: usize)
        ensures
            r == char_index_of(self.typed_chars@),
    {
        let n = self.typed_chars.len();
        let mut i: usize = n;
        assert(self.typed_chars@.take(n as int) =~= self.typed_chars@);
        while i > 0 && self.typed_chars[i - 1] != Key::Space
            invariant
                i <= n,
                n == self.typed_chars.len(),
                char_index_of(self.typed_chars@) == (n - i) + char_index_of(
                    self.typed_chars@.take(i as int),
                ),
            decreases i,
        {
            proof {
                let p = self.typed_chars@.take(i as int);
                assert(p.drop_last() =~= self.typed_chars@.take(i - 1));
                assert(p.last() == self.typed_chars@[i - 1]);
            }
            i -= 1;
        }
        proof {
            let p = self.typed_chars@.take(i as int);
            if i > 0 {
                assert(p.last() == self.typed_chars@[i - 1]);
            }
        }
        n - i
    }

    /// The word the user is typing.
    pub fn current_word(&self) -> (r: &Vec<Key>)
        requires
            self.wf(),
        ensures
            r@ == self@.words[self@.word_index as int],
    {
        &self.word_list[self.word_index]
    }

    /// The typed stream split on `Space`: one segment per word reached.
    pub fn typed_words(&self) -> (r: Vec<Vec<Key>>)
        requires
            self.wf(),
        ensures
            deep(r@) == self@.segments(),
    {
        let n = self.typed_chars.len();
        let mut done: Vec<Vec<Key>> = Vec::new();
        let mut current: Vec<Key> = Vec::new();
        let mut i: usize = 0;
        assert(self.typed_chars@.take(0) =~= Seq::<Key>::empty());
        assert(deep(done@).push(current@) =~= seq![Seq::<Key>::empty()]);
        while i < n
            invariant
                i <= n,
                n == self.typed_chars.len(),
                split_spaces(self.typed_chars@.take(i as int)) == deep(done@).push(current@),
            decreases n - i,
        {
            let k = self.typed_chars[i];
            let ghost d = done@;
            let ghost c = current@;
            proof {
                let p = self.typed_chars@.take(i + 1);
                assert(p.drop_last() =~= self.typed_chars@.take(i as int));
                assert(p.last() == k);
            }
            if k == Key::Space {
                done.push(current);
                current = Vec::new();
                proof {
                    assert(deep(done@) =~= deep(d).push(c));
                    assert(deep(done@).push(current@) =~= deep(d).push(c).push(Seq::empty()));
                }
            } else {
                current.push(k);
                proof {
                    assert(deep(done@).push(current@) =~= deep(d).push(c).update(
                        d.len() as int,
                        c.push(k),
                    ));
                }
            }
            i += 1;
        }
        assert(self.typed_chars@.take(n as int) =~= self.typed_chars@);
        if self.finished {
            assert(deep(done@) =~= deep(done@).push(current@).drop_last());
            done
        } else {
            let ghost d = done@;
            done.push(current);
            assert(deep(done@) =~= deep(d).push(current@));
            done
        }
    }
}

} // verus!
