use vstd::prelude::*;
use crate::key::Key;
use crate::session::{SessionView, TestState, fresh, texts};
use rand::seq::IteratorRandom;

verus! {

/// How many words one test asks for.
pub const WORDS_PER_TEST: usize = 25;

/// A finished test.
#[derive(Debug)]
pub struct TestResult {
    pub duration_secs: u64,
    pub final_state: TestState,
}

/// The phase the program is in.
#[derive(Debug)]
pub enum State {
    Welcome,
    RunningTest(TestState),
    TestComplete(TestResult),
    Exit,
}

/// The abstract phase: a running or complete test is seen through its
/// session.
pub enum Phase {
    Welcome,
    Running(SessionView),
    Complete(SessionView),
    Exit,
}

/// What the program around the phase machine has to do after a key.
#[derive(Debug, Clone, Copy, PartialEq, Eq, Structural)]
pub enum Action {
    Nothing,
    /// Fetch the word pool and hand it to `start_test`.
    StartTest,
}

impl State {
    pub open spec fn phase(&self) -> Phase {
        match self {
            State::Welcome => Phase::Welcome,
            State::RunningTest(t) => Phase::Running(t@),
            State::TestComplete(r) => Phase::Complete(r.final_state@),
            State::Exit => Phase::Exit,
        }
    }

    pub open spec fn wf(&self) -> bool {
        match self {
            State::RunningTest(t) => t.wf() && !t.finished,
            State::TestComplete(r) => r.final_state.wf() && r.final_state.finished,
            _ => true,
        }
    }
}

impl Phase {
    /// The phase after a key: `Esc` leaves the welcome screen for good and a
    /// running test for the welcome screen; any other key goes to the
    /// running session, which becomes complete once it finishes; any key
    /// leaves the results for the welcome screen.
    pub open spec fn next(self, key: Key) -> Phase {
        match self {
            Phase::Welcome => if key == Key::Esc {
                Phase::Exit
            } else {
                Phase::Welcome
            },
            Phase::Running(s) => if key == Key::Esc {
                Phase::Welcome
            } else if s.apply(key).finished {
                Phase::Complete(s.apply(key))
            } else {
                Phase::Running(s.apply(key))
            },
            Phase::Complete(_) => Phase::Welcome,
            Phase::Exit => Phase::Exit,
        }
    }

    /// `Enter` on the welcome screen asks for a new test.
    pub open spec fn action(self, key: Key) -> Action {
        if self is Welcome && key == Key::Enter {
            Action::StartTest
        } else {
            Action::Nothing
        }
    }
}

/// Relies on rand's `IteratorRandom::choose_multiple` (reservoir sampling
/// with the thread-local generator): it returns `amount` items of the pool,
/// or all of them when the pool is smaller, each taken from the pool.
#[verifier::external_body]
fn choose_words(pool: &Vec<String>, amount: usize) -> (r: Vec<String>)
    ensures
        r.len() == if amount <= pool.len() { amount } else { pool.len() },
        forall|i: int| 0 <= i < r.len() ==> pool@.contains(#[trigger] r@[i]),
{
    pool.iter().cloned().choose_multiple(&mut rand::thread_rng(), amount)
}

/// The typing-test program as a machine of phases: welcome screen, running
/// test, results, exit.
pub struct ChimpType {
    pub state: State,
}

impl ChimpType {
    pub fn new() -> (c: Self)
        ensures
            c.state.phase() is Welcome,
            c.state.wf(),
    {
        ChimpType { state: State::Welcome }
    }

    /// Moves to the next phase on a key and says what the caller must do.
    pub fn handle_key(&mut self, key: Key) -> (a: Action)
        requires
            old(self).state.wf(),
        ensures
            final(self).state.wf(),
            final(self).state.phase() == old(self).state.phase().next(key),
            a == old(self).state.phase().action(key),
    {
        let mut current = State::Exit;
        std::mem::swap(&mut self.state, &mut current);
        let (next, action) = match current {
            State::Welcome => if key == Key::Enter {
                (State::Welcome, Action::StartTest)
            } else if key == Key::Esc {
                (State::Exit, Action::Nothing)
            } else {
                (State::Welcome, Action::Nothing)
            },
            State::RunningTest(mut test_state) => if key == Key::Esc {
                (State::Welcome, Action::Nothing)
            } else {
                let _outcome = test_state.handle_key(key);
                if test_state.finished {
                    (
                        State::TestComplete(TestResult { duration_secs: 0, final_state: test_state }),
                        Action::Nothing,
                    )
                } else {
                    (State::RunningTest(test_state), Action::Nothing)
                }
            },
            State::TestComplete(_) => (State::Welcome, Action::Nothing),
            State::Exit => (State::Exit, Action::Nothing),
        };
        self.state = next;
        action
    }

    /// Starts a test of up to `WORDS_PER_TEST` words drawn at random from
    /// `pool`. Only the welcome screen starts one, and only from a pool with
    /// at least one word; otherwise nothing changes and `false` comes back.
    pub fn start_test(&mut self, pool: &Vec<String>) -> (started: bool)
        requires
            old(self).state.wf(),
        ensures
            final(self).state.wf(),
            started == (old(self).state.phase() is Welcome && pool.len() > 0),
            !started ==> final(self).state.phase() == old(self).state.phase(),
            started ==> exists|w: Seq<String>|
                {
                    &&& w.len() == if WORDS_PER_TEST <= pool.len() {
                        WORDS_PER_TEST as int
                    } else {
                        pool.len() as int
                    }
                    &&& forall|i: int| 0 <= i < w.len() ==> pool@.contains(#[trigger] w[i])
                    &&& #[trigger] final(self).state.phase() == Phase::Running(fresh(texts(w)))
                },
    {
        match self.state {
            State::Welcome => {},
            _ => return false,
        }
        if pool.len() == 0 {
            return false;
        }
        let words = choose_words(pool, WORDS_PER_TEST);
        let test_state = TestState::new(&words);
        self.state = State::RunningTest(test_state);
        true
    }
}

} // verus!
