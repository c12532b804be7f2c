use vstd::prelude::*;

use crate::config::Action;
use crate::rules::{regex_compiles, regex_is_match, views_of, Pattern};

verus! {

/// Whether a rule asks for the incident to be resolved after a command that
/// printed `stdout`: resolving is on, and the check pattern, if any, matches.
pub open spec fn resolve_wanted(action: Action, stdout: Seq<char>) -> bool {
    &&& action.resolve == Some(true)
    &&& match action.resolve_check {
        Some(check) => regex_is_match(check@, stdout),
        None => true,
    }
}

/// Whether a rule that asks for resolving has a check pattern that does
/// not compile.
pub open spec fn check_needed_but_invalid(action: Action) -> bool {
    &&& action.resolve == Some(true)
    &&& match action.resolve_check {
        Some(check) => !regex_compiles(check@),
        None => false,
    }
}

/// Decides whether the incident is to be resolved after its command printed
/// `stdout`. Fails when the check pattern has to be tested and does not
/// compile.
pub fn should_resolve(action: &Action, stdout: &str) -> (r: Result<bool, regex::Error>)
    ensures
        r is Err <==> check_needed_but_invalid(*action),
        r matches Ok(b) ==> b == resolve_wanted(*action, stdout@),
{
    match action.resolve {
        Some(true) => {},
        _ => return Ok(false),
    }
    match &action.resolve_check {
        Some(check) => {
            let re = match Pattern::new(check.as_str()) {
                Ok(re) => re,
                Err(e) => return Err(e),
            };
            Ok(re.is_match(stdout))
        },
        None => Ok(true),
    }
}

/// The seconds to wait for: `Some` only for a positive pause.
pub fn sleep(pause: Option<u64>) -> (r: Option<u64>)
    ensures
        r == (match pause {
            Some(p) => if p > 0 { Some(p) } else { None },
            None => None,
        }),
{
    match pause {
        Some(p) => if p > 0 { Some(p) } else { None },
        None => None,
    }
}

/// What a rule's worker does next.
#[derive(Debug, Clone, Copy, PartialEq, Eq, Structural)]
pub enum WorkerStep {
    /// Wait this many seconds.
    Pause(u64),
    /// Run the command at this index of the rule's list.
    Execute(usize),
    /// The list is done, or abandoned.
    Finish,
}

/// The state of one rule's worker over its list of `len` commands.
#[derive(Debug, Clone, Copy, PartialEq, Eq, Structural)]
pub struct Worker {
    pub pause_sec: u64,
    pub len: usize,
    pub next: usize,
    pub paused: bool,
    pub stopped: bool,
}

/// One transition: no pause before the first command, a pause of
/// `pause_sec` (when positive) before every later one, and nothing once the
/// list is exhausted or abandoned.
pub open spec fn step_spec(w: Worker) -> (Worker, WorkerStep) {
    if w.stopped || w.next >= w.len {
        (w, WorkerStep::Finish)
    } else if w.next > 0 && w.pause_sec > 0 && !w.paused {
        (
            Worker { pause_sec: w.pause_sec, len: w.len, next: w.next, paused: true, stopped: false },
            WorkerStep::Pause(w.pause_sec),
        )
    } else {
        (
            Worker {
                pause_sec: w.pause_sec,
                len: w.len,
                next: (w.next + 1) as usize,
                paused: false,
                stopped: false,
            },
            WorkerStep::Execute(w.next),
        )
    }
}

impl Worker {
    pub open spec fn fresh(pause_sec: u64, len: usize) -> Worker {
        Worker { pause_sec, len, next: 0, paused: false, stopped: false }
    }

    /// A worker at the start of a rule's list of `len` commands.
    pub fn new(action: &Action, len: usize) -> (r: Worker)
        ensures
            r == Worker::fresh(
                match action.pause_sec {
                    Some(p) => p,
                    None => 0,
                },
                len,
            ),
    {
        let pause_sec = match action.pause_sec {
            Some(p) => p,
            None => 0,
        };
        Worker { pause_sec, len, next: 0, paused: false, stopped: false }
    }

    /// Decides the next step and moves past it.
    pub fn next_step(&mut self) -> (r: WorkerStep)
        ensures
            (*final(self), r) == step_spec(*old(self)),
    {
        if self.stopped || self.next >= self.len {
            WorkerStep::Finish
        } else if self.next > 0 && self.pause_sec > 0 && !self.paused {
            self.paused = true;
            WorkerStep::Pause(self.pause_sec)
        } else {
            let index = self.next;
            self.next = self.next + 1;
            self.paused = false;
            WorkerStep::Execute(index)
        }
    }

    /// The command could not be started: the rest of the list is abandoned.
    pub fn launch_failed(&mut self)
        ensures
            *final(self) == (Worker { stopped: true, ..*old(self) }),
    {
        self.stopped = true;
    }
}

/// The first `n` steps of a worker left undisturbed from state `w`.
pub open spec fn run_spec(w: Worker, n: nat) -> Seq<WorkerStep>
    decreases n,
{
    if n == 0 {
        seq![]
    } else {
        seq![step_spec(w).1] + run_spec(step_spec(w).0, (n - 1) as nat)
    }
}

/// The steps of a list of `len` commands from command `from` on, when every
/// command starts: a pause of `pause` seconds (when positive) before every
/// command but the first, then the end.
pub open spec fn paced(pause: u64, from: nat, len: nat) -> Seq<WorkerStep>
    decreases len - from,
{
    if from >= len {
        seq![WorkerStep::Finish]
    } else if from > 0 && pause > 0 {
        seq![WorkerStep::Pause(pause), WorkerStep::Execute(from as usize)] + paced(pause, from + 1, len)
    } else {
        seq![WorkerStep::Execute(from as usize)] + paced(pause, from + 1, len)
    }
}

/// How often `step` occurs in `s`.
pub open spec fn count_step(s: Seq<WorkerStep>, step: WorkerStep) -> nat
    decreases s.len(),
{
    if s.len() == 0 {
        0
    } else {
        (if s[0] == step { 1nat } else { 0nat }) + count_step(s.drop_first(), step)
    }
}

proof fn lemma_count_concat(a: Seq<WorkerStep>, b: Seq<WorkerStep>, step: WorkerStep)
    ensures
        count_step(a + b, step) == count_step(a, step) + count_step(b, step),
    decreases a.len(),
{
    if a.len() > 0 {
        assert((a + b).drop_first() =~= a.drop_first() + b);
        lemma_count_concat(a.drop_first(), b, step);
    } else {
        assert(a + b =~= b);
    }
}

proof fn lemma_run_paced(w: Worker)
    requires
        !w.stopped,
        !w.paused,
        w.next <= w.len,
    ensures
        run_spec(w, paced(w.pause_sec, w.next as nat, w.len as nat).len()) == paced(
            w.pause_sec,
            w.next as nat,
            w.len as nat,
        ),
    decreases w.len - w.next,
{
    let p = paced(w.pause_sec, w.next as nat, w.len as nat);
    if w.next >= w.len {
        assert(run_spec(w, 0) =~= Seq::<WorkerStep>::empty());
        assert(run_spec(w, 1) =~= seq![WorkerStep::Finish]);
    } else {
        let w2 = Worker {
            pause_sec: w.pause_sec,
            len: w.len,
            next: (w.next + 1) as usize,
            paused: false,
            stopped: false,
        };
        let rest = paced(w.pause_sec, w.next as nat + 1, w.len as nat);
        lemma_run_paced(w2);
        if w.next > 0 && w.pause_sec > 0 {
            let w1 = Worker { pause_sec: w.pause_sec, len: w.len, next: w.next, paused: true, stopped: false };
            assert(step_spec(w1) == (w2, WorkerStep::Execute(w.next)));
            assert(run_spec(w1, rest.len() + 1) =~= seq![WorkerStep::Execute(w.next)] + rest);
            assert(run_spec(w, rest.len() + 2) =~= seq![WorkerStep::Pause(w.pause_sec)] + (seq![
                WorkerStep::Execute(w.next)] + rest));
            assert(p =~= seq![WorkerStep::Pause(w.pause_sec)] + (seq![WorkerStep::Execute(w.next)] + rest));
        } else {
            assert(run_spec(w, rest.len() + 1) =~= seq![WorkerStep::Execute(w.next)] + rest);
        }
    }
}

proof fn lemma_paced_counts(pause: u64, from: nat, len: nat)
    requires
        from <= len,
        len <= usize::MAX,
    ensures
        count_step(paced(pause, from, len), WorkerStep::Pause(pause)) == (if pause == 0 || from >= len {
            0
        } else if from == 0 {
            (len - 1) as nat
        } else {
            (len - from) as nat
        }),
        forall|j: int|
            0 <= j < paced(pause, from, len).len() && paced(pause, from, len)[j] is Pause ==> paced(
                pause,
                from,
                len,
            )[j] == WorkerStep::Pause(pause),
        count_step(paced(pause, from, len), WorkerStep::Finish) == 1,
    decreases len - from,
{
    let p = paced(pause, from, len);
    let e = seq![WorkerStep::Execute(from as usize)];
    assert(count_step(Seq::<WorkerStep>::empty(), WorkerStep::Pause(pause)) == 0);
    assert(count_step(Seq::<WorkerStep>::empty(), WorkerStep::Finish) == 0);
    if from >= len {
        assert(p.drop_first() =~= Seq::<WorkerStep>::empty());
    } else {
        let rest = paced(pause, from + 1, len);
        lemma_paced_counts(pause, from + 1, len);
        assert(e.drop_first() =~= Seq::<WorkerStep>::empty());
        lemma_count_concat(e, rest, WorkerStep::Pause(pause));
        lemma_count_concat(e, rest, WorkerStep::Finish);
        if from > 0 && pause > 0 {
            let head = seq![WorkerStep::Pause(pause)];
            assert(head.drop_first() =~= Seq::<WorkerStep>::empty());
            assert(p =~= head + (e + rest));
            lemma_count_concat(head, e + rest, WorkerStep::Pause(pause));
            lemma_count_concat(head, e + rest, WorkerStep::Finish);
        } else {
            assert(p =~= e + rest);
        }
    }
}

/// Pacing: a fresh worker over `len` commands that all start runs the first
/// command at once, then pauses `pause` seconds (when positive) before each
/// of the others, `len - 1` pauses in all, and finishes once.
pub proof fn lemma_pacing(pause: u64, len: usize)
    requires
        len > 0,
    ensures
        run_spec(Worker::fresh(pause, len), paced(pause, 0, len as nat).len()) == paced(pause, 0, len as nat),
        paced(pause, 0, len as nat)[0] == WorkerStep::Execute(0),
        count_step(paced(pause, 0, len as nat), WorkerStep::Pause(pause)) == (if pause > 0 {
            (len - 1) as nat
        } else {
            0
        }),
        forall|j: int|
            0 <= j < paced(pause, 0, len as nat).len() && paced(pause, 0, len as nat)[j] is Pause
                ==> paced(pause, 0, len as nat)[j] == WorkerStep::Pause(pause),
        count_step(paced(pause, 0, len as nat), WorkerStep::Finish) == 1,
{
    lemma_run_paced(Worker::fresh(pause, len));
    lemma_paced_counts(pause, 0, len as nat);
}

/// The words of a string, as `str::split_whitespace` cuts it.
pub uninterp spec fn words_of(s: Seq<char>) -> Seq<Seq<char>>;

/// Relies on `str::split_whitespace`: the words depend on the characters
/// alone.
#[verifier::external_body]
fn split_words(s: &str) -> (r: Vec<String>)
    ensures
        views_of(r@) == words_of(s@),
{
    s.split_whitespace().map(|w| w.to_string()).collect()
}

/// Cuts a command line into the program and its arguments; `None` when the
/// line holds no word, in which case nothing is to be run.
pub fn split_command(command: &str) -> (r: Option<(String, Vec<String>)>)
    ensures
        r is None <==> words_of(command@).len() == 0,
        r matches Some((program, args)) ==> program@ == words_of(command@)[0] && views_of(args@)
            == words_of(command@).drop_first(),
{
    let mut words = split_words(command);
    if words.len() == 0 {
        return None;
    }
    let ghost all = words@;
    let program = words.remove(0);
    assert(views_of(words@) =~= views_of(all).drop_first());
    Some((program, words))
}

} // verus!
