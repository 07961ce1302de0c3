use vstd::prelude::*;
use crate::engine::{DrtError, Mode};
use crate::template::{append_bytes, copy_bytes, join_with, views};

verus! {

/// The byte that separates the words of a command line.
pub const SPACE: u8 = 0x20;

/// Whether `s` holds no space.
pub open spec fn space_free(s: Seq<u8>) -> bool {
    forall|j: int| 0 <= j < s.len() ==> s[j] != SPACE
}

/// The first index at or after `i` that holds a space, or the length.
pub open spec fn space_at_or_end(s: Seq<u8>, i: int) -> int
    decreases s.len() - i,
{
    if i < 0 || i >= s.len() || s[i] == SPACE {
        i
    } else {
        space_at_or_end(s, i + 1)
    }
}

/// The words of `s`: the text up to each space, and the text after the last.
pub open spec fn split_spec(s: Seq<u8>) -> Seq<Seq<u8>>
    decreases s.len(),
{
    let e = space_at_or_end(s, 0);
    if e < 0 || e >= s.len() {
        seq![s]
    } else {
        seq![s.subrange(0, e)] + split_spec(s.subrange(e + 1, s.len() as int))
    }
}

proof fn lemma_space_at(s: Seq<u8>, i: int, e: int)
    requires
        0 <= i <= e <= s.len(),
        e < s.len() ==> s[e] == SPACE,
        forall|m: int| i <= m < e ==> s[m] != SPACE,
    ensures
        space_at_or_end(s, i) == e,
    decreases e - i,
{
    if i < e {
        lemma_space_at(s, i + 1, e);
    }
}

/// There is one way only to cut a text into space-free words joined by
/// single spaces: the words of `split_spec`.
pub proof fn lemma_split_unique(ws: Seq<Seq<u8>>, s: Seq<u8>)
    requires
        ws.len() >= 1,
        join_with(ws, seq![SPACE]) == s,
        forall|i: int| 0 <= i < ws.len() ==> space_free(#[trigger] ws[i]),
    ensures
        ws == split_spec(s),
    decreases ws.len(),
{
    let w = ws[0];
    assert(space_free(ws[0]));
    if ws.len() == 1 {
        lemma_space_at(s, 0, s.len() as int);
        assert(ws =~= seq![s]);
    } else {
        let rest = ws.drop_first();
        assert forall|i: int| 0 <= i < rest.len() implies space_free(#[trigger] rest[i]) by {
            assert(rest[i] == ws[i + 1]);
        }
        assert(s == w + seq![SPACE] + join_with(rest, seq![SPACE]));
        assert(s[w.len() as int] == SPACE);
        assert forall|m: int| 0 <= m < w.len() implies s[m] != SPACE by {
            assert(s[m] == w[m]);
        }
        lemma_space_at(s, 0, w.len() as int);
        assert(s.subrange(0, w.len() as int) =~= w);
        assert(s.subrange(w.len() as int + 1, s.len() as int) =~= join_with(rest, seq![SPACE]));
        lemma_split_unique(rest, s.subrange(w.len() as int + 1, s.len() as int));
        assert(ws =~= seq![w] + rest);
    }
}

/// Joining one more piece adds the separator and the piece at the end.
pub proof fn lemma_join_push(ps: Seq<Seq<u8>>, x: Seq<u8>, sep: Seq<u8>)
    ensures
        join_with(ps.push(x), sep) == if ps.len() == 0 {
            x
        } else {
            join_with(ps, sep) + sep + x
        },
    decreases ps.len(),
{
    if ps.len() == 0 {
    } else if ps.len() == 1 {
        assert(ps.push(x).drop_first() =~= seq![x]);
        assert(join_with(seq![x], sep) == x);
        assert(ps.push(x)[0] == ps[0]);
    } else {
        let rest = ps.drop_first();
        lemma_join_push(rest, x, sep);
        assert(ps.push(x).drop_first() =~= rest.push(x));
        assert(ps.push(x)[0] == ps[0]);
        assert(ps[0] + sep + (join_with(rest, sep) + sep + x) =~= (ps[0] + sep + join_with(
            rest,
            sep,
        )) + sep + x);
    }
}

/// Splits a command line at each space: the words, joined again with one
/// space between each two, give the line back, and no word holds a space.
/// Two spaces in a row give an empty word.
pub fn split_words(line: &[u8]) -> (r: Vec<Vec<u8>>)
    ensures
        r@.len() >= 1,
        views(r@) == split_spec(line@),
        join_with(views(r@), seq![SPACE]) == line@,
        forall|i: int| 0 <= i < r@.len() ==> space_free(#[trigger] r@[i]@),
{
    let mut words: Vec<Vec<u8>> = Vec::new();
    let mut cur: Vec<u8> = Vec::new();
    let mut i: usize = 0;
    while i < line.len()
        invariant
            i <= line@.len(),
            join_with(views(words@).push(cur@), seq![SPACE]) == line@.subrange(0, i as int),
            forall|k: int| 0 <= k < words@.len() ==> space_free(#[trigger] words@[k]@),
            space_free(cur@),
        decreases line@.len() - i,
    {
        let c = line[i];
        let ghost w0 = views(words@);
        let ghost c0 = cur@;
        if c == SPACE {
            words.push(cur);
            cur = Vec::new();
            proof {
                assert(views(words@) =~= w0.push(c0));
                lemma_join_push(w0.push(c0), cur@, seq![SPACE]);
                assert(line@.subrange(0, i + 1) =~= line@.subrange(0, i as int) + seq![SPACE]);
                assert(join_with(w0.push(c0), seq![SPACE]) + seq![SPACE] + cur@ =~= line@.subrange(
                    0,
                    i + 1,
                ));
            }
        } else {
            cur.push(c);
            proof {
                lemma_join_push(w0, c0, seq![SPACE]);
                lemma_join_push(w0, cur@, seq![SPACE]);
                assert(cur@ =~= c0 + seq![c]);
                assert(line@.subrange(0, i + 1) =~= line@.subrange(0, i as int) + seq![c]);
                if w0.len() == 0 {
                    assert(join_with(w0.push(cur@), seq![SPACE]) =~= line@.subrange(0, i + 1));
                } else {
                    assert(join_with(w0.push(cur@), seq![SPACE]) =~= join_with(
                        w0.push(c0),
                        seq![SPACE],
                    ) + seq![c]);
                }
            }
        }
        i = i + 1;
    }
    let ghost w0 = views(words@);
    let ghost c0 = cur@;
    words.push(cur);
    proof {
        assert(views(words@) =~= w0.push(c0));
        assert(line@.subrange(0, line@.len() as int) =~= line@);
        assert forall|k: int| 0 <= k < views(words@).len() implies space_free(
            #[trigger] views(words@)[k],
        ) by {
            assert(views(words@)[k] == words@[k]@);
        }
        lemma_split_unique(views(words@), line@);
    }
    words
}

/// The line that stands for a command: the program followed by each
/// argument, one space before each.
pub fn command_line(program: &[u8], args: &[Vec<u8>]) -> (r: Vec<u8>)
    ensures
        r@ == join_with(seq![program@] + views(args@), seq![SPACE]),
{
    let mut out = copy_bytes(program);
    let mut i: usize = 0;
    proof {
        assert(seq![program@] + views(args@).subrange(0, 0) =~= seq![program@]);
    }
    while i < args.len()
        invariant
            i <= args@.len(),
            out@ == join_with(seq![program@] + views(args@).subrange(0, i as int), seq![SPACE]),
        decreases args@.len() - i,
    {
        let ghost ps = seq![program@] + views(args@).subrange(0, i as int);
        out.push(SPACE);
        append_bytes(&mut out, args[i].as_slice());
        proof {
            lemma_join_push(ps, args@[i as int]@, seq![SPACE]);
            assert(seq![program@] + views(args@).subrange(0, i + 1) =~= ps.push(args@[i as int]@));
        }
        i = i + 1;
    }
    proof {
        assert(views(args@).subrange(0, args@.len() as int) =~= views(args@));
    }
    out
}

/// How a spawned process ended: status 0 is success, another status is an
/// error with that status, and no status (killed by a signal) is an abnormal
/// end.
pub fn exit_outcome(code: Option<i32>) -> (r: Result<(), DrtError>)
    ensures
        r == match code {
            Some(0) => Ok(()),
            Some(n) => Err(DrtError::NotZeroExit(n)),
            None => Err(DrtError::CmdExitedPrematurely),
        },
{
    match code {
        Some(0) => Ok(()),
        Some(n) => Err(DrtError::NotZeroExit(n)),
        None => Err(DrtError::CmdExitedPrematurely),
    }
}

/// Where a command action stands.
pub enum CommandState {
    /// Waiting for the operator's answer to "run (y/n)".
    Asking,
    /// Waiting for the program's full path on the search path.
    Resolving,
    /// Waiting for the spawned process to end.
    Running,
    Done,
}

/// What the surroundings report back to a command action.
pub enum CommandEvent {
    /// The first character the operator typed.
    Answer(char),
    /// The program's full path, or `None` where it is not found.
    Resolved(Option<Vec<u8>>),
    /// The spawned process's exit status, or `None` where it had none.
    Exited(Option<i32>),
}

/// What a command action asks the surroundings to do next.
pub enum CommandStep {
    /// Ask the operator whether to run the line.
    Ask,
    /// Look the program up on the search path.
    Resolve,
    /// Spawn the words as a process and wait for it: the only step that
    /// spawns one.
    Spawn,
    /// Report that this line would run; the action has succeeded.
    WouldRun(Vec<u8>),
    /// The action is over.
    Finish(Result<(), DrtError>),
}

/// One command action: the line, its words, and the mode it runs under.
pub struct CommandRun {
    pub mode: Mode,
    pub line: Vec<u8>,
    pub argv: Vec<Vec<u8>>,
    pub state: CommandState,
}

/// The first step of a command action whose words are `words`.
pub open spec fn command_first(mode: Mode, words: Seq<Seq<u8>>, state: CommandState, step: CommandStep) -> bool {
    if words[0].len() == 0 {
        state is Done && step == CommandStep::Finish(Err(DrtError::ExpectedArg))
    } else {
        match mode {
            Mode::Passive => state is Resolving && step is Resolve,
            Mode::Interactive => state is Asking && step is Ask,
            Mode::Active => state is Running && step is Spawn,
        }
    }
}

/// The transition of a command action with line `line` and words `words`
/// from `state` on `event`.
pub open spec fn command_next(
    line: Seq<u8>,
    words: Seq<Seq<u8>>,
    state: CommandState,
    event: CommandEvent,
    next: CommandState,
    step: CommandStep,
) -> bool {
    match (state, event) {
        (CommandState::Asking, CommandEvent::Answer(c)) => if c == 'y' {
            next is Running && step is Spawn
        } else if c == 'n' {
            next is Done && step is WouldRun && step->WouldRun_0@ == line
        } else {
            next is Asking && step is Ask
        },
        (CommandState::Resolving, CommandEvent::Resolved(Some(p))) => next is Done && step is WouldRun
            && step->WouldRun_0@ == join_with(seq![p@] + words.drop_first(), seq![SPACE]),
        (CommandState::Resolving, CommandEvent::Resolved(None)) => next is Done && step
            == CommandStep::Finish(Err(DrtError::ExecutableNotFound)),
        (CommandState::Running, CommandEvent::Exited(code)) => next is Done && step
            == CommandStep::Finish(
            match code {
                Some(0) => Ok(()),
                Some(n) => Err(DrtError::NotZeroExit(n)),
                None => Err(DrtError::CmdExitedPrematurely),
            },
        ),
        _ => next is Done && step == CommandStep::Finish(Err(DrtError::UnexpectedEvent)),
    }
}

/// The line reported for a command that would run: the program's full
/// path `p`, then the words after the first, one space before each.
pub fn would_run_line(p: &[u8], argv: &Vec<Vec<u8>>) -> (r: Vec<u8>)
    requires
        argv@.len() >= 1,
    ensures
        r@ == join_with(seq![p@] + views(argv@).drop_first(), seq![SPACE]),
{
    let args = argv.as_slice();
    let mut rest: Vec<Vec<u8>> = Vec::new();
    let mut i: usize = 1;
    assert(views(rest@) =~= views(args@).subrange(1, 1));
    while i < args.len()
        invariant
            1 <= i <= args@.len(),
            views(rest@) == views(args@).subrange(1, i as int),
        decreases args@.len() - i,
    {
        let ghost r0 = rest@;
        let w = copy_bytes(args[i].as_slice());
        rest.push(w);
        assert(views(rest@) =~= views(r0).push(args@[i as int]@));
        i = i + 1;
        assert(views(rest@) =~= views(args@).subrange(1, i as int));
    }
    assert(views(args@).subrange(1, args@.len() as int) =~= views(args@).drop_first());
    command_line(p, rest.as_slice())
}

/// Starts a command action on `cmd` under `mode`.
pub fn execute(mode: Mode, cmd: &[u8]) -> (r: (CommandRun, CommandStep))
    ensures
        r.0.wf(),
        r.0.mode == mode,
        r.0.line@ == cmd@,
        views(r.0.argv@) == split_spec(cmd@),
        join_with(views(r.0.argv@), seq![SPACE]) == cmd@,
        command_first(mode, views(r.0.argv@), r.0.state, r.1),
{
    CommandRun::new(mode, copy_bytes(cmd))
}

/// What simulate mode does with `raw_cmd`, given where the search path
/// finds its program (`None`: nowhere): a line without a command lacks an
/// argument, a program not found is an error, and otherwise the result is
/// the line that would run.
pub fn execute_inactive(raw_cmd: &[u8], exe_path: Option<Vec<u8>>) -> (r: Result<Vec<u8>, DrtError>)
    ensures
        ({
            let words = split_spec(raw_cmd@);
            if words[0].len() == 0 {
                r == Err::<Vec<u8>, DrtError>(DrtError::ExpectedArg)
            } else {
                match exe_path {
                    None => r == Err::<Vec<u8>, DrtError>(DrtError::ExecutableNotFound),
                    Some(p) => r is Ok && r->Ok_0@ == join_with(
                        seq![p@] + words.drop_first(),
                        seq![SPACE],
                    ),
                }
            }
        }),
{
    let argv = split_words(raw_cmd);
    if argv[0].len() == 0 {
        return Err(DrtError::ExpectedArg);
    }
    match exe_path {
        None => Err(DrtError::ExecutableNotFound),
        Some(p) => Ok(would_run_line(p.as_slice(), &argv)),
    }
}

impl CommandRun {
    /// A command line always has at least one word.
    pub open spec fn wf(&self) -> bool {
        self.argv@.len() >= 1
    }

    /// Opens a command action on `line` under `mode`. A line whose first
    /// word is empty lacks its command. Otherwise simulate mode first looks
    /// the program up, confirm mode first asks, and apply mode spawns.
    pub fn new(mode: Mode, line: Vec<u8>) -> (r: (CommandRun, CommandStep))
        ensures
            r.0.wf(),
            r.0.mode == mode,
            r.0.line@ == line@,
            views(r.0.argv@) == split_spec(line@),
            join_with(views(r.0.argv@), seq![SPACE]) == line@,
            forall|i: int| 0 <= i < r.0.argv@.len() ==> space_free(#[trigger] r.0.argv@[i]@),
            command_first(mode, views(r.0.argv@), r.0.state, r.1),
    {
        let argv = split_words(line.as_slice());
        let (state, step) = if argv[0].len() == 0 {
            (CommandState::Done, CommandStep::Finish(Err(DrtError::ExpectedArg)))
        } else {
            match mode {
                Mode::Passive => (CommandState::Resolving, CommandStep::Resolve),
                Mode::Interactive => (CommandState::Asking, CommandStep::Ask),
                Mode::Active => (CommandState::Running, CommandStep::Spawn),
            }
        };
        (CommandRun { mode, line, argv, state }, step)
    }

    /// Takes the next event and says what to do next. The mode, the line
    /// and its words stay as the action was opened with.
    pub fn step(self, event: CommandEvent) -> (r: (CommandRun, CommandStep))
        requires
            self.wf(),
        ensures
            r.0.wf(),
            r.0.mode == self.mode,
            r.0.line == self.line,
            r.0.argv == self.argv,
            command_next(self.line@, views(self.argv@), self.state, event, r.0.state, r.1),
    {
        let CommandRun { mode, line, argv, state } = self;
        let (next, step) = match (state, event) {
            (CommandState::Asking, CommandEvent::Answer(c)) => if c == 'y' {
                (CommandState::Running, CommandStep::Spawn)
            } else if c == 'n' {
                (CommandState::Done, CommandStep::WouldRun(copy_bytes(line.as_slice())))
            } else {
                (CommandState::Asking, CommandStep::Ask)
            },
            (CommandState::Resolving, CommandEvent::Resolved(Some(p))) => (
                CommandState::Done,
                CommandStep::WouldRun(would_run_line(p.as_slice(), &argv)),
            ),
            (CommandState::Resolving, CommandEvent::Resolved(None)) => (
                CommandState::Done,
                CommandStep::Finish(Err(DrtError::ExecutableNotFound)),
            ),
            (CommandState::Running, CommandEvent::Exited(code)) => (
                CommandState::Done,
                CommandStep::Finish(exit_outcome(code)),
            ),
            _ => (CommandState::Done, CommandStep::Finish(Err(DrtError::UnexpectedEvent))),
        };
        (CommandRun { mode, line, argv, state: next }, step)
    }
}

/// Under confirm mode a command is spawned only on a yes: the action opens by
/// asking, never by spawning; on `n` it reports the line and ends with no
/// process spawned; on `y` it spawns the words of the line once; on anything
/// else it asks again.
pub proof fn lemma_confirm_gates_spawn(
    line: Seq<u8>,
    words: Seq<Seq<u8>>,
    first_state: CommandState,
    first_step: CommandStep,
    c: char,
    next: CommandState,
    step: CommandStep,
)
    requires
        words.len() >= 1,
        command_first(Mode::Interactive, words, first_state, first_step),
        command_next(line, words, CommandState::Asking, CommandEvent::Answer(c), next, step),
    ensures
        !(first_step is Spawn),
        c == 'n' ==> !(step is Spawn) && next is Done && step is WouldRun && step->WouldRun_0@ == line,
        c == 'y' ==> step is Spawn && next is Running,
        c != 'y' && c != 'n' ==> step is Ask && next is Asking,
{
}

/// Under simulate mode no command action spawns a process: it opens by
/// looking the program up, and that lookup ends it.
pub proof fn lemma_simulate_never_spawns(
    line: Seq<u8>,
    words: Seq<Seq<u8>>,
    first_state: CommandState,
    first_step: CommandStep,
    event: CommandEvent,
    next: CommandState,
    step: CommandStep,
)
    requires
        words.len() >= 1,
        command_first(Mode::Passive, words, first_state, first_step),
        command_next(line, words, first_state, event, next, step),
    ensures
        !(first_step is Spawn),
        !(step is Spawn),
        next is Done,
{
}

} // verus!
