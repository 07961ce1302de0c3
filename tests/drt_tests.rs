use drt::action::{do_action, parse_action, parse_type, Action, Dispatch, Type};
use drt::command::{
    command_line, execute, execute_inactive, exit_outcome, split_words, CommandEvent, CommandRun,
    CommandState, CommandStep,
};
use drt::diff::{diff_outcome, DiffStatus};
use drt::engine::{
    create_or_diff, process_template_file, resolve_mode, DrtError, Mode, TemplateEvent,
    TemplateRun, TemplateState, TemplateStep,
};
use drt::template::{render, replace_line, ChangeString, VarTable};

fn table(pairs: &[(&str, &str)]) -> VarTable {
    let mut vars = VarTable::new();
    for (k, v) in pairs {
        vars.insert(k.as_bytes(), v.as_bytes());
    }
    vars
}

fn words(s: &[&str]) -> Vec<Vec<u8>> {
    s.iter().map(|w| w.as_bytes().to_vec()).collect()
}

#[test]
fn test_parse_type() {
    match parse_type(&String::from("t")) {
        Type::Template => {}
        _ => panic!("expected Template"),
    }
    match parse_type(&String::from("x")) {
        Type::Execute => {}
        _ => panic!("expected Execute"),
    }
    match parse_type(&String::from("v")) {
        Type::Variable => {}
        _ => panic!("expected Template"),
    }
}

#[test]
fn parse_type_unknown_tags() {
    assert_eq!(parse_type("q"), Type::Unknown);
    assert_eq!(parse_type("tt"), Type::Unknown);
    assert_eq!(parse_type(""), Type::Unknown);
}

#[test]
fn render_without_placeholders_is_identity() {
    let vars = table(&[("k", "v")]);
    let t = b"plain text @ with @@ lone markers @@@".to_vec();
    assert_eq!(render(&vars, &t), t);
    assert_eq!(render(&vars, b""), b"".to_vec());
}

#[test]
fn render_replaces_every_occurrence() {
    let vars = table(&[("k", "x")]);
    assert_eq!(render(&vars, b"a@@k@@b@@k@@c"), b"axbxc".to_vec());
    assert_eq!(render(&vars, b"@@k@@@@k@@"), b"xx".to_vec());
}

#[test]
fn render_leaves_unknown_placeholder() {
    let vars = table(&[("k", "x")]);
    assert_eq!(render(&vars, b"@@other@@ @@k@@"), b"@@other@@ x".to_vec());
}

#[test]
fn render_does_not_rescan_values() {
    let vars = table(&[("a", "@@b@@"), ("b", "no")]);
    assert_eq!(render(&vars, b"@@a@@"), b"@@b@@".to_vec());
}

#[test]
fn greeting_template_renders() {
    let vars = table(&[("greeting", "hello")]);
    assert_eq!(render(&vars, b"@@greeting@@, world"), b"hello, world".to_vec());
}

#[test]
fn later_variable_overwrites() {
    let vars = table(&[("k", "one"), ("k", "two")]);
    assert_eq!(vars.get(b"k"), Some(b"two".to_vec()));
    assert_eq!(vars.get(b"missing"), None);
    assert_eq!(render(&vars, b"@@k@@"), b"two".to_vec());
}

#[test]
fn replace_line_reports_change() {
    let vars = table(&[("name", "world"), ("same", "@@same@@")]);
    match replace_line(&vars, b"echo @@name@@") {
        ChangeString::Changed(s) => assert_eq!(s, b"echo world".to_vec()),
        ChangeString::Unchanged => panic!("expected a change"),
    }
    assert!(matches!(replace_line(&vars, b"echo plain"), ChangeString::Unchanged));
    match replace_line(&vars, b"@@same@@") {
        ChangeString::Changed(s) => assert_eq!(s, b"@@same@@".to_vec()),
        ChangeString::Unchanged => panic!("a substitution took place"),
    }
}

#[test]
fn split_words_on_single_spaces() {
    assert_eq!(split_words(b"echo ok"), words(&["echo", "ok"]));
    assert_eq!(split_words(b""), words(&[""]));
    assert_eq!(split_words(b"a  b"), words(&["a", "", "b"]));
}

#[test]
fn command_line_joins_program_and_args() {
    assert_eq!(command_line(b"/bin/echo", &words(&["ok", "x"])), b"/bin/echo ok x".to_vec());
    assert_eq!(command_line(b"/bin/ls", &[]), b"/bin/ls".to_vec());
}

#[test]
fn exit_status_classification() {
    assert_eq!(exit_outcome(Some(0)), Ok(()));
    assert_eq!(exit_outcome(Some(3)), Err(DrtError::NotZeroExit(3)));
    assert_eq!(exit_outcome(None), Err(DrtError::CmdExitedPrematurely));
}

#[test]
fn diff_outcome_classification() {
    assert!(matches!(diff_outcome(true, Some(0), vec![]), DiffStatus::NoChanges));
    match diff_outcome(true, Some(1), b"< a\n> b\n".to_vec()) {
        DiffStatus::Changed(t) => assert_eq!(t, b"< a\n> b\n".to_vec()),
        _ => panic!("expected Changed"),
    }
    assert!(matches!(diff_outcome(true, Some(2), vec![]), DiffStatus::Failed));
    assert!(matches!(diff_outcome(true, Some(7), vec![]), DiffStatus::Failed));
    assert!(matches!(diff_outcome(true, None, vec![]), DiffStatus::Failed));
}

#[test]
fn missing_destination_is_new_file() {
    for code in [Some(0), Some(1), Some(2), None] {
        assert!(matches!(diff_outcome(false, code, b"x".to_vec()), DiffStatus::NewFile));
    }
}

#[test]
fn mode_resolution() {
    assert_eq!(resolve_mode(false, false, false), Mode::Passive);
    assert_eq!(resolve_mode(false, true, false), Mode::Active);
    assert_eq!(resolve_mode(false, false, true), Mode::Active);
    assert_eq!(resolve_mode(true, true, true), Mode::Interactive);
}

#[test]
fn confirm_no_spawns_nothing() {
    let (run, step) = CommandRun::new(Mode::Interactive, b"echo hi".to_vec());
    assert!(matches!(step, CommandStep::Ask));
    let (run, step) = run.step(CommandEvent::Answer('n'));
    match step {
        CommandStep::WouldRun(l) => assert_eq!(l, b"echo hi".to_vec()),
        _ => panic!("expected a would-run report"),
    }
    assert!(matches!(run.state, CommandState::Done));
}

#[test]
fn confirm_yes_spawns_once() {
    let (run, _) = CommandRun::new(Mode::Interactive, b"echo hi".to_vec());
    let (run, step) = run.step(CommandEvent::Answer('y'));
    assert!(matches!(step, CommandStep::Spawn));
    assert_eq!(run.argv, words(&["echo", "hi"]));
    let (run, step) = run.step(CommandEvent::Exited(Some(0)));
    assert!(matches!(step, CommandStep::Finish(Ok(()))));
    assert!(matches!(run.state, CommandState::Done));
}

#[test]
fn confirm_other_answer_asks_again() {
    let (run, _) = CommandRun::new(Mode::Interactive, b"echo hi".to_vec());
    let (run, step) = run.step(CommandEvent::Answer('q'));
    assert!(matches!(step, CommandStep::Ask));
    assert!(matches!(run.state, CommandState::Asking));
    let (_, step) = run.step(CommandEvent::Answer('y'));
    assert!(matches!(step, CommandStep::Spawn));
}

#[test]
fn simulate_echo_reports_resolved_path() {
    let (run, step) = execute(Mode::Passive, b"echo ok");
    assert!(matches!(step, CommandStep::Resolve));
    let (run, step) = run.step(CommandEvent::Resolved(Some(b"/bin/echo".to_vec())));
    match step {
        CommandStep::WouldRun(l) => assert_eq!(l, b"/bin/echo ok".to_vec()),
        _ => panic!("expected a would-run report"),
    }
    assert!(matches!(run.state, CommandState::Done));
}

#[test]
fn simulate_unknown_program_fails() {
    let (run, _) = execute(Mode::Passive, b"nosuchprog a");
    let (_, step) = run.step(CommandEvent::Resolved(None));
    assert!(matches!(step, CommandStep::Finish(Err(DrtError::ExecutableNotFound))));
}

#[test]
fn apply_command_exit_codes() {
    let (run, step) = execute(Mode::Active, b"/bin/false");
    assert!(matches!(step, CommandStep::Spawn));
    let (_, step) = run.step(CommandEvent::Exited(Some(1)));
    assert!(matches!(step, CommandStep::Finish(Err(DrtError::NotZeroExit(1)))));
    let (run, _) = execute(Mode::Active, b"sleep 9");
    let (_, step) = run.step(CommandEvent::Exited(None));
    assert!(matches!(step, CommandStep::Finish(Err(DrtError::CmdExitedPrematurely))));
}

#[test]
fn empty_command_lacks_argument() {
    let (_, step) = execute(Mode::Active, b"");
    assert!(matches!(step, CommandStep::Finish(Err(DrtError::ExpectedArg))));
}

#[test]
fn unexpected_event_ends_action() {
    let (run, _) = execute(Mode::Active, b"ls");
    let (_, step) = run.step(CommandEvent::Answer('y'));
    assert!(matches!(step, CommandStep::Finish(Err(DrtError::UnexpectedEvent))));
}

#[test]
fn execute_inactive_outcomes() {
    assert_eq!(execute_inactive(b"echo ok", Some(b"/bin/echo".to_vec())), Ok(b"/bin/echo ok".to_vec()));
    assert_eq!(execute_inactive(b"", Some(b"/bin/echo".to_vec())), Err(DrtError::ExpectedArg));
    assert_eq!(execute_inactive(b"nope", None), Err(DrtError::ExecutableNotFound));
}

#[test]
fn process_template_file_outcomes() {
    let vars = table(&[("value", "unit_test")]);
    assert_eq!(process_template_file(&vars, Some(b"v=@@value@@".to_vec())), Ok(b"v=unit_test".to_vec()));
    assert_eq!(process_template_file(&vars, None), Err(DrtError::SourceUnreadable));
}

#[test]
fn create_or_diff_by_mode() {
    let (s, step) = create_or_diff(Mode::Active, DiffStatus::NewFile);
    assert!(matches!(s, TemplateState::Installing(DiffStatus::NewFile)));
    assert!(matches!(step, TemplateStep::Install));
    let (s, step) = create_or_diff(Mode::Passive, DiffStatus::NewFile);
    assert!(matches!(s, TemplateState::After(DiffStatus::NewFile)));
    assert!(matches!(step, TemplateStep::Compare));
}

/// Drives a template action against an in-memory destination, comparing as a
/// faithful line-diff tool would.
fn run_template(mode: Mode, vars: &VarTable, template: &[u8], dest: &mut Option<Vec<u8>>)
    -> Result<(DiffStatus, DiffStatus), DrtError> {
    let (mut run, mut step) = TemplateRun::new(mode);
    let mut staged: Vec<u8> = Vec::new();
    loop {
        let event = match step {
            TemplateStep::Load => TemplateEvent::Loaded(Some(template.to_vec())),
            TemplateStep::Stage(bytes) => {
                staged = bytes;
                TemplateEvent::Staged(true)
            }
            TemplateStep::Compare => TemplateEvent::Compared(match dest {
                None => diff_outcome(false, None, vec![]),
                Some(d) if *d == staged => diff_outcome(true, Some(0), vec![]),
                Some(_) => diff_outcome(true, Some(1), b"changed".to_vec()),
            }),
            TemplateStep::Install => {
                *dest = Some(staged.clone());
                TemplateEvent::Installed(true)
            }
            TemplateStep::Finish(r) => return r.map(|rep| (rep.before, rep.after)),
        };
        let (next, s) = run.step(vars, event);
        assert_eq!(next.mode, mode);
        run = next;
        step = s;
    }
}

#[test]
fn apply_greeting_end_to_end() {
    let mut vars = VarTable::new();
    let (a, _) = parse_action(&words(&["v", "greeting", "hello"]), 0);
    assert!(matches!(do_action(Mode::Active, &mut vars, a.unwrap()), Dispatch::Done(Ok(()))));
    let mut dest = None;
    let (before, after) = run_template(Mode::Active, &vars, b"@@greeting@@, world", &mut dest).unwrap();
    assert!(matches!(before, DiffStatus::NewFile));
    assert!(matches!(after, DiffStatus::NoChanges));
    assert_eq!(dest, Some(b"hello, world".to_vec()));
}

#[test]
fn apply_twice_converges() {
    let vars = table(&[("k", "new")]);
    let mut dest = Some(b"old".to_vec());
    let (before, _) = run_template(Mode::Active, &vars, b"@@k@@", &mut dest).unwrap();
    assert!(matches!(before, DiffStatus::Changed(_)));
    let (before, after) = run_template(Mode::Active, &vars, b"@@k@@", &mut dest).unwrap();
    assert!(matches!(before, DiffStatus::NoChanges));
    assert!(matches!(after, DiffStatus::NoChanges));
    assert_eq!(dest, Some(b"new".to_vec()));
}

#[test]
fn simulate_leaves_destination() {
    let vars = table(&[("k", "new")]);
    let mut dest = Some(b"old".to_vec());
    for _ in 0..3 {
        let (before, after) = run_template(Mode::Passive, &vars, b"@@k@@", &mut dest).unwrap();
        assert!(matches!(before, DiffStatus::Changed(_)));
        assert!(matches!(after, DiffStatus::Changed(_)));
    }
    let (_, _) = run_template(Mode::Interactive, &vars, b"@@k@@", &mut dest).unwrap();
    assert_eq!(dest, Some(b"old".to_vec()));
}

#[test]
fn unreadable_template_fails() {
    let vars = VarTable::new();
    let (run, _) = TemplateRun::new(Mode::Active);
    let (_, step) = run.step(&vars, TemplateEvent::Loaded(None));
    assert!(matches!(step, TemplateStep::Finish(Err(DrtError::SourceUnreadable))));
}

#[test]
fn failed_comparison_fails_template() {
    let vars = VarTable::new();
    let (run, _) = TemplateRun::new(Mode::Passive);
    let (run, _) = run.step(&vars, TemplateEvent::Loaded(Some(b"x".to_vec())));
    let (run, _) = run.step(&vars, TemplateEvent::Staged(true));
    let (run, _) = run.step(&vars, TemplateEvent::Compared(DiffStatus::Failed));
    let (_, step) = run.step(&vars, TemplateEvent::Compared(DiffStatus::Failed));
    assert!(matches!(step, TemplateStep::Finish(Err(DrtError::ComparisonFailed))));
}

#[test]
fn failed_install_fails_template() {
    let vars = VarTable::new();
    let (run, _) = TemplateRun::new(Mode::Active);
    let (run, _) = run.step(&vars, TemplateEvent::Loaded(Some(b"x".to_vec())));
    let (run, _) = run.step(&vars, TemplateEvent::Staged(true));
    let (run, step) = run.step(&vars, TemplateEvent::Compared(DiffStatus::NewFile));
    assert!(matches!(step, TemplateStep::Install));
    let (_, step) = run.step(&vars, TemplateEvent::Installed(false));
    assert!(matches!(step, TemplateStep::Finish(Err(DrtError::WriteFailed))));
}

#[test]
fn parse_actions_from_tokens() {
    let toks = words(&["t", "in.tmpl", "out.txt", "x", "echo", "a", "b"]);
    let (a, next) = parse_action(&toks, 0);
    assert_eq!(next, 3);
    match a {
        Ok(Action::Template(s, d)) => {
            assert_eq!(s, b"in.tmpl".to_vec());
            assert_eq!(d, b"out.txt".to_vec());
        }
        _ => panic!("expected Template"),
    }
    let (a, next) = parse_action(&toks, 3);
    assert_eq!(next, 7);
    match a {
        Ok(Action::Execute(c)) => assert_eq!(c, b"echo a b".to_vec()),
        _ => panic!("expected Execute"),
    }
}

#[test]
fn parse_action_errors() {
    let (a, next) = parse_action(&words(&["v", "key"]), 0);
    assert_eq!(next, 2);
    assert!(matches!(a, Err(DrtError::ExpectedArg)));
    let (a, next) = parse_action(&words(&["t", "only"]), 0);
    assert_eq!(next, 2);
    assert!(matches!(a, Err(DrtError::ExpectedArg)));
    let (a, next) = parse_action(&words(&["bogus", "v"]), 0);
    assert_eq!(next, 1);
    assert!(matches!(a, Ok(Action::Error)));
}

#[test]
fn do_action_renders_command_line() {
    let mut vars = table(&[("who", "world")]);
    match do_action(Mode::Passive, &mut vars, Action::Execute(b"echo @@who@@".to_vec())) {
        Dispatch::Command(run, step) => {
            assert_eq!(run.line, b"echo world".to_vec());
            assert_eq!(run.argv, words(&["echo", "world"]));
            assert!(matches!(step, CommandStep::Resolve));
        }
        _ => panic!("expected a command"),
    }
    assert!(matches!(do_action(Mode::Passive, &mut vars, Action::Error), Dispatch::Done(Err(DrtError::InvalidInput))));
    assert!(matches!(do_action(Mode::Passive, &mut vars, Action::NoOp), Dispatch::Done(Ok(()))));
    match do_action(Mode::Active, &mut vars, Action::Template(b"a".to_vec(), b"b".to_vec())) {
        Dispatch::Template(run, step, s, d) => {
            assert_eq!(run.mode, Mode::Active);
            assert!(matches!(step, TemplateStep::Load));
            assert_eq!((s, d), (b"a".to_vec(), b"b".to_vec()));
        }
        _ => panic!("expected a template"),
    }
}
