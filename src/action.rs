use vstd::prelude::*;
use vstd::string::StringSliceAdditionalSpecFns;
use crate::command::{CommandRun, CommandStep, SPACE, command_first, split_spec};
use crate::engine::{DrtError, Mode, TemplateRun, TemplateStep};
use crate::template::{
    ChangeString,
    VarTable,
    append_bytes,
    copy_bytes,
    join_with,
    render_spec,
    replace_line,
    views,
};

verus! {

/// The tag that opens an action on the command line.
#[derive(Clone, Copy, PartialEq, Eq, Structural, Debug)]
pub enum Type {
    /// `t source destination`
    Template,
    /// `x command arg...`
    Execute,
    /// `v key value`
    Variable,
    Unknown,
}

/// The type a tag names: `t`, `x` and `v`; anything else is unknown.
pub open spec fn type_of(tag: Seq<u8>) -> Type {
    if tag == seq![0x74u8] {
        Type::Template
    } else if tag == seq![0x78u8] {
        Type::Execute
    } else if tag == seq![0x76u8] {
        Type::Variable
    } else {
        Type::Unknown
    }
}

fn type_of_bytes(tag: &[u8]) -> (r: Type)
    ensures
        r == type_of(tag@),
{
    if tag.len() != 1 {
        proof {
            assert(tag@.len() != seq![0x74u8].len());
            assert(tag@.len() != seq![0x78u8].len());
            assert(tag@.len() != seq![0x76u8].len());
        }
        return Type::Unknown;
    }
    let c = tag[0];
    proof {
        assert(tag@ =~= seq![c]);
    }
    if c == 0x74 {
        Type::Template
    } else if c == 0x78 {
        Type::Execute
    } else if c == 0x76 {
        Type::Variable
    } else {
        proof {
            assert(seq![c][0] != seq![0x74u8][0]);
            assert(seq![c][0] != seq![0x78u8][0]);
            assert(seq![c][0] != seq![0x76u8][0]);
        }
        Type::Unknown
    }
}

/// The type of an action's tag.
pub fn parse_type(input: &str) -> (r: Type)
    ensures
        r == type_of(input.spec_bytes()),
{
    type_of_bytes(input.as_bytes())
}

/// One unit of work.
pub enum Action {
    /// Render the template at the first path onto the second.
    Template(Vec<u8>, Vec<u8>),
    /// Run a command line.
    Execute(Vec<u8>),
    /// Set a variable of the table.
    SetVariable(Vec<u8>, Vec<u8>),
    /// An action that could not be understood.
    Error,
    /// Nothing to do.
    NoOp,
}

/// Reads the action whose tag is at `pos`, and says where the next one
/// starts. `t` and `v` take the two tokens after them, and lack an argument
/// where fewer are left; `x` takes every token left, joined by single spaces;
/// an unknown tag is an action that could not be understood.
pub fn parse_action(tokens: &[Vec<u8>], pos: usize) -> (r: (Result<Action, DrtError>, usize))
    requires
        pos < tokens@.len(),
    ensures
        pos < r.1 <= tokens@.len(),
        ({
            let ts = views(tokens@);
            let n = ts.len();
            match type_of(ts[pos as int]) {
                Type::Template => if n - pos > 2 {
                    r.1 == pos + 3 && r.0 is Ok && r.0->Ok_0 is Template
                        && r.0->Ok_0->Template_0@ == ts[pos + 1]
                        && r.0->Ok_0->Template_1@ == ts[pos + 2]
                } else {
                    r.1 == n && r.0 == Err::<Action, DrtError>(DrtError::ExpectedArg)
                },
                Type::Variable => if n - pos > 2 {
                    r.1 == pos + 3 && r.0 is Ok && r.0->Ok_0 is SetVariable
                        && r.0->Ok_0->SetVariable_0@ == ts[pos + 1]
                        && r.0->Ok_0->SetVariable_1@ == ts[pos + 2]
                } else {
                    r.1 == n && r.0 == Err::<Action, DrtError>(DrtError::ExpectedArg)
                },
                Type::Execute => r.1 == n && r.0 is Ok && r.0->Ok_0 is Execute
                    && r.0->Ok_0->Execute_0@ == join_with(ts.subrange(pos + 1, n as int), seq![SPACE]),
                Type::Unknown => r.1 == pos + 1 && r.0 is Ok && r.0->Ok_0 is Error,
            }
        }),
{
    let n = tokens.len();
    match type_of_bytes(tokens[pos].as_slice()) {
        Type::Template => if n - pos > 2 {
            let src = copy_bytes(tokens[pos + 1].as_slice());
            let dst = copy_bytes(tokens[pos + 2].as_slice());
            (Ok(Action::Template(src, dst)), pos + 3)
        } else {
            (Err(DrtError::ExpectedArg), n)
        },
        Type::Variable => if n - pos > 2 {
            let k = copy_bytes(tokens[pos + 1].as_slice());
            let v = copy_bytes(tokens[pos + 2].as_slice());
            (Ok(Action::SetVariable(k, v)), pos + 3)
        } else {
            (Err(DrtError::ExpectedArg), n)
        },
        Type::Execute => {
            let ghost ts = views(tokens@);
            let mut cmd: Vec<u8> = Vec::new();
            let mut i: usize = pos + 1;
            assert(ts.subrange(pos + 1, i as int) =~= Seq::<Seq<u8>>::empty());
            while i < n
                invariant
                    ts == views(tokens@),
                    n == tokens@.len(),
                    pos < i <= n,
                    cmd@ == join_with(ts.subrange(pos + 1, i as int), seq![SPACE]),
                decreases n - i,
            {
                let ghost before = ts.subrange(pos + 1, i as int);
                if i > pos + 1 {
                    cmd.push(SPACE);
                }
                append_bytes(&mut cmd, tokens[i].as_slice());
                proof {
                    crate::command::lemma_join_push(before, ts[i as int], seq![SPACE]);
                    assert(ts.subrange(pos + 1, i + 1) =~= before.push(ts[i as int]));
                    if i > pos + 1 {
                        assert(cmd@ =~= join_with(before, seq![SPACE]) + seq![SPACE] + ts[i as int]);
                    } else {
                        assert(cmd@ =~= ts[i as int]);
                    }
                }
                i = i + 1;
            }
            (Ok(Action::Execute(cmd)), n)
        },
        Type::Unknown => (Ok(Action::Error), pos + 1),
    }
}

/// Where an action goes once dispatched.
pub enum Dispatch {
    /// The action is over.
    Done(Result<(), DrtError>),
    /// A template action from the first path onto the second has started.
    Template(TemplateRun, TemplateStep, Vec<u8>, Vec<u8>),
    /// A command action has started.
    Command(CommandRun, CommandStep),
}

/// Dispatches one action under `mode`. A variable is set at once; a command
/// line has its placeholders rendered before its action starts; a template
/// action starts with the mode it runs under; an action that could not be
/// understood is invalid input.
pub fn do_action(mode: Mode, vars: &mut VarTable, action: Action) -> (r: Dispatch)
    requires
        old(vars).wf(),
    ensures
        final(vars).wf(),
        match action {
            Action::SetVariable(k, v) => final(vars)@ == old(vars)@.insert(k@, v@) && r
                == Dispatch::Done(Ok(())),
            _ => final(vars)@ == old(vars)@,
        },
        match action {
            Action::Template(src, dst) => r is Template && r->Template_0.mode == mode
                && r->Template_0.state is Loading && r->Template_1 is Load && r->Template_2@
                == src@ && r->Template_3@ == dst@,
            Action::Execute(cmd) => r is Command && r->Command_0.wf() && r->Command_0.mode == mode
                && r->Command_0.line@ == render_spec(old(vars)@, cmd@) && views(r->Command_0.argv@)
                == split_spec(render_spec(old(vars)@, cmd@)) && command_first(
                mode,
                views(r->Command_0.argv@),
                r->Command_0.state,
                r->Command_1,
            ),
            Action::SetVariable(_, _) => true,
            Action::Error => r == Dispatch::Done(Err(DrtError::InvalidInput)),
            Action::NoOp => r == Dispatch::Done(Ok(())),
        },
{
    match action {
        Action::Template(src, dst) => {
            let (run, step) = TemplateRun::new(mode);
            Dispatch::Template(run, step, src, dst)
        },
        Action::Execute(cmd) => {
            let line = match replace_line(vars, cmd.as_slice()) {
                ChangeString::Changed(new_cmd) => new_cmd,
                ChangeString::Unchanged => cmd,
            };
            let (run, step) = CommandRun::new(mode, line);
            Dispatch::Command(run, step)
        },
        Action::SetVariable(k, v) => {
            vars.insert(k.as_slice(), v.as_slice());
            Dispatch::Done(Ok(()))
        },
        Action::Error => Dispatch::Done(Err(DrtError::InvalidInput)),
        Action::NoOp => Dispatch::Done(Ok(())),
    }
}

} // verus!
