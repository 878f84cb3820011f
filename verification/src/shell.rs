//! The shell engine: the session state (working directory, history,
//! tracked process ids) and the dispatch of parsed commands against it.
//!
//! Dispatch itself performs no I/O. Every outside action it decides on —
//! printing a line, spawning a program, signalling a process, exiting —
//! comes back to the caller as an `Effect`, in the order the actions are
//! to be performed. The caller carries the effects out and reports each
//! spawned process id back through `track_pid`.

use vstd::prelude::*;

use crate::num::{i32_numeral_val, is_i32_numeral, is_u32_numeral, u32_numeral_val};
use crate::num::{parse_i32, parse_u32};
use crate::parse::{fn_of_name, str_eq, CommandModel, ShellCommand, ShellFunction};

verus! {

/// One outside action the dispatcher asks its caller to perform.
#[derive(Debug)]
pub enum Effect {
    /// Write this line to the output.
    Print(String),
    /// Spawn this program with these arguments, wait for it to exit, and
    /// report its process id through `track_pid`.
    StartWait(String, Vec<String>),
    /// Spawn this program with these arguments without waiting, report
    /// its process id through `track_pid`, and print that id.
    StartBackground(String, Vec<String>),
    /// Send a forceful termination signal to this process id.
    Kill(i32),
    /// Terminate the whole process with success status.
    Exit,
}

/// The mathematical image of an `Effect`.
pub ghost enum EffectModel {
    Print(Seq<char>),
    StartWait(Seq<char>, Seq<Seq<char>>),
    StartBackground(Seq<char>, Seq<Seq<char>>),
    Kill(i32),
    Exit,
}

impl View for Effect {
    type V = EffectModel;

    open spec fn view(&self) -> EffectModel {
        match self {
            Effect::Print(s) => EffectModel::Print(s@),
            Effect::StartWait(p, a) => EffectModel::StartWait(p@, a.deep_view()),
            Effect::StartBackground(p, a) => EffectModel::StartBackground(p@, a.deep_view()),
            Effect::Kill(pid) => EffectModel::Kill(*pid),
            Effect::Exit => EffectModel::Exit,
        }
    }
}

/// The images of a list of effects.
pub open spec fn effects_model(es: Seq<Effect>) -> Seq<EffectModel> {
    es.map_values(|e: Effect| e@)
}

/// The session state: working directory, command history, and the ids of
/// the processes this session has spawned.
#[derive(Debug)]
pub struct Shell {
    pub directory: String,
    pub history: Vec<String>,
    pub pids: Vec<i32>,
}

/// The mathematical image of a `Shell`.
#[verifier::ext_equal]
pub ghost struct ShellModel {
    pub directory: Seq<char>,
    pub history: Seq<Seq<char>>,
    pub pids: Seq<i32>,
}

impl View for Shell {
    type V = ShellModel;

    open spec fn view(&self) -> ShellModel {
        ShellModel {
            directory: self.directory@,
            history: self.history.deep_view(),
            pids: self.pids@,
        }
    }
}

/// Joining a target path onto a base: an absolute target replaces the
/// base, a relative one is appended behind a separator (none is added if
/// the base already ends in one or is empty).
pub open spec fn path_join(base: Seq<char>, target: Seq<char>) -> Seq<char> {
    if target.len() > 0 && target[0] == '/' {
        target
    } else if base.len() == 0 {
        target
    } else if base.last() == '/' {
        base + target
    } else {
        base + "/"@ + target
    }
}

/// The notice printed for an unrecognized command.
pub open spec fn msg_not_implemented() -> Seq<char> {
    "Command not implemented yet."@
}

/// The confirmation printed when the history is cleared.
pub open spec fn msg_clearing_history() -> Seq<char> {
    "Clearing history..."@
}

/// The usage error for a repeat without count or sub-command.
pub open spec fn msg_bad_repeat() -> Seq<char> {
    "Incorrect use of repeat."@
}

/// The usage error for a command that is missing a required argument.
pub open spec fn msg_argument_required(name: Seq<char>) -> Seq<char> {
    "Argument required for "@ + name
}

/// The parse error for a process id that is not an integer.
pub open spec fn msg_bad_pid(arg: Seq<char>) -> Seq<char> {
    "Invalid process id: "@ + arg
}

/// The parse error for a repeat count that is not an unsigned integer.
pub open spec fn msg_bad_count(arg: Seq<char>) -> Seq<char> {
    "Invalid repeat count: "@ + arg
}

/// History recording: a non-empty raw line is appended before the
/// operation takes effect; an empty one leaves the state alone.
pub open spec fn record(m: ShellModel, raw: Seq<char>) -> ShellModel {
    if raw.len() > 0 {
        ShellModel { directory: m.directory, history: m.history.push(raw), pids: m.pids }
    } else {
        m
    }
}

/// The command Repeat synthesizes from its arguments: the second
/// argument names the operation, the rest are its arguments.
pub open spec fn sub_command(c: CommandModel) -> CommandModel {
    CommandModel { function: fn_of_name(c.args[1]), name: c.args[1], args: c.args.skip(2) }
}

/// The effect of one operation on the session, after history recording:
/// the new state and the outside actions, in order.
pub open spec fn op_step(m: ShellModel, c: CommandModel) -> (ShellModel, Seq<EffectModel>)
    decreases c.args.len(), 0nat,
{
    match c.function {
        ShellFunction::WhereAmI => (m, seq![EffectModel::Print(m.directory)]),
        ShellFunction::MoveToDir => if c.args.len() >= 1 {
            (
                ShellModel {
                    directory: path_join(m.directory, c.args[0]),
                    history: m.history,
                    pids: m.pids,
                },
                Seq::empty(),
            )
        } else {
            (m, seq![EffectModel::Print(msg_argument_required(c.name))])
        },
        ShellFunction::ByeBye => (m, seq![EffectModel::Exit]),
        ShellFunction::History => if c.args.len() == 0 {
            (m, m.history.map_values(|l: Seq<char>| EffectModel::Print(l)))
        } else if c.args[0] == "-c"@ {
            (
                ShellModel { directory: m.directory, history: Seq::empty(), pids: m.pids },
                seq![EffectModel::Print(msg_clearing_history())],
            )
        } else {
            (m, Seq::empty())
        },
        ShellFunction::Start => if c.args.len() >= 1 {
            (m, seq![EffectModel::StartWait(c.args[0], c.args.drop_first())])
        } else {
            (m, Seq::empty())
        },
        ShellFunction::Background => if c.args.len() >= 1 {
            (m, seq![EffectModel::StartBackground(c.args[0], c.args.drop_first())])
        } else {
            (m, Seq::empty())
        },
        ShellFunction::Exterminate => if c.args.len() >= 1 {
            if is_i32_numeral(c.args[0]) {
                (m, seq![EffectModel::Kill(i32_numeral_val(c.args[0]) as i32)])
            } else {
                (m, seq![EffectModel::Print(msg_bad_pid(c.args[0]))])
            }
        } else {
            (m, seq![EffectModel::Print(msg_argument_required(c.name))])
        },
        ShellFunction::ExterminateAll => (
            ShellModel { directory: m.directory, history: m.history, pids: Seq::empty() },
            m.pids.map_values(|p: i32| EffectModel::Kill(p)),
        ),
        ShellFunction::Repeat => if c.args.len() >= 2 {
            if is_u32_numeral(c.args[0]) {
                run_times(m, u32_numeral_val(c.args[0]), sub_command(c))
            } else {
                (m, seq![EffectModel::Print(msg_bad_count(c.args[0]))])
            }
        } else {
            (m, seq![EffectModel::Print(msg_bad_repeat())])
        },
        ShellFunction::UnknownFunction => (m, seq![EffectModel::Print(msg_not_implemented())]),
        ShellFunction::NoFunction => (m, Seq::empty()),
    }
}

/// Dispatching the synthesized sub-command `k` times in sequence, each
/// time recording its name as the raw line.
pub open spec fn run_times(m: ShellModel, k: nat, sub: CommandModel) -> (
    ShellModel,
    Seq<EffectModel>,
)
    decreases sub.args.len() + 1, k,
{
    if k == 0 {
        (m, Seq::empty())
    } else {
        let first = step(m, sub, sub.name);
        let rest = run_times(first.0, (k - 1) as nat, sub);
        (rest.0, first.1 + rest.1)
    }
}

/// One full dispatch: record the raw line, then apply the operation.
pub open spec fn step(m: ShellModel, c: CommandModel, raw: Seq<char>) -> (
    ShellModel,
    Seq<EffectModel>,
)
    decreases c.args.len(), 1nat,
{
    op_step(record(m, raw), c)
}

/// The images of two effect lists concatenate.
proof fn lemma_effects_model_concat(a: Seq<Effect>, b: Seq<Effect>)
    ensures
        effects_model(a + b) == effects_model(a) + effects_model(b),
{
    assert(effects_model(a + b) =~= effects_model(a) + effects_model(b));
}

/// Builds the usage error for a command missing a required argument.
fn usage_message(name: &String) -> (out: String)
    ensures
        out@ == msg_argument_required(name@),
{
    String::from_str("Argument required for ").concat(name.as_str())
}

/// Copies the arguments from position `from` on.
fn args_tail(args: &Vec<String>, from: usize) -> (out: Vec<String>)
    requires
        from <= args@.len(),
    ensures
        out.deep_view() == args.deep_view().skip(from as int),
{
    let mut out: Vec<String> = Vec::new();
    let mut j: usize = from;
    while j < args.len()
        invariant
            from <= j <= args@.len(),
            out.deep_view() =~= args.deep_view().subrange(from as int, j as int),
        decreases args@.len() - j,
    {
        let a = &args[j];
        let ghost prev = out.deep_view();
        let cloned = a.clone();
        proof {
            assert(cloned@ == args@[j as int]@);
            assert(args.deep_view()[j as int] == args@[j as int].deep_view());
        }
        out.push(cloned);
        proof {
            assert(out.deep_view() =~= prev.push(args@[j as int]@));
            assert(out.deep_view() =~= args.deep_view().subrange(from as int, j + 1));
        }
        j += 1;
    }
    proof {
        assert(args.deep_view().subrange(from as int, args@.len() as int) =~= args.deep_view().skip(
            from as int,
        ));
    }
    out
}

impl Shell {
    /// A fresh session in the given working directory, with empty
    /// history and no tracked processes.
    pub fn new(directory: String) -> (s: Shell)
        ensures
            s@.directory == directory@,
            s@.history == Seq::<Seq<char>>::empty(),
            s@.pids == Seq::<i32>::empty(),
    {
        let s = Shell { directory, history: Vec::new(), pids: Vec::new() };
        proof {
            assert(s.history.deep_view() =~= Seq::<Seq<char>>::empty());
        }
        s
    }

    /// Joins the target onto the current directory: an absolute target
    /// replaces it, a relative one is appended.
    pub fn move_to_dir(&mut self, target_dir: &str)
        ensures
            final(self)@.directory == path_join(old(self)@.directory, target_dir@),
            final(self)@.history == old(self)@.history,
            final(self)@.pids == old(self)@.pids,
    {
        let n = target_dir.unicode_len();
        if n > 0 && target_dir.get_char(0) == '/' {
            self.directory = String::from_str(target_dir);
        } else {
            let base_len = self.directory.as_str().unicode_len();
            if base_len == 0 {
                self.directory = String::from_str(target_dir);
            } else if self.directory.as_str().get_char(base_len - 1) == '/' {
                self.directory.append(target_dir);
            } else {
                self.directory.append("/");
                self.directory.append(target_dir);
            }
        }
    }

    /// The line the `whereami` operation prints: the current directory.
    pub fn where_am_i(&self) -> (out: String)
        ensures
            out@ == self@.directory,
    {
        self.directory.clone()
    }

    /// Appends one raw input line to the history.
    pub fn add_to_history(&mut self, input: &str)
        ensures
            final(self)@.directory == old(self)@.directory,
            final(self)@.history == old(self)@.history.push(input@),
            final(self)@.pids == old(self)@.pids,
    {
        let ghost old_dv = self.history.deep_view();
        self.history.push(String::from_str(input));
        proof {
            assert(self.history.deep_view() =~= old_dv.push(input@));
        }
    }

    /// The lines the bare `history` operation prints: every recorded
    /// line, oldest first.
    pub fn print_history(&self) -> (lines: Vec<String>)
        ensures
            lines.deep_view() == self@.history,
    {
        let mut lines: Vec<String> = Vec::new();
        let mut i: usize = 0;
        while i < self.history.len()
            invariant
                i <= self.history@.len(),
                lines.deep_view() =~= self.history.deep_view().subrange(0, i as int),
            decreases self.history@.len() - i,
        {
            let line = &self.history[i];
            let ghost prev = lines.deep_view();
            let cloned = line.clone();
            proof {
                assert(cloned@ == self.history@[i as int]@);
                assert(self.history.deep_view()[i as int] == self.history@[i as int].deep_view());
            }
            lines.push(cloned);
            proof {
                assert(lines.deep_view() =~= prev.push(self.history@[i as int]@));
                assert(lines.deep_view() =~= self.history.deep_view().subrange(0, i + 1));
            }
            i += 1;
        }
        proof {
            assert(self.history.deep_view().subrange(0, self.history@.len() as int)
                =~= self.history.deep_view());
        }
        lines
    }

    /// Records the id of a process this session has spawned.
    pub fn track_pid(&mut self, pid: i32)
        ensures
            final(self)@.directory == old(self)@.directory,
            final(self)@.history == old(self)@.history,
            final(self)@.pids == old(self)@.pids.push(pid),
    {
        self.pids.push(pid);
    }

    /// Asks for every tracked process to be terminated, then forgets
    /// them all.
    pub fn exterminate_all(&mut self) -> (effects: Vec<Effect>)
        ensures
            final(self)@.directory == old(self)@.directory,
            final(self)@.history == old(self)@.history,
            final(self)@.pids == Seq::<i32>::empty(),
            effects_model(effects@) == old(self)@.pids.map_values(|p: i32| EffectModel::Kill(p)),
    {
        let mut effects: Vec<Effect> = Vec::new();
        let mut i: usize = 0;
        while i < self.pids.len()
            invariant
                i <= self.pids@.len(),
                self.pids@ == old(self).pids@,
                self.directory == old(self).directory,
                self.history == old(self).history,
                effects_model(effects@) =~= self.pids@.subrange(0, i as int).map_values(
                    |p: i32| EffectModel::Kill(p),
                ),
            decreases self.pids@.len() - i,
        {
            let pid = self.pids[i];
            let ghost prev = effects_model(effects@);
            effects.push(Effect::Kill(pid));
            proof {
                assert(effects_model(effects@) =~= prev.push(EffectModel::Kill(pid)));
                assert(effects_model(effects@) =~= self.pids@.subrange(0, i + 1).map_values(
                    |p: i32| EffectModel::Kill(p),
                ));
            }
            i += 1;
        }
        self.pids.clear();
        proof {
            assert(old(self).pids@.subrange(0, old(self).pids@.len() as int) =~= old(self).pids@);
        }
        effects
    }
}

/// Running the sub-command once more runs it after the first `k` times.
proof fn lemma_run_times_unroll_last(m: ShellModel, k: nat, sub: CommandModel)
    ensures
        run_times(m, k + 1, sub).0 == step(run_times(m, k, sub).0, sub, sub.name).0,
        run_times(m, k + 1, sub).1 == run_times(m, k, sub).1 + step(
            run_times(m, k, sub).0,
            sub,
            sub.name,
        ).1,
    decreases k,
{
    reveal_with_fuel(run_times, 3);
    let first = step(m, sub, sub.name);
    if k == 0 {
        assert(Seq::<EffectModel>::empty() + first.1 =~= first.1);
        assert(first.1 + Seq::<EffectModel>::empty() =~= first.1);
    } else {
        lemma_run_times_unroll_last(first.0, (k - 1) as nat, sub);
        let mid = run_times(first.0, (k - 1) as nat, sub);
        let last = step(mid.0, sub, sub.name);
        assert(first.1 + (mid.1 + last.1) =~= (first.1 + mid.1) + last.1);
    }
}

/// Builds the parse error for a token that is not a process id.
fn bad_pid_message(arg: &String) -> (out: String)
    ensures
        out@ == msg_bad_pid(arg@),
{
    String::from_str("Invalid process id: ").concat(arg.as_str())
}

/// Builds the parse error for a token that is not a repeat count.
fn bad_count_message(arg: &String) -> (out: String)
    ensures
        out@ == msg_bad_count(arg@),
{
    String::from_str("Invalid repeat count: ").concat(arg.as_str())
}

impl Shell {
    /// Dispatches one parsed command against the session: records the
    /// raw line in the history if it is non-empty, applies the
    /// operation, and returns the outside actions to perform, in order.
    /// `repeat` resolves its second argument through the operation table
    /// and dispatches the synthesized command count times, recording the
    /// sub-command name each time; nested repeats recurse the same way.
    /// No input makes this function fail: malformed arguments come back
    /// as `Print` effects reporting the error.
    #[verifier::loop_isolation(false)]
    pub fn run_command(&mut self, command: ShellCommand, input: &str) -> (effects: Vec<Effect>)
        ensures
            final(self)@ == step(old(self)@, command@, input@).0,
            effects_model(effects@) == step(old(self)@, command@, input@).1,
        decreases command.args.len(),
    {
        let ghost m0 = self@;
        let ghost c = command@;
        if !input.is_empty() {
            self.add_to_history(input);
        }
        let ghost m1 = record(m0, input@);
        proof {
            assert(self@ =~= m1);
            assert(c.args.len() == command.args@.len());
        }
        let mut effects: Vec<Effect> = Vec::new();
        proof {
            assert(effects_model(effects@) =~= Seq::<EffectModel>::empty());
        }
        match command.function {
            ShellFunction::WhereAmI => {
                effects.push(Effect::Print(self.where_am_i()));
                proof {
                    assert(effects_model(effects@) =~= seq![EffectModel::Print(m1.directory)]);
                }
            },
            ShellFunction::MoveToDir => {
                if command.args.len() >= 1 {
                    let target = &command.args[0];
                    proof {
                        assert(c.args[0] == command.args@[0]@);
                    }
                    self.move_to_dir(target.as_str());
                    proof {
                        assert(self@ =~= op_step(m1, c).0);
                    }
                } else {
                    effects.push(Effect::Print(usage_message(&command.name)));
                    proof {
                        assert(effects_model(effects@) =~= seq![
                            EffectModel::Print(msg_argument_required(c.name)),
                        ]);
                    }
                }
            },
            ShellFunction::ByeBye => {
                effects.push(Effect::Exit);
                proof {
                    assert(effects_model(effects@) =~= seq![EffectModel::Exit]);
                }
            },
            ShellFunction::History => {
                if command.args.len() == 0 {
                    let lines = self.print_history();
                    let n = lines.len();
                    let mut i: usize = 0;
                    while i < n
                        invariant
                            i <= n,
                            n == lines@.len(),
                            effects_model(effects@) =~= lines.deep_view().subrange(
                                0,
                                i as int,
                            ).map_values(|l: Seq<char>| EffectModel::Print(l)),
                        decreases n - i,
                    {
                        let line = &lines[i];
                        let ghost prev = effects_model(effects@);
                        effects.push(Effect::Print(line.clone()));
                        proof {
                            assert(effects_model(effects@) =~= prev.push(
                                EffectModel::Print(lines@[i as int]@),
                            ));
                            assert(effects_model(effects@) =~= lines.deep_view().subrange(
                                0,
                                i + 1,
                            ).map_values(|l: Seq<char>| EffectModel::Print(l)));
                        }
                        i += 1;
                    }
                    proof {
                        assert(lines.deep_view().subrange(0, n as int) =~= m1.history);
                        assert(effects_model(effects@) =~= m1.history.map_values(
                            |l: Seq<char>| EffectModel::Print(l),
                        ));
                    }
                } else {
                    proof {
                        assert(c.args[0] == command.args@[0]@);
                    }
                    if str_eq(command.args[0].as_str(), "-c") {
                        effects.push(Effect::Print(String::from_str("Clearing history...")));
                        self.history.clear();
                        proof {
                            assert(self.history.deep_view() =~= Seq::<Seq<char>>::empty());
                            assert(self@ =~= op_step(m1, c).0);
                            assert(effects_model(effects@) =~= seq![
                                EffectModel::Print(msg_clearing_history()),
                            ]);
                        }
                    }
                }
            },
            ShellFunction::Start => {
                if command.args.len() >= 1 {
                    let program = {
                        let a = &command.args[0];
                        a.clone()
                    };
                    let rest = args_tail(&command.args, 1);
                    proof {
                        assert(c.args[0] == command.args@[0]@);
                        assert(c.args.drop_first() =~= c.args.skip(1));
                    }
                    effects.push(Effect::StartWait(program, rest));
                    proof {
                        assert(effects_model(effects@) =~= seq![
                            EffectModel::StartWait(c.args[0], c.args.drop_first()),
                        ]);
                    }
                }
            },
            ShellFunction::Background => {
                if command.args.len() >= 1 {
                    let program = {
                        let a = &command.args[0];
                        a.clone()
                    };
                    let rest = args_tail(&command.args, 1);
                    proof {
                        assert(c.args[0] == command.args@[0]@);
                        assert(c.args.drop_first() =~= c.args.skip(1));
                    }
                    effects.push(Effect::StartBackground(program, rest));
                    proof {
                        assert(effects_model(effects@) =~= seq![
                            EffectModel::StartBackground(c.args[0], c.args.drop_first()),
                        ]);
                    }
                }
            },
            ShellFunction::Exterminate => {
                if command.args.len() >= 1 {
                    proof {
                        assert(c.args[0] == command.args@[0]@);
                    }
                    match parse_i32(command.args[0].as_str()) {
                        Option::Some(pid) => {
                            effects.push(Effect::Kill(pid));
                            proof {
                                assert(pid == i32_numeral_val(c.args[0]) as i32);
                                assert(effects_model(effects@) =~= seq![
                                    EffectModel::Kill(i32_numeral_val(c.args[0]) as i32),
                                ]);
                            }
                        },
                        Option::None => {
                            effects.push(Effect::Print(bad_pid_message(&command.args[0])));
                            proof {
                                assert(effects_model(effects@) =~= seq![
                                    EffectModel::Print(msg_bad_pid(c.args[0])),
                                ]);
                            }
                        },
                    }
                } else {
                    effects.push(Effect::Print(usage_message(&command.name)));
                    proof {
                        assert(effects_model(effects@) =~= seq![
                            EffectModel::Print(msg_argument_required(c.name)),
                        ]);
                    }
                }
            },
            ShellFunction::ExterminateAll => {
                let mut killed = self.exterminate_all();
                let ghost killed_view = killed@;
                effects.append(&mut killed);
                proof {
                    lemma_effects_model_concat(Seq::<Effect>::empty(), killed_view);
                    assert(Seq::<Effect>::empty() + killed_view =~= killed_view);
                    assert(effects@ == killed_view);
                    assert(self@ =~= op_step(m1, c).0);
                }
            },
            ShellFunction::Repeat => {
                if command.args.len() >= 2 {
                    proof {
                        assert(c.args[0] == command.args@[0]@);
                        assert(c.args[1] == command.args@[1]@);
                    }
                    match parse_u32(command.args[0].as_str()) {
                        Option::Some(k) => {
                            let name = {
                                let a = &command.args[1];
                                a.clone()
                            };
                            let function = ShellCommand::str_to_function(name.as_str());
                            let new_args = args_tail(&command.args, 2);
                            let ghost sub = sub_command(c);
                            proof {
                                assert(sub.name == name@);
                                assert(sub.function == function);
                                assert(sub.args == new_args.deep_view());
                                assert(new_args@.len() == command.args@.len() - 2);
                            }
                            let mut it: u32 = 0;
                            while it < k
                                invariant
                                    it <= k,
                                    self@ == run_times(m1, it as nat, sub).0,
                                    effects_model(effects@) == run_times(m1, it as nat, sub).1,
                                decreases k - it,
                            {
                                let sub_name = name.clone();
                                let sub_args = args_tail(&new_args, 0);
                                proof {
                                    assert(new_args.deep_view().skip(0) =~= new_args.deep_view());
                                }
                                let cmd = ShellCommand {
                                    function,
                                    name: sub_name,
                                    args: sub_args,
                                };
                                proof {
                                    assert(cmd@ =~= sub);
                                }
                                let ghost pre = self@;
                                let mut es = self.run_command(cmd, name.as_str());
                                let ghost es_view = es@;
                                let ghost effs_view = effects@;
                                effects.append(&mut es);
                                proof {
                                    lemma_run_times_unroll_last(m1, it as nat, sub);
                                    assert(self@ == run_times(m1, (it + 1) as nat, sub).0);
                                    lemma_effects_model_concat(effs_view, es_view);
                                    assert(effects_model(effects@) == run_times(
                                        m1,
                                        (it + 1) as nat,
                                        sub,
                                    ).1);
                                }
                                it += 1;
                            }
                            proof {
                                assert(k as nat == u32_numeral_val(c.args[0]));
                                assert(self@ == op_step(m1, c).0);
                                assert(effects_model(effects@) == op_step(m1, c).1);
                            }
                        },
                        Option::None => {
                            effects.push(Effect::Print(bad_count_message(&command.args[0])));
                            proof {
                                assert(effects_model(effects@) =~= seq![
                                    EffectModel::Print(msg_bad_count(c.args[0])),
                                ]);
                            }
                        },
                    }
                } else {
                    effects.push(Effect::Print(String::from_str("Incorrect use of repeat.")));
                    proof {
                        assert(effects_model(effects@) =~= seq![
                            EffectModel::Print(msg_bad_repeat()),
                        ]);
                    }
                }
            },
            ShellFunction::UnknownFunction => {
                effects.push(Effect::Print(String::from_str("Command not implemented yet.")));
                proof {
                    assert(effects_model(effects@) =~= seq![
                        EffectModel::Print(msg_not_implemented()),
                    ]);
                }
            },
            ShellFunction::NoFunction => {},
        }
        proof {
            assert(self@ =~= op_step(m1, c).0);
            assert(effects_model(effects@) =~= op_step(m1, c).1);
        }
        effects
    }
}

/// A bare `history` is read-only: issued twice in a row it prints the
/// same lines both times and leaves the session as it was. This speaks
/// of the operation alone, with no raw line recorded; in the full flow
/// each issued line itself enters the history first, so the second
/// print carries one more line than the first.
pub proof fn lemma_history_idempotent(m: ShellModel, c: CommandModel)
    requires
        c.function == ShellFunction::History,
        c.args.len() == 0,
    ensures
        step(m, c, Seq::empty()).0 == m,
        step(step(m, c, Seq::empty()).0, c, Seq::empty()).1 == step(m, c, Seq::empty()).1,
{
}

/// `history -c` empties the history, touches nothing else, and prints
/// only the confirmation; a bare `history` right after it (with no new
/// line recorded) prints nothing.
pub proof fn lemma_history_clear(m: ShellModel, c: CommandModel, raw: Seq<char>, c2: CommandModel)
    requires
        c.function == ShellFunction::History,
        c.args.len() >= 1,
        c.args[0] == "-c"@,
        c2.function == ShellFunction::History,
        c2.args.len() == 0,
    ensures
        step(m, c, raw).0.history == Seq::<Seq<char>>::empty(),
        step(m, c, raw).0.directory == m.directory,
        step(m, c, raw).0.pids == m.pids,
        step(m, c, raw).1 == seq![EffectModel::Print(msg_clearing_history())],
        step(step(m, c, raw).0, c2, Seq::empty()).1 == Seq::<EffectModel>::empty(),
{
    assert(Seq::<Seq<char>>::empty().map_values(|l: Seq<char>| EffectModel::Print(l))
        =~= Seq::<EffectModel>::empty());
}

/// `repeat` with a count of zero performs the sub-command no times: the
/// only change is the repeat line itself entering the history, and no
/// effect is asked for.
pub proof fn lemma_repeat_zero(m: ShellModel, c: CommandModel, raw: Seq<char>)
    requires
        c.function == ShellFunction::Repeat,
        c.args.len() >= 2,
        is_u32_numeral(c.args[0]),
        u32_numeral_val(c.args[0]) == 0,
    ensures
        step(m, c, raw).0 == record(m, raw),
        step(m, c, raw).1 == Seq::<EffectModel>::empty(),
{
}

/// `exterminateall` leaves no process tracked, so a second
/// `exterminateall` right after it signals nothing and is safe.
pub proof fn lemma_killall_twice(
    m: ShellModel,
    c1: CommandModel,
    raw1: Seq<char>,
    c2: CommandModel,
    raw2: Seq<char>,
)
    requires
        c1.function == ShellFunction::ExterminateAll,
        c2.function == ShellFunction::ExterminateAll,
    ensures
        step(m, c1, raw1).0.pids == Seq::<i32>::empty(),
        step(step(m, c1, raw1).0, c2, raw2).1 == Seq::<EffectModel>::empty(),
        step(step(m, c1, raw1).0, c2, raw2).0.pids == Seq::<i32>::empty(),
{
    assert(Seq::<i32>::empty().map_values(|p: i32| EffectModel::Kill(p))
        =~= Seq::<EffectModel>::empty());
}

/// `movetodir` joins its target onto the current directory: an absolute
/// target replaces it entirely, a relative one is appended behind a
/// separator.
pub proof fn lemma_move_to_dir_join(m: ShellModel, c: CommandModel, raw: Seq<char>)
    requires
        c.function == ShellFunction::MoveToDir,
        c.args.len() >= 1,
    ensures
        step(m, c, raw).0.directory == path_join(m.directory, c.args[0]),
        c.args[0].len() > 0 && c.args[0][0] == '/' ==> step(m, c, raw).0.directory == c.args[0],
        (c.args[0].len() == 0 || c.args[0][0] != '/') && m.directory.len() > 0
            && m.directory.last() != '/' ==> step(m, c, raw).0.directory == m.directory + "/"@
            + c.args[0],
{
}

/// Dispatching an unrecognized or an empty command changes neither the
/// directory nor the tracked processes; an empty command on an empty
/// raw line — the only way the full flow produces one — changes nothing
/// at all, the history included.
pub proof fn lemma_inert(m: ShellModel, c: CommandModel, raw: Seq<char>)
    requires
        c.function == ShellFunction::UnknownFunction || c.function == ShellFunction::NoFunction,
    ensures
        step(m, c, raw).0.directory == m.directory,
        step(m, c, raw).0.pids == m.pids,
        c.function == ShellFunction::NoFunction ==> step(m, c, raw).1
            == Seq::<EffectModel>::empty(),
        c.function == ShellFunction::NoFunction && raw.len() == 0 ==> step(m, c, raw).0 == m,
{
}

} // verus!
