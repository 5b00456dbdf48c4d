//! Planning a run: what is executed, where, for how long, and what its outcome
//! means.

use vstd::prelude::*;

use crate::exec::shell::{command_line, named_shell, program, Shell, ShellPaths};
use crate::json::{
    arr_at, member, opt_text, str_at, string_items, strings_of, text_eq, texts, u64_at, Json,
};
use crate::outside::{regex_check, regex_error, regex_every, regex_replace_all};
use crate::refusal::{plain_refusal, refuse, Refusal, RefusalView};
use crate::search::{has_char, replace, replaced, starts_with};
use crate::text::{chars_of, slice_of, string_of};

verus! {

/// A letter of ASCII in lower case; any other character as it is.
pub open spec fn ascii_lower(c: char) -> char {
    if 'A' <= c <= 'Z' {
        ((c as u32) + 32) as char
    } else {
        c
    }
}

/// A text with its letters of ASCII in lower case.
pub open spec fn in_lower(s: Seq<char>) -> Seq<char> {
    Seq::new(s.len(), |i: int| ascii_lower(s[i]))
}

fn lower_char(c: char) -> (r: char)
    ensures
        r == ascii_lower(c),
{
    if 'A' <= c && c <= 'Z' {
        ((c as u32 as u8) + 32u8) as char
    } else {
        c
    }
}

/// Puts the letters of ASCII in lower case.
pub fn lower_of(s: &[char]) -> (out: Vec<char>)
    ensures
        out@ == in_lower(s@),
{
    let mut out: Vec<char> = Vec::new();
    let mut i: usize = 0;
    while i < s.len()
        invariant
            i <= s@.len(),
            out@ =~= in_lower(s@).take(i as int),
        decreases s@.len() - i,
    {
        out.push(lower_char(s[i]));
        i = i + 1;
    }
    out
}

/// Whether a program is ripgrep.
pub open spec fn is_ripgrep(name: Seq<char>) -> bool {
    in_lower(name) == "rg"@ || in_lower(name) == "rg.exe"@
}

/// An argument of ripgrep with grep's `-rn` put right: ripgrep reads `-rn` as
/// "replace by n", so the `r` goes.
pub open spec fn habit_fixed(arg: Seq<char>) -> Seq<char> {
    if "-rn"@.is_prefix_of(arg) {
        "-n"@ + arg.skip(3)
    } else {
        arg
    }
}

/// An argument list with the `-rn` of ripgrep put right.
pub open spec fn habits_fixed(argv: Seq<Seq<char>>) -> Seq<Seq<char>> {
    if argv.len() > 0 && is_ripgrep(argv[0]) {
        Seq::new(
            argv.len(),
            |i: int|
                if i == 0 {
                    argv[0]
                } else {
                    habit_fixed(argv[i])
                },
        )
    } else {
        argv
    }
}

fn fix_habit(arg: &str) -> (out: String)
    ensures
        out@ == habit_fixed(arg@),
{
    let s: Vec<char> = chars_of(arg);
    let p: Vec<char> = chars_of("-rn");
    proof {
        reveal_strlit("-rn");
        assert("-rn"@.len() == 3);
    }
    if starts_with(s.as_slice(), p.as_slice()) {
        let mut out: String = "-n".to_owned();
        let rest: Vec<char> = slice_of(s.as_slice(), 3, s.len());
        proof {
            assert(rest@ =~= arg@.skip(3));
        }
        out.append(string_of(rest.as_slice()).as_str());
        out
    } else {
        arg.to_owned()
    }
}

/// Puts grep's `-rn` right in an argument list that runs ripgrep; other programs,
/// and `-r` and `--replace` as such, are left alone.
pub fn normalize_rg_argv(argv: &mut Vec<String>)
    ensures
        texts(final(argv)@) == habits_fixed(texts(old(argv)@)),
{
    if argv.len() == 0 {
        return;
    }
    let name: Vec<char> = lower_of(chars_of(argv[0].as_str()).as_slice());
    let lower: String = string_of(name.as_slice());
    proof {
        assert(texts(argv@)[0] == argv@[0]@);
    }
    if !text_eq(lower.as_str(), "rg") && !text_eq(lower.as_str(), "rg.exe") {
        return;
    }
    let n: usize = argv.len();
    let mut i: usize = 1;
    proof {
        assert(texts(argv@) =~= habits_fixed(texts(old(argv)@)).take(1) + texts(old(argv)@).skip(1));
    }
    while i < n
        invariant
            1 <= i <= n,
            n == argv@.len(),
            n == old(argv)@.len(),
            is_ripgrep(texts(old(argv)@)[0]),
            texts(argv@) == habits_fixed(texts(old(argv)@)).take(i as int) + texts(
                old(argv)@,
            ).skip(i as int),
        decreases n - i,
    {
        let ghost before = argv@;
        proof {
            assert(texts(argv@)[i as int] == argv@[i as int]@);
            assert(texts(old(argv)@).skip(i as int)[0] == texts(old(argv)@)[i as int]);
        }
        let fixed: String = fix_habit(argv[i].as_str());
        argv.set(i, fixed);
        proof {
            assert(texts(argv@) =~= texts(before).update(i as int, fixed@));
            assert(texts(argv@) =~= habits_fixed(texts(old(argv)@)).take(i + 1) + texts(
                old(argv)@,
            ).skip(i + 1));
        }
        i = i + 1;
    }
    proof {
        assert(texts(argv@) =~= habits_fixed(texts(old(argv)@)));
    }
}

/// The pattern of a ripgrep call with a `-rn` in a command.
pub open spec fn habit_pattern() -> Seq<char> {
    "(?i)\\b(rg(\\.exe)?)\\s+-rn([a-z]*)"@
}

/// What such a call becomes.
pub open spec fn habit_template() -> Seq<char> {
    "${1} -n${3}"@
}

/// A command with the `-rn` of ripgrep put right.
pub open spec fn command_fixed(command: Seq<char>) -> Seq<char> {
    if regex_error(habit_pattern()) is None {
        regex_every(habit_pattern(), command, habit_template())
    } else {
        command
    }
}

/// Puts grep's `-rn` right in a command that runs ripgrep.
pub fn normalize_command_rg(command: &str) -> (out: String)
    ensures
        out@ == command_fixed(command@),
{
    let pattern: &str = "(?i)\\b(rg(\\.exe)?)\\s+-rn([a-z]*)";
    match regex_check(pattern) {
        Some(_) => command.to_owned(),
        None => regex_replace_all(pattern, command, "${1} -n${3}"),
    }
}

/// The names of the shells that are there.
pub open spec fn shells_text(bash: bool, pwsh: bool, cmd: bool) -> Seq<char> {
    let names = (if bash {
        seq!["bash"@]
    } else {
        Seq::empty()
    }) + (if pwsh {
        seq!["pwsh"@]
    } else {
        Seq::empty()
    }) + (if cmd {
        seq!["cmd"@]
    } else {
        Seq::empty()
    });
    if names.len() == 0 {
        "none detected"@
    } else {
        crate::lines::join(names, ", "@)
    }
}

/// Lists the shells that are there.
pub fn available_shells(bash: bool, pwsh: bool, cmd: bool) -> (out: String)
    ensures
        out@ == shells_text(bash, pwsh, cmd),
{
    let mut parts: Vec<Vec<char>> = Vec::new();
    if bash {
        parts.push(chars_of("bash"));
    }
    if pwsh {
        parts.push(chars_of("pwsh"));
    }
    if cmd {
        parts.push(chars_of("cmd"));
    }
    let ghost names = (if bash {
        seq!["bash"@]
    } else {
        Seq::empty()
    }) + (if pwsh {
        seq!["pwsh"@]
    } else {
        Seq::empty()
    }) + (if cmd {
        seq!["cmd"@]
    } else {
        Seq::empty()
    });
    proof {
        assert(crate::lines::views(parts@) =~= names);
    }
    if parts.len() == 0 {
        "none detected".to_owned()
    } else {
        string_of(crate::lines::join_parts(parts.as_slice(), chars_of(", ").as_slice()).as_slice())
    }
}

/// What a run is planned against.
#[derive(Debug, PartialEq, Eq)]
pub struct RunContext {
    /// The shell that is used when none is asked for.
    pub detected: Shell,
    pub paths: ShellPaths,
    /// A shell that the tool is tied to, and whether it is there.
    pub fixed: Option<Shell>,
    pub fixed_available: bool,
    /// The names of the shells that are there.
    pub available: String,
    /// How many tokens of output are kept by default; all without a number.
    pub policy_tokens: Option<u32>,
    /// The time limit of the tool.
    pub timeout_secs: Option<u64>,
}

/// A run that can be started.
#[derive(Debug, PartialEq, Eq)]
pub struct RunPlan {
    pub argv: Vec<String>,
    pub max_output_tokens: u32,
    pub timeout_secs: u64,
    pub background_after_secs: Option<u64>,
    /// The working directory that is asked for.
    pub cwd: Option<String>,
    /// The variables that are set, if any.
    pub env: Option<Vec<(String, String)>>,
}

/// What a plan says.
#[verifier::ext_equal]
pub struct RunPlanView {
    pub argv: Seq<Seq<char>>,
    pub max_output_tokens: u32,
    pub timeout_secs: u64,
    pub background_after_secs: Option<u64>,
    pub cwd: Option<Seq<char>>,
    pub env: Option<Seq<(Seq<char>, Seq<char>)>>,
}

/// Pairs of strings as their views.
pub open spec fn pair_texts(v: Seq<(String, String)>) -> Seq<(Seq<char>, Seq<char>)> {
    Seq::new(v.len(), |i: int| (v[i].0@, v[i].1@))
}

impl View for RunPlan {
    type V = RunPlanView;

    open spec fn view(&self) -> RunPlanView {
        RunPlanView {
            argv: texts(self.argv@),
            max_output_tokens: self.max_output_tokens,
            timeout_secs: self.timeout_secs,
            background_after_secs: self.background_after_secs,
            cwd: opt_text(self.cwd),
            env: match self.env {
                Some(e) => Some(pair_texts(e@)),
                None => None,
            },
        }
    }
}

/// The shell that the arguments name.
pub open spec fn asked_shell(args: Json) -> Option<Seq<char>> {
    match str_at(args, "shell"@) {
        Some(n) => if n.len() > 0 {
            Some(n)
        } else {
            None
        },
        None => None,
    }
}

/// The shell that a command runs in.
pub open spec fn shell_for(args: Json, c: RunContext) -> Result<Shell, RefusalView> {
    match c.fixed {
        Some(shell) => if c.fixed_available {
            Ok(shell)
        } else {
            Err(
                plain_refusal(
                    "SHELL_NOT_FOUND"@,
                    program(shell, c.paths) + " not found on this machine"@,
                    Some("available shells: "@ + c.available@),
                ),
            )
        },
        None => match asked_shell(args) {
            Some(name) => match named_shell(name) {
                Some(shell) => Ok(shell),
                None => Err(
                    plain_refusal(
                        "UNKNOWN_SHELL"@,
                        "unknown shell '"@ + name + "'"@,
                        Some(
                            "Use one of: bash, zsh, sh, pwsh, powershell, cmd. The default is auto-detected (pwsh on Windows, bash elsewhere)."@,
                        ),
                    ),
                ),
            },
            None => Ok(c.detected),
        },
    }
}

/// The arguments behind a command.
pub open spec fn extra_args(args: Json) -> Seq<Seq<char>> {
    match arr_at(args, "args"@) {
        Some(items) => strings_of(items),
        None => Seq::empty(),
    }
}

/// The argument list that is run: a command in its shell, or `argv` as it is. A
/// shell or `args` beside `argv` would do nothing, so they are refused there.
pub open spec fn argv_for(args: Json, c: RunContext) -> Result<Seq<Seq<char>>, RefusalView> {
    match str_at(args, "command"@) {
        Some(command) => if command.len() == 0 {
            Err(
                plain_refusal(
                    "EMPTY_COMMAND"@,
                    "command string is empty"@,
                    Some("Provide a shell command string."@),
                ),
            )
        } else {
            match shell_for(args, c) {
                Err(e) => Err(e),
                Ok(shell) => if extra_args(args).len() > 0 && shell == Shell::Cmd {
                    Err(
                        plain_refusal(
                            "ARGS_NOT_SUPPORTED"@,
                            "args is only supported for bash/zsh/sh ($1/$@) and pwsh -CommandWithArgs ($args)"@,
                            Some(
                                "Use exec with shell bash/zsh/sh and args as string array (positional $1...), or shell pwsh."@,
                            ),
                        ),
                    )
                } else {
                    Ok(
                        command_line(
                            shell,
                            program(shell, c.paths),
                            command_fixed(command),
                            extra_args(args),
                        ),
                    )
                },
            }
        },
        None => if asked_shell(args) is Some {
            Err(
                plain_refusal(
                    "ARGV_IGNORES_SHELL"@,
                    "argv mode runs direct exec without a shell; 'shell: "@ + asked_shell(args)->0
                        + "' is ignored"@,
                    Some(
                        "Use command (not argv) to run through a shell, or drop the shell parameter."@,
                    ),
                ),
            )
        } else if arr_at(args, "args"@) matches Some(items) && items.len() > 0 {
            Err(
                plain_refusal(
                    "ARGV_IGNORES_ARGS"@,
                    "argv mode runs direct exec without a shell; 'args' only applies to command mode"@,
                    Some("Use command + args (positional $1... / $args), or drop args."@),
                ),
            )
        } else {
            match arr_at(args, "argv"@) {
                None => Err(
                    plain_refusal(
                        "MISSING_ARGV"@,
                        "exec requires argv or command"@,
                        Some(
                            "Example: {\"argv\": [\"cargo\", \"check\"]} or {\"command\": \"cargo check\"}"@,
                        ),
                    ),
                ),
                Some(items) => if strings_of(items).len() == 0 {
                    Err(
                        plain_refusal(
                            "EMPTY_ARGV"@,
                            "argv array is empty"@,
                            Some("Provide at least one element."@),
                        ),
                    )
                } else {
                    Ok(habits_fixed(strings_of(items)))
                },
            }
        },
    }
}

/// A number of the arguments, when it lies in a range.
pub open spec fn number_in(args: Json, key: Seq<char>, low: u64, high: u64) -> Option<u64> {
    match u64_at(args, key) {
        Some(n) => if low <= n <= high {
            Some(n)
        } else {
            None
        },
        None => None,
    }
}

/// The time limit of the tool, from 1 s to an hour, half a minute by default.
pub open spec fn tool_timeout(limit: Option<u64>) -> u64 {
    match limit {
        Some(n) => if n < 1 {
            1
        } else if n > 3600 {
            3600
        } else {
            n
        },
        None => 30,
    }
}

/// The variables whose value is a string.
pub open spec fn string_pairs(pairs: Seq<(String, Json)>) -> Seq<(Seq<char>, Seq<char>)>
    decreases pairs.len(),
{
    if pairs.len() == 0 {
        Seq::empty()
    } else {
        match pairs.last().1 {
            Json::Str(s) => string_pairs(pairs.drop_last()).push((pairs.last().0@, s@)),
            _ => string_pairs(pairs.drop_last()),
        }
    }
}

/// The variables that are set: those of `env` whose value is a string.
pub open spec fn env_for(args: Json) -> Option<Seq<(Seq<char>, Seq<char>)>> {
    match member(args, "env"@) {
        Some(Json::Obj(pairs)) => if string_pairs(pairs@).len() > 0 {
            Some(string_pairs(pairs@))
        } else {
            None
        },
        _ => None,
    }
}

/// The plan of a run.
pub open spec fn run_plan(args: Json, c: RunContext) -> Result<RunPlanView, RefusalView> {
    match argv_for(args, c) {
        Err(e) => Err(e),
        Ok(argv) => Ok(
            RunPlanView {
                argv,
                max_output_tokens: match number_in(args, "max_output_tokens"@, 100, 50000) {
                    Some(n) => n as u32,
                    None => match c.policy_tokens {
                        Some(n) => n,
                        None => u32::MAX,
                    },
                },
                timeout_secs: match number_in(args, "timeout_secs"@, 1, 3600) {
                    Some(n) => n,
                    None => tool_timeout(c.timeout_secs),
                },
                background_after_secs: number_in(args, "background_after_secs"@, 1, 3600),
                cwd: str_at(args, "cwd"@),
                env: env_for(args),
            },
        ),
    }
}

fn asked_shell_of(args: &Json) -> (r: Option<&str>)
    ensures
        match r {
            Some(n) => asked_shell(*args) == Some(n@),
            None => asked_shell(*args) is None,
        },
{
    match args.get_str("shell") {
        Some(n) => if n.is_empty() {
            None
        } else {
            Some(n)
        },
        None => None,
    }
}

fn choose_shell(args: &Json, c: &RunContext) -> (r: Result<Shell, Refusal>)
    ensures
        match shell_for(*args, *c) {
            Ok(s) => r == Ok::<Shell, Refusal>(s),
            Err(e) => r matches Err(f) && f@ == e,
        },
{
    match c.fixed {
        Some(shell) => {
            if c.fixed_available {
                Ok(shell)
            } else {
                let mut message: String = shell.path(&c.paths).to_owned();
                message.append(" not found on this machine");
                let mut hint: String = "available shells: ".to_owned();
                hint.append(c.available.as_str());
                Err(refuse("SHELL_NOT_FOUND", message, Some(hint.as_str())))
            }
        },
        None => match asked_shell_of(args) {
            Some(name) => match Shell::from_name(name) {
                Some(shell) => Ok(shell),
                None => {
                    let mut message: String = "unknown shell '".to_owned();
                    message.append(name);
                    message.append("'");
                    Err(
                        refuse(
                            "UNKNOWN_SHELL",
                            message,
                            Some(
                                "Use one of: bash, zsh, sh, pwsh, powershell, cmd. The default is auto-detected (pwsh on Windows, bash elsewhere).",
                            ),
                        ),
                    )
                },
            },
            None => Ok(c.detected),
        },
    }
}

fn extra_args_of(args: &Json) -> (out: Vec<String>)
    ensures
        texts(out@) == extra_args(*args),
{
    match args.get_array("args") {
        Some(items) => string_items(items.as_slice()),
        None => {
            let out: Vec<String> = Vec::new();
            proof {
                assert(texts(out@) =~= Seq::<Seq<char>>::empty());
            }
            out
        },
    }
}

fn plan_command(args: &Json, c: &RunContext, command: &str) -> (r: Result<Vec<String>, Refusal>)
    requires
        str_at(*args, "command"@) == Some(command@),
    ensures
        match argv_for(*args, *c) {
            Ok(v) => r matches Ok(a) && texts(a@) == v,
            Err(e) => r matches Err(f) && f@ == e,
        },
{
    if command.is_empty() {
        return Err(
            refuse(
                "EMPTY_COMMAND",
                "command string is empty".to_owned(),
                Some("Provide a shell command string."),
            ),
        );
    }
    let fixed: String = normalize_command_rg(command);
    let shell: Shell = match choose_shell(args, c) {
        Ok(s) => s,
        Err(e) => {
            return Err(e);
        },
    };
    let extra: Vec<String> = extra_args_of(args);
    if extra.len() > 0 && shell == Shell::Cmd {
        return Err(
            refuse(
                "ARGS_NOT_SUPPORTED",
                "args is only supported for bash/zsh/sh ($1/$@) and pwsh -CommandWithArgs ($args)".to_owned(),
                Some(
                    "Use exec with shell bash/zsh/sh and args as string array (positional $1...), or shell pwsh.",
                ),
            ),
        );
    }
    Ok(shell.derive_exec_args_with(&c.paths, fixed.as_str(), Some(extra.as_slice())))
}

fn plan_argv(args: &Json, c: &RunContext) -> (r: Result<Vec<String>, Refusal>)
    ensures
        match argv_for(*args, *c) {
            Ok(v) => r matches Ok(a) && texts(a@) == v,
            Err(e) => r matches Err(f) && f@ == e,
        },
{
    match args.get_str("command") {
        Some(command) => {
            return plan_command(args, c, command);
        },
        None => {},
    }
    match asked_shell_of(args) {
        Some(name) => {
            let mut message: String =
                "argv mode runs direct exec without a shell; 'shell: ".to_owned();
            message.append(name);
            message.append("' is ignored");
            return Err(
                refuse(
                    "ARGV_IGNORES_SHELL",
                    message,
                    Some(
                        "Use command (not argv) to run through a shell, or drop the shell parameter.",
                    ),
                ),
            );
        },
        None => {},
    }
    match args.get_array("args") {
        Some(items) => {
            if items.len() > 0 {
                return Err(
                    refuse(
                        "ARGV_IGNORES_ARGS",
                        "argv mode runs direct exec without a shell; 'args' only applies to command mode".to_owned(),
                        Some("Use command + args (positional $1... / $args), or drop args."),
                    ),
                );
            }
        },
        None => {},
    }
    match args.get_array("argv") {
        None => Err(
            refuse(
                "MISSING_ARGV",
                "exec requires argv or command".to_owned(),
                Some(
                    "Example: {\"argv\": [\"cargo\", \"check\"]} or {\"command\": \"cargo check\"}",
                ),
            ),
        ),
        Some(items) => {
            let mut argv: Vec<String> = string_items(items.as_slice());
            if argv.len() == 0 {
                return Err(
                    refuse(
                        "EMPTY_ARGV",
                        "argv array is empty".to_owned(),
                        Some("Provide at least one element."),
                    ),
                );
            }
            normalize_rg_argv(&mut argv);
            Ok(argv)
        },
    }
}

fn number_of(args: &Json, key: &str, low: u64, high: u64) -> (r: Option<u64>)
    ensures
        r == number_in(*args, key@, low, high),
{
    match args.get_u64(key) {
        Some(n) => if low <= n && n <= high {
            Some(n)
        } else {
            None
        },
        None => None,
    }
}

fn env_of(args: &Json) -> (r: Option<Vec<(String, String)>>)
    ensures
        match r {
            Some(v) => env_for(*args) == Some(pair_texts(v@)),
            None => env_for(*args) is None,
        },
{
    match args.get("env") {
        Some(Json::Obj(pairs)) => {
            let mut out: Vec<(String, String)> = Vec::new();
            let mut i: usize = 0;
            proof {
                assert(pairs@.take(0) =~= Seq::<(String, Json)>::empty());
                assert(pair_texts(out@) =~= Seq::empty());
            }
            while i < pairs.len()
                invariant
                    i <= pairs@.len(),
                    pair_texts(out@) == string_pairs(pairs@.take(i as int)),
                decreases pairs@.len() - i,
            {
                let ghost before = out@;
                proof {
                    assert(pairs@.take(i + 1).drop_last() =~= pairs@.take(i as int));
                    assert(pairs@.take(i + 1).last() == pairs@[i as int]);
                }
                match &pairs[i].1 {
                    Json::Str(s) => {
                        out.push((pairs[i].0.clone(), s.clone()));
                        proof {
                            assert(pair_texts(out@) =~= pair_texts(before).push(
                                (pairs@[i as int].0@, s@),
                            ));
                        }
                    },
                    _ => {},
                }
                i = i + 1;
            }
            proof {
                assert(pairs@.take(pairs@.len() as int) =~= pairs@);
            }
            if out.len() > 0 {
                Some(out)
            } else {
                None
            }
        },
        _ => None,
    }
}

/// Plans a run, or says why it cannot be.
pub fn handle_run_with_shell(args: &Json, c: &RunContext) -> (r: Result<RunPlan, Refusal>)
    ensures
        match run_plan(*args, *c) {
            Ok(v) => r matches Ok(p) && p@ == v,
            Err(e) => r matches Err(f) && f@ == e,
        },
{
    let argv: Vec<String> = match plan_argv(args, c) {
        Ok(a) => a,
        Err(e) => {
            return Err(e);
        },
    };
    let max_output_tokens: u32 = match number_of(args, "max_output_tokens", 100, 50000) {
        Some(n) => n as u32,
        None => match c.policy_tokens {
            Some(n) => n,
            None => u32::MAX,
        },
    };
    let timeout_secs: u64 = match number_of(args, "timeout_secs", 1, 3600) {
        Some(n) => n,
        None => match c.timeout_secs {
            Some(n) => if n < 1 {
                1
            } else if n > 3600 {
                3600
            } else {
                n
            },
            None => 30,
        },
    };
    Ok(
        RunPlan {
            argv,
            max_output_tokens,
            timeout_secs,
            background_after_secs: number_of(args, "background_after_secs", 1, 3600),
            cwd: match args.get_str("cwd") {
                Some(d) => Some(d.to_owned()),
                None => None,
            },
            env: env_of(args),
        },
    )
}

/// The directory a run starts in: the one that is asked for, resolved against the
/// workspace where that gives anything; else the workspace, if there is one.
pub open spec fn start_dir(
    asked: Option<Seq<char>>,
    resolved: Seq<char>,
    workspace: Seq<char>,
) -> Option<Seq<char>> {
    match asked {
        Some(d) => if resolved.len() == 0 {
            Some(d)
        } else {
            Some(resolved)
        },
        None => if workspace.len() == 0 || workspace == "."@ {
            None
        } else {
            Some(workspace)
        },
    }
}

/// The directory a run starts in.
pub fn working_dir(asked: Option<&str>, resolved: &str, workspace: &str) -> (r: Option<String>)
    ensures
        opt_text(r) == start_dir(
            match asked {
                Some(d) => Some(d@),
                None => None,
            },
            resolved@,
            workspace@,
        ),
{
    match asked {
        Some(d) => {
            if resolved.is_empty() {
                Some(d.to_owned())
            } else {
                Some(resolved.to_owned())
            }
        },
        None => {
            if workspace.is_empty() || text_eq(workspace, ".") {
                None
            } else {
                Some(workspace.to_owned())
            }
        },
    }
}

/// Whether a command starts something in the background: an `&` is left when `&&`,
/// `>&` and `&>` are taken out.
pub open spec fn starts_background(command: Seq<char>) -> bool {
    replaced(
        replaced(replaced(command, "&&"@, ""@), ">&"@, ""@),
        "&>"@,
        ""@,
    ).contains('&')
}

/// Whether a command starts something in the background.
pub fn detect_background_derivation(command: &str) -> (r: bool)
    ensures
        r == starts_background(command@),
{
    let s: Vec<char> = chars_of(command);
    let nothing: Vec<char> = chars_of("");
    proof {
        reveal_strlit("&&");
        reveal_strlit(">&");
        reveal_strlit("&>");
        assert("&&"@.len() == 2);
        assert(">&"@.len() == 2);
        assert("&>"@.len() == 2);
    }
    let a: Vec<char> = replace(s.as_slice(), chars_of("&&").as_slice(), nothing.as_slice());
    let b: Vec<char> = replace(a.as_slice(), chars_of(">&").as_slice(), nothing.as_slice());
    let c: Vec<char> = replace(b.as_slice(), chars_of("&>").as_slice(), nothing.as_slice());
    has_char(c.as_slice(), '&')
}

/// What the answer to a run that starts a background job is followed by.
pub const BACKGROUND_DERIVATION_HINT: &'static str = "\n[!] 后台派生检测：命令包含 `&`（后台任务）。后台/孙进程可能持有输出管道，导致本结果遗漏其后继输出。长驻服务请改用 background_after_secs 参数移交后台，并以 process 工具（check/wait/kill）接管；后台命令应将 stdout/stderr 重定向到文件（证据：docs/incidents/2026-09-06-fd-hold-repro.md）。\n";

/// How a run ended.
#[derive(Debug, Clone, Copy, PartialEq, Eq)]
pub struct RunEnd {
    pub completed: bool,
    pub exit_code: Option<i32>,
    pub timed_out: bool,
    pub cancelled: bool,
}

/// Whether a run succeeded: it ended with 0, or without a code and neither for the
/// time limit nor because it was cancelled.
pub open spec fn succeeded(end: RunEnd) -> bool {
    match end.exit_code {
        Some(n) => n == 0,
        None => !end.timed_out && !end.cancelled,
    }
}

/// Whether a run warns of a background job: it completed, and its command starts one.
pub open spec fn warns(command: Option<Seq<char>>, end: RunEnd) -> bool {
    end.completed && (command matches Some(c) && starts_background(c))
}

/// Whether a run succeeded, and its output, followed by a warning where its command
/// starts a background job.
pub fn judge_run(command: Option<&str>, end: RunEnd, output: String) -> (r: (bool, String))
    ensures
        r.0 == succeeded(end),
        end.exit_code matches Some(c) ==> (r.0 <==> c == 0),
        end.exit_code is None ==> (r.0 <==> !end.timed_out && !end.cancelled),
        output@.is_prefix_of(r.1@),
        r.1@ == if warns(
            match command {
                Some(c) => Some(c@),
                None => None,
            },
            end,
        ) {
            output@ + BACKGROUND_DERIVATION_HINT@
        } else {
            output@
        },
{
    let success: bool = match end.exit_code {
        Some(n) => n == 0,
        None => !end.timed_out && !end.cancelled,
    };
    let warn: bool = match command {
        Some(c) => end.completed && detect_background_derivation(c),
        None => false,
    };
    let ghost shown = output@;
    let mut out: String = output;
    if warn {
        out.append(BACKGROUND_DERIVATION_HINT);
    }
    proof {
        assert(out@.take(shown.len() as int) =~= shown);
    }
    (success, out)
}

/// Putting `-rn` right is done with once it is done.
pub proof fn habits_are_fixed_once(argv: Seq<Seq<char>>)
    ensures
        habits_fixed(habits_fixed(argv)) == habits_fixed(argv),
{
    reveal_strlit("-rn");
    reveal_strlit("-n");
    let f = habits_fixed(argv);
    assert forall|i: int| 0 <= i < f.len() implies habits_fixed(f)[i] == f[i] by {
        if i > 0 && is_ripgrep(argv[0]) && "-rn"@.is_prefix_of(argv[i]) {
            assert(f[i][1] == 'n');
            assert("-rn"@[1] == 'r');
        }
    }
    assert(habits_fixed(f) =~= f);
}

/// Only arguments that begin with `-rn` are touched, and none of another program.
pub proof fn other_arguments_are_kept(argv: Seq<Seq<char>>, i: int)
    requires
        0 <= i < argv.len(),
        i == 0 || !is_ripgrep(argv[0]) || !"-rn"@.is_prefix_of(argv[i]),
    ensures
        habits_fixed(argv).len() == argv.len(),
        habits_fixed(argv)[i] == argv[i],
{
}

/// `argv` runs without a shell: a shell name or arguments beside it are refused.
pub proof fn argv_is_never_run_in_a_shell(args: Json, c: RunContext)
    requires
        str_at(args, "command"@) is None,
        argv_for(args, c) is Ok,
    ensures
        asked_shell(args) is None,
        extra_args(args).len() == 0,
        argv_for(args, c)->Ok_0 == habits_fixed(strings_of(arr_at(args, "argv"@)->0)),
{
}

/// A run that can be started has a program, and its limits lie in their ranges.
pub proof fn planned_limits_are_in_range(args: Json, c: RunContext)
    requires
        run_plan(args, c) is Ok,
    ensures
        run_plan(args, c)->Ok_0.argv.len() >= 1,
        1 <= run_plan(args, c)->Ok_0.timeout_secs <= 3600,
        run_plan(args, c)->Ok_0.background_after_secs matches Some(n) ==> 1 <= n <= 3600,
        u64_at(args, "max_output_tokens"@) matches Some(n) ==> (100 <= n <= 50000 ==> run_plan(
            args,
            c,
        )->Ok_0.max_output_tokens == n),
{
}

} // verus!
