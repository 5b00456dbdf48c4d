//! What holds of every run of a command.

use vstd::prelude::*;

use crate::exec::handler::{
    ascii_lower, command_fixed, env_for, habits_fixed, in_lower, is_ripgrep, run_plan, shell_for,
    shells_text, start_dir, starts_background, string_pairs, succeeded, warns, RunContext, RunEnd,
};
use crate::exec::shell::{
    command_line, default_shell, program, utf16_bytes, Shell, ShellPaths, ShellProbe,
};
use crate::base64::encoded;
use crate::json::{arr_at, member, str_at, strings_of, u64_at, Json};
use crate::laws::text::every_occurrence_is_replaced;
use crate::lines::join;
use crate::refusal::RefusalView;
use crate::search::{at, find_from, lemma_find_from, replaced};

verus! {

/// A run that ended with an exit code succeeded if and only if the code is 0. One that
/// ended without a code succeeded if and only if neither the time limit nor the caller
/// ended it.
pub proof fn only_exit_code_zero_succeeds(end: RunEnd)
    ensures
        end.exit_code matches Some(c) ==> (succeeded(end) <==> c == 0),
        end.exit_code is None ==> (succeeded(end) <==> !(end.timed_out || end.cancelled)),
{
}

/// How two runs compare that differ in their exit code only: at most one code succeeds.
pub proof fn no_two_exit_codes_succeed(a: RunEnd, b: RunEnd)
    requires
        a.exit_code is Some,
        b.exit_code is Some,
        a.exit_code != b.exit_code,
    ensures
        !(succeeded(a) && succeeded(b)),
{
}

/// A replacement does not reach over a character that the text to replace does not hold.
proof fn lemma_replaced_in_pieces(x: Seq<char>, c: char, y: Seq<char>, from: Seq<char>, to: Seq<char>)
    requires
        from.len() > 0,
        !from.contains(c),
    ensures
        replaced(x.push(c) + y, from, to) == replaced(x, from, to).push(c) + replaced(y, from, to),
    decreases x.len(),
{
    let s = x.push(c) + y;
    assert(s[x.len() as int] == c);
    if x.len() == 0 {
        if at(s, from, 0) {
            assert(s.subrange(0, from.len() as int)[0] == s[0]);
            assert(from[0] == c);
        }
        assert(s.skip(1) =~= y);
        assert(replaced(x, from, to) =~= x);
        assert(seq![s[0]] + replaced(y, from, to) =~= x.push(c) + replaced(y, from, to));
    } else if at(s, from, 0) {
        let n = from.len() as int;
        assert(n <= x.len()) by {
            if n > x.len() {
                assert(s.subrange(0, n)[x.len() as int] == s[x.len() as int]);
                assert(from[x.len() as int] == c);
            }
        }
        assert(x.subrange(0, n) =~= s.subrange(0, n));
        assert(at(x, from, 0));
        lemma_replaced_in_pieces(x.skip(n), c, y, from, to);
        assert(s.skip(n) =~= x.skip(n).push(c) + y);
        assert(to + (replaced(x.skip(n), from, to).push(c) + replaced(y, from, to)) =~= (to + replaced(
            x.skip(n),
            from,
            to,
        )).push(c) + replaced(y, from, to));
    } else {
        if at(x, from, 0) {
            assert(x.subrange(0, from.len() as int) =~= s.subrange(0, from.len() as int));
        }
        lemma_replaced_in_pieces(x.skip(1), c, y, from, to);
        assert(s.skip(1) =~= x.skip(1).push(c) + y);
        assert(seq![s[0]] + (replaced(x.skip(1), from, to).push(c) + replaced(y, from, to)) =~= (
        seq![x[0]] + replaced(x.skip(1), from, to)).push(c) + replaced(y, from, to));
    }
}

/// Where an `&` stands between characters that are neither `&` nor `>`, the command starts
/// something in the background.
pub proof fn lone_ampersand_starts_a_job(before: Seq<char>, a: char, b: char, behind: Seq<char>)
    requires
        a != '&' && a != '>',
        b != '&' && b != '>',
    ensures
        starts_background(before.push(a).push('&').push(b) + behind),
        starts_background(before.push(a).push('&')),
{
    reveal_strlit("&&");
    reveal_strlit(">&");
    reveal_strlit("&>");
    reveal_strlit("");
    assert(""@ =~= Seq::<char>::empty());
    let r1 = |s: Seq<char>| replaced(s, "&&"@, ""@);
    let r2 = |s: Seq<char>| replaced(s, ">&"@, ""@);
    let r3 = |s: Seq<char>| replaced(s, "&>"@, ""@);
    let mid = seq!['&'];
    assert(r1(mid) =~= mid && r2(mid) =~= mid && r3(mid) =~= mid) by {
        lemma_short("&&"@);
        lemma_short(">&"@);
        lemma_short("&>"@);
    }
    let s = before.push(a).push('&').push(b) + behind;
    let s2 = before.push(a).push('&');
    assert(s =~= before.push(a) + (mid.push(b) + behind));
    assert(s2 =~= before.push(a) + mid);
    assert(!"&&"@.contains(a) && !">&"@.contains(a) && !"&>"@.contains(a));
    assert(!"&&"@.contains(b) && !">&"@.contains(b) && !"&>"@.contains(b));
    lemma_replaced_in_pieces(before, a, mid.push(b) + behind, "&&"@, ""@);
    lemma_replaced_in_pieces(before, a, mid, "&&"@, ""@);
    lemma_replaced_in_pieces(mid, b, behind, "&&"@, ""@);
    let x1 = r1(before);
    let y1 = r1(behind);
    lemma_replaced_in_pieces(x1, a, mid.push(b) + y1, ">&"@, ""@);
    lemma_replaced_in_pieces(x1, a, mid, ">&"@, ""@);
    lemma_replaced_in_pieces(mid, b, y1, ">&"@, ""@);
    let x2 = r2(x1);
    let y2 = r2(y1);
    lemma_replaced_in_pieces(x2, a, mid.push(b) + y2, "&>"@, ""@);
    lemma_replaced_in_pieces(x2, a, mid, "&>"@, ""@);
    lemma_replaced_in_pieces(mid, b, y2, "&>"@, ""@);
    let x3 = r3(x2);
    let all = x3.push(a) + (mid.push(b) + r3(y2));
    assert(all[x3.len() as int + 1] == '&');
    let all2 = x3.push(a) + mid;
    assert(all2[x3.len() as int + 1] == '&');
}

proof fn lemma_short(from: Seq<char>)
    requires
        from.len() == 2,
    ensures
        replaced(seq!['&'], from, ""@) == seq!['&'],
{
    reveal_strlit("");
    let s = seq!['&'];
    assert(s.skip(1) =~= Seq::<char>::empty());
    assert(replaced(s.skip(1), from, ""@) =~= Seq::<char>::empty());
    assert(seq![s[0]] + replaced(s.skip(1), from, ""@) =~= s);
}

/// Taking out what is not there in pieces: no `&` comes from nowhere.
proof fn lemma_taken_out_adds_nothing(s: Seq<char>, from: Seq<char>, c: char)
    requires
        from.len() > 0,
        !s.contains(c),
    ensures
        !replaced(s, from, ""@).contains(c),
    decreases s.len(),
{
    reveal_strlit("");
    if s.len() > 0 {
        let n = if at(s, from, 0) {
            from.len() as int
        } else {
            1
        };
        let t = s.skip(n);
        assert(!t.contains(c)) by {
            if t.contains(c) {
                let i = choose|i: int| 0 <= i < t.len() && t[i] == c;
                assert(s[i + n] == c);
            }
        }
        lemma_taken_out_adds_nothing(t, from, c);
        let r = replaced(s, from, ""@);
        if r.contains(c) {
            let i = choose|i: int| 0 <= i < r.len() && r[i] == c;
            if at(s, from, 0) {
                assert(replaced(t, from, ""@)[i] == c);
            } else if i == 0 {
                assert(s[0] == c);
            } else {
                assert(replaced(t, from, ""@)[i - 1] == c);
            }
        }
    }
}

/// A command without an `&` starts nothing in the background.
pub proof fn no_ampersand_starts_no_job(s: Seq<char>)
    requires
        !s.contains('&'),
    ensures
        !starts_background(s),
{
    reveal_strlit("&&");
    reveal_strlit(">&");
    reveal_strlit("&>");
    lemma_taken_out_adds_nothing(s, "&&"@, '&');
    lemma_taken_out_adds_nothing(replaced(s, "&&"@, ""@), ">&"@, '&');
    lemma_taken_out_adds_nothing(replaced(replaced(s, "&&"@, ""@), ">&"@, ""@), "&>"@, '&');
}

/// Neither `&&` nor the redirections `>&` and `&>` start anything: taken out of the middle
/// of a command without another `&`, nothing is left of them.
pub proof fn operators_start_no_job(a: Seq<char>, op: Seq<char>, b: Seq<char>)
    requires
        op == "&&"@ || op == ">&"@ || op == "&>"@,
        !a.contains('&'),
        !b.contains('&'),
        a.len() > 0 ==> a.last() != '>',
        b.len() > 0 ==> b[0] != '>',
    ensures
        !starts_background(a + op + b),
{
    reveal_strlit("&&");
    reveal_strlit(">&");
    reveal_strlit("&>");
    reveal_strlit("");
    let s = a + op + b;
    lemma_absent_pair(a, op, b, "&&"@);
    lemma_absent_pair(a, op, b, ">&"@);
    lemma_absent_pair(a, op, b, "&>"@);
    assert(!(a + b).contains('&')) by {
        if (a + b).contains('&') {
            let i = choose|i: int| 0 <= i < (a + b).len() && (a + b)[i] == '&';
            if i < a.len() {
                assert(a[i] == '&');
            } else {
                assert(b[i - a.len()] == '&');
            }
        }
    }
    lemma_plain(a + b, "&&"@, 0);
    lemma_plain(a + b, ">&"@, 1);
    lemma_plain(a + b, "&>"@, 0);
    if op == "&&"@ {
        lemma_one_taken_out(a, op, b, 0);
    } else if op == ">&"@ {
        assert(">&"@[0] != "&&"@[0]);
        lemma_one_taken_out(a, op, b, 1);
    } else {
        assert("&>"@[1] != "&&"@[1]);
        assert("&>"@[1] != ">&"@[1]);
        lemma_one_taken_out(a, op, b, 0);
    }
}

proof fn lemma_plain(s: Seq<char>, from: Seq<char>, k: int)
    requires
        0 <= k < from.len(),
        from[k] == '&',
        !s.contains('&'),
    ensures
        replaced(s, from, ""@) == s,
{
    every_occurrence_is_replaced(s, from, ""@);
    lemma_find_from(s, from, 0);
    let p = find_from(s, from, 0);
    if p != -1 {
        assert(s.subrange(p, p + from.len())[k] == s[p + k]);
    }
}

proof fn lemma_absent_pair(a: Seq<char>, op: Seq<char>, b: Seq<char>, from: Seq<char>)
    requires
        op == "&&"@ || op == ">&"@ || op == "&>"@,
        from == "&&"@ || from == ">&"@ || from == "&>"@,
        !a.contains('&'),
        !b.contains('&'),
        a.len() > 0 ==> a.last() != '>',
        b.len() > 0 ==> b[0] != '>',
    ensures
        from != op ==> replaced(a + op + b, from, ""@) == a + op + b,
{
    reveal_strlit("&&");
    reveal_strlit(">&");
    reveal_strlit("&>");
    let s = a + op + b;
    every_occurrence_is_replaced(s, from, ""@);
    lemma_find_from(s, from, 0);
    let p = find_from(s, from, 0);
    if p != -1 && from != op {
        assert(s.subrange(p, p + 2) == from);
        assert(s[p] == s.subrange(p, p + 2)[0]);
        assert(s[p + 1] == s.subrange(p, p + 2)[1]);
        lemma_ampersands(a, op, b, p);
        lemma_ampersands(a, op, b, p + 1);
        if p == a.len() {
            assert(s.subrange(p, p + 2) =~= op);
        }
    }
}

proof fn lemma_ampersands(a: Seq<char>, op: Seq<char>, b: Seq<char>, i: int)
    requires
        op.len() == 2,
        !a.contains('&'),
        !b.contains('&'),
        0 <= i < a.len() + 2 + b.len(),
    ensures
        (a + op + b)[i] == '&' ==> a.len() <= i < a.len() + 2,
        i < a.len() ==> (a + op + b)[i] == a[i],
        a.len() <= i < a.len() + 2 ==> (a + op + b)[i] == op[i - a.len()],
        a.len() + 2 <= i ==> (a + op + b)[i] == b[i - a.len() - 2],
{
    let s = a + op + b;
    if i < a.len() {
        assert(s[i] == a[i]);
    } else if i >= a.len() + 2 {
        assert(s[i] == b[i - a.len() - 2]);
    }
}

proof fn lemma_one_taken_out(a: Seq<char>, op: Seq<char>, b: Seq<char>, k: int)
    requires
        op.len() == 2,
        k == 0 || k == 1,
        op[k] == '&',
        k == 1 ==> op[0] == '>',
        !a.contains('&'),
        !b.contains('&'),
        a.len() > 0 ==> a.last() != '>',
    ensures
        replaced(a + op + b, op, ""@) == a + b,
{
    reveal_strlit("");
    let s = a + op + b;
    every_occurrence_is_replaced(s, op, ""@);
    lemma_find_from(s, op, 0);
    let n = a.len() as int;
    assert(s.subrange(n, n + 2) =~= op);
    assert(at(s, op, n));
    let p = find_from(s, op, 0);
    assert(p != -1);
    assert(p == n) by {
        assert(s.subrange(p, p + 2) == op);
        assert(s[p] == s.subrange(p, p + 2)[0]);
        assert(s[p + k] == s.subrange(p, p + 2)[k]);
        lemma_ampersands(a, op, b, p + k);
        lemma_ampersands(a, op, b, p);
    }
    lemma_plain(b, op, k);
    assert(s.skip(p + 2) =~= b);
    assert(s.take(p) =~= a);
    assert(a + ""@ + b =~= a + b);
}

/// A run warns of a background job only when it is over and has a command that starts one.
pub proof fn only_finished_commands_warn(command: Option<Seq<char>>, end: RunEnd)
    ensures
        !end.completed ==> !warns(command, end),
        command is None ==> !warns(command, end),
        end.completed ==> (command matches Some(c) ==> (warns(command, end) <==> starts_background(
            c,
        ))),
{
}

/// The shell of a command: one that the tool is tied to, else the one that is asked for by
/// name, else the one that was detected; what is not there or not known is refused.
pub proof fn shell_is_fixed_or_asked_for_or_detected(args: Json, c: RunContext)
    ensures
        c.fixed matches Some(s) ==> (c.fixed_available ==> shell_for(args, c) == Ok::<
            Shell,
            RefusalView,
        >(s)),
        c.fixed is Some && !c.fixed_available ==> (shell_for(args, c) matches Err(e) && e.code
            == "SHELL_NOT_FOUND"@),
        c.fixed is None && str_at(args, "shell"@) is None ==> shell_for(args, c) == Ok::<
            Shell,
            RefusalView,
        >(c.detected),
        c.fixed is None ==> (str_at(args, "shell"@) matches Some(n) ==> {
            &&& n.len() == 0 ==> shell_for(args, c) == Ok::<Shell, RefusalView>(c.detected)
            &&& n == "bash"@ ==> shell_for(args, c) == Ok::<Shell, RefusalView>(Shell::Bash)
            &&& n == "zsh"@ ==> shell_for(args, c) == Ok::<Shell, RefusalView>(Shell::Zsh)
            &&& n == "sh"@ ==> shell_for(args, c) == Ok::<Shell, RefusalView>(Shell::Sh)
            &&& n == "cmd"@ ==> shell_for(args, c) == Ok::<Shell, RefusalView>(Shell::Cmd)
            &&& n == "pwsh"@ || n == "powershell"@ ==> shell_for(args, c) == Ok::<
                Shell,
                RefusalView,
            >(Shell::PowerShell)
            &&& (n.len() > 0 && n != "bash"@ && n != "zsh"@ && n != "sh"@ && n != "cmd"@ && n
                != "pwsh"@ && n != "powershell"@) ==> (shell_for(args, c) matches Err(e) && e.code
                == "UNKNOWN_SHELL"@)
        }),
{
    reveal_strlit("bash");
    reveal_strlit("zsh");
    reveal_strlit("sh");
    reveal_strlit("cmd");
    reveal_strlit("pwsh");
    reveal_strlit("powershell");
    assert("zsh"@[0] == 'z' && "cmd"@[0] == 'c');
    assert("bash"@[0] == 'b' && "pwsh"@[0] == 'p');
}

/// A command is handed to its shell whole, as one argument, behind the shell's program;
/// further arguments stand behind it in order.
pub proof fn command_is_one_argument(
    shell: Shell,
    program: Seq<char>,
    command: Seq<char>,
    args: Seq<Seq<char>>,
)
    ensures
        command_line(shell, program, command, args)[0] == program,
        shell == Shell::Bash || shell == Shell::Zsh || shell == Shell::Sh ==> {
            let line = command_line(shell, program, command, args);
            &&& line[1] == "-c"@
            &&& line[2] == command
            &&& args.len() == 0 ==> line.len() == 3
            &&& args.len() > 0 ==> line.len() == 4 + args.len() && line[3] == "_"@ && line.skip(4)
                == args
        },
        shell == Shell::Cmd ==> command_line(shell, program, command, args) == seq![
            program,
            "/c"@,
            command,
        ],
        shell == Shell::PowerShell ==> {
            let line = command_line(shell, program, command, args);
            let n = line.len() - args.len();
            &&& line.contains("-NoProfile"@)
            &&& line.contains("-NonInteractive"@)
            &&& args.len() > 0 ==> n >= 2 && line[n - 2] == "-CommandWithArgs"@ && line[n - 1]
                == command && line.skip(n) == args
            &&& args.len() == 0 ==> n >= 2 && line[n - 2] == "-EncodedCommand"@ && line[n - 1]
                == encoded(utf16_bytes(command))
        },
{
    let line = command_line(shell, program, command, args);
    match shell {
        Shell::PowerShell => {
            let n = line.len() - args.len();
            assert(line[2] == "-NoProfile"@);
            assert(line[3] == "-NonInteractive"@);
            if args.len() > 0 {
                assert(line.skip(n) =~= args);
            }
        },
        Shell::Cmd => {},
        _ => {
            if args.len() > 0 {
                assert(line.skip(4) =~= args);
            }
        },
    }
}

/// The plan of a command runs that command in its shell.
pub proof fn planned_command_runs_in_its_shell(args: Json, c: RunContext)
    requires
        str_at(args, "command"@) is Some,
        run_plan(args, c) is Ok,
    ensures
        ({
            let command = str_at(args, "command"@)->0;
            let argv = run_plan(args, c)->Ok_0.argv;
            let extra = match arr_at(args, "args"@) {
                Some(items) => strings_of(items),
                None => Seq::empty(),
            };
            &&& command.len() > 0
            &&& shell_for(args, c) is Ok
            &&& argv == command_line(
                shell_for(args, c)->Ok_0,
                program(shell_for(args, c)->Ok_0, c.paths),
                command_fixed(command),
                extra,
            )
            &&& shell_for(args, c)->Ok_0 == Shell::Cmd ==> extra.len() == 0
        }),
{
}

/// A command that is there and has a shell is planned, and an empty one is refused.
pub proof fn commands_are_planned(args: Json, c: RunContext, command: Seq<char>)
    requires
        str_at(args, "command"@) == Some(command),
    ensures
        command.len() == 0 ==> (run_plan(args, c) matches Err(e) && e.code == "EMPTY_COMMAND"@),
        command.len() > 0 ==> (shell_for(args, c) matches Err(e) ==> run_plan(args, c) == Err::<
            crate::exec::handler::RunPlanView,
            RefusalView,
        >(e)),
        command.len() > 0 ==> (shell_for(args, c) matches Ok(s) ==> (s != Shell::Cmd || arr_at(
            args,
            "args"@,
        ) is None ==> run_plan(args, c) is Ok)),
{
}

/// Without a command the given list is run, if there is a string in it and neither a shell
/// nor arguments for one stand beside it.
pub proof fn argv_is_run_as_given(args: Json, c: RunContext, items: Seq<Json>)
    requires
        str_at(args, "command"@) is None,
        str_at(args, "shell"@) matches Some(n) ==> n.len() == 0,
        arr_at(args, "args"@) matches Some(more) ==> more.len() == 0,
        arr_at(args, "argv"@) == Some(items),
    ensures
        run_plan(args, c) is Ok <==> strings_of(items).len() > 0,
        run_plan(args, c) matches Err(e) ==> e.code == "EMPTY_ARGV"@,
        run_plan(args, c) matches Ok(p) ==> {
            &&& p.argv.len() == strings_of(items).len()
            &&& p.argv[0] == strings_of(items)[0]
            &&& !is_ripgrep(strings_of(items)[0]) ==> p.argv == strings_of(items)
        },
{
    if strings_of(items).len() > 0 {
        crate::exec::handler::other_arguments_are_kept(strings_of(items), 0);
    }
}

/// The limits of a run: those that are asked for, where they lie in their ranges; else the
/// tool's own time limit, kept in its range, and the policy's number of tokens.
pub proof fn limits_are_those_asked_for(args: Json, c: RunContext)
    requires
        run_plan(args, c) is Ok,
    ensures
        ({
            let p = run_plan(args, c)->Ok_0;
            let secs = u64_at(args, "timeout_secs"@);
            let tokens = u64_at(args, "max_output_tokens"@);
            let behind = u64_at(args, "background_after_secs"@);
            &&& secs matches Some(n) ==> (1 <= n <= 3600 ==> p.timeout_secs == n)
            &&& (secs is None || secs->0 == 0 || secs->0 > 3600) ==> {
                &&& c.timeout_secs is None ==> p.timeout_secs == 30
                &&& c.timeout_secs matches Some(m) ==> {
                    &&& m == 0 ==> p.timeout_secs == 1
                    &&& 1 <= m <= 3600 ==> p.timeout_secs == m
                    &&& m > 3600 ==> p.timeout_secs == 3600
                }
            }
            &&& tokens matches Some(n) ==> (100 <= n <= 50000 ==> p.max_output_tokens == n)
            &&& (tokens is None || tokens->0 < 100 || tokens->0 > 50000) ==> (
            c.policy_tokens matches Some(m) ==> p.max_output_tokens == m)
            &&& (tokens is None || tokens->0 < 100 || tokens->0 > 50000) && c.policy_tokens is None
                ==> p.max_output_tokens == u32::MAX
            &&& behind matches Some(n) ==> (1 <= n <= 3600 ==> p.background_after_secs == Some(n))
            &&& (behind is None || behind->0 == 0 || behind->0 > 3600)
                ==> p.background_after_secs is None
            &&& p.cwd == str_at(args, "cwd"@)
        }),
{
}

/// Of the variables of a call those with a text are set, all of them and in order; without
/// any, none is.
pub proof fn variables_with_a_text_are_set(args: Json, pairs: Seq<(String, Json)>)
    ensures
        string_pairs(pairs) == pairs.filter(|p: (String, Json)| p.1 is Str).map_values(
            |p: (String, Json)| (p.0@, p.1->Str_0@),
        ),
        member(args, "env"@) matches Some(Json::Obj(v)) ==> (v@ == pairs ==> {
            &&& string_pairs(pairs).len() > 0 ==> env_for(args) == Some(string_pairs(pairs))
            &&& string_pairs(pairs).len() == 0 ==> env_for(args) is None
        }),
        member(args, "env"@) is None ==> env_for(args) is None,
    decreases pairs.len(),
{
    reveal(Seq::filter);
    let is = |p: (String, Json)| p.1 is Str;
    let of = |p: (String, Json)| (p.0@, p.1->Str_0@);
    if pairs.len() > 0 {
        let front = pairs.drop_last();
        variables_with_a_text_are_set(args, front);
        if pairs.last().1 is Str {
            assert(front.filter(is).push(pairs.last()).map_values(of) =~= front.filter(
                is,
            ).map_values(of).push(of(pairs.last())));
        }
    }
    assert(string_pairs(pairs) =~= pairs.filter(is).map_values(of));
}

/// Of a call of ripgrep, in whatever case its name is written, `-rn` becomes `-n` and what
/// stands behind it stays.
pub proof fn ripgrep_gets_its_own_option(argv: Seq<Seq<char>>, i: int, rest: Seq<char>)
    requires
        1 <= i < argv.len(),
        argv[0].len() == 2,
        argv[0][0] == 'r' || argv[0][0] == 'R',
        argv[0][1] == 'g' || argv[0][1] == 'G',
        argv[i] == "-rn"@ + rest,
    ensures
        habits_fixed(argv)[i] == "-n"@ + rest,
{
    reveal_strlit("rg");
    reveal_strlit("-rn");
    assert(('R' as u32) + 32 == 'r' as u32);
    assert(in_lower(argv[0]) =~= "rg"@);
    assert(argv[i].take(3) =~= "-rn"@);
    assert(argv[i].skip(3) =~= rest);
}

/// Letters of ASCII are put in lower case, and nothing else is changed.
pub proof fn only_capitals_change(s: Seq<char>, i: int)
    requires
        0 <= i < s.len(),
    ensures
        in_lower(s).len() == s.len(),
        !('A' <= s[i] <= 'Z') ==> in_lower(s)[i] == s[i],
        'A' <= s[i] <= 'Z' ==> 'a' <= in_lower(s)[i] <= 'z' && in_lower(s)[i] as u32 - 'a' as u32
            == s[i] as u32 - 'A' as u32,
{
}

/// Where a run starts: in the directory that is asked for, else in the workspace.
pub proof fn run_starts_where_asked(
    asked: Option<Seq<char>>,
    resolved: Seq<char>,
    workspace: Seq<char>,
)
    ensures
        asked is Some && resolved.len() > 0 ==> start_dir(asked, resolved, workspace) == Some(
            resolved,
        ),
        asked is Some && resolved.len() == 0 ==> start_dir(asked, resolved, workspace) == asked,
        asked is None && workspace.len() > 0 && workspace != "."@ ==> start_dir(
            asked,
            resolved,
            workspace,
        ) == Some(workspace),
        asked is None && (workspace.len() == 0 || workspace == "."@) ==> start_dir(
            asked,
            resolved,
            workspace,
        ) is None,
{
}

/// Each shell that is there is named, in this order, with commas between.
pub proof fn shells_are_named(bash: bool, pwsh: bool, cmd: bool)
    ensures
        !bash && !pwsh && !cmd ==> shells_text(bash, pwsh, cmd) == "none detected"@,
        bash && !pwsh && !cmd ==> shells_text(bash, pwsh, cmd) == "bash"@,
        !bash && pwsh && !cmd ==> shells_text(bash, pwsh, cmd) == "pwsh"@,
        !bash && !pwsh && cmd ==> shells_text(bash, pwsh, cmd) == "cmd"@,
        bash && pwsh && !cmd ==> shells_text(bash, pwsh, cmd) == "bash"@ + ", "@ + "pwsh"@,
        bash && !pwsh && cmd ==> shells_text(bash, pwsh, cmd) == "bash"@ + ", "@ + "cmd"@,
        !bash && pwsh && cmd ==> shells_text(bash, pwsh, cmd) == "pwsh"@ + ", "@ + "cmd"@,
        bash && pwsh && cmd ==> shells_text(bash, pwsh, cmd) == "bash"@ + ", "@ + "pwsh"@ + ", "@
            + "cmd"@,
{
    reveal_with_fuel(join, 4);
    let e = Seq::<Seq<char>>::empty();
    let b = "bash"@;
    let p = "pwsh"@;
    let c = "cmd"@;
    assert(seq![b] + e + e =~= seq![b]);
    assert(e + seq![p] + e =~= seq![p]);
    assert(e + e + seq![c] =~= seq![c]);
    assert(seq![b] + seq![p] + e =~= seq![b, p]);
    assert(seq![b] + e + seq![c] =~= seq![b, c]);
    assert(e + seq![p] + seq![c] =~= seq![p, c]);
    assert(seq![b] + seq![p] + seq![c] =~= seq![b, p, c]);
    assert(seq![b, p].drop_last() =~= seq![b]);
    assert(seq![b, c].drop_last() =~= seq![b]);
    assert(seq![p, c].drop_last() =~= seq![p]);
    assert(seq![b, p, c].drop_last() =~= seq![b, p]);
}

/// The shell that is used when none is asked for is one that was found, if any was.
pub proof fn detected_shell_is_there(p: ShellProbe)
    ensures
        p.windows && (p.pwsh || p.powershell) ==> default_shell(p) == Shell::PowerShell,
        p.windows && !p.pwsh && !p.powershell && p.bash_path is Some ==> default_shell(p)
            == Shell::Bash,
        p.windows && !p.pwsh && !p.powershell && p.bash_path is None ==> default_shell(p)
            == Shell::Cmd,
        !p.windows && p.bash ==> default_shell(p) == Shell::Bash,
        !p.windows && !p.bash ==> default_shell(p) == Shell::Sh,
{
}

/// A shell's program is where the shell was found, else its plain name.
pub proof fn shell_program_is_where_it_was_found(paths: ShellPaths)
    ensures
        paths.bash matches Some(p) ==> program(Shell::Bash, paths) == p@,
        paths.bash is None ==> program(Shell::Bash, paths) == "bash"@,
        paths.pwsh matches Some(p) ==> program(Shell::PowerShell, paths) == p@,
        paths.pwsh is None ==> program(Shell::PowerShell, paths) == "pwsh"@,
        program(Shell::Zsh, paths) == "zsh"@,
        program(Shell::Sh, paths) == "sh"@,
        program(Shell::Cmd, paths) == "cmd"@,
{
}

/// The program file of ripgrep is taken for ripgrep too, and no other name is.
pub proof fn ripgrep_has_two_names(name: Seq<char>)
    ensures
        is_ripgrep(name) ==> name.len() == 2 || name.len() == 6,
        is_ripgrep(name) ==> (name[0] == 'r' || name[0] == 'R') && (name[1] == 'g' || name[1] == 'G'),
        name == "rg.exe"@ || name == "rg"@ ==> is_ripgrep(name),
{
    reveal_strlit("rg");
    reveal_strlit("rg.exe");
    if name == "rg.exe"@ || name == "rg"@ {
        assert(in_lower(name) =~= name);
    }
    if is_ripgrep(name) {
        assert(in_lower(name).len() == name.len());
        assert(in_lower(name)[0] == ascii_lower(name[0]));
        assert(in_lower(name)[1] == ascii_lower(name[1]));
        assert("rg"@[0] == 'r' && "rg"@[1] == 'g');
        assert("rg.exe"@[0] == 'r' && "rg.exe"@[1] == 'g');
    }
}

/// Why a call runs nothing: it names neither a command nor a list, or a shell or arguments for
/// one beside a list, or arguments for a shell that takes none.
pub proof fn calls_that_run_nothing_say_why(args: Json, c: RunContext, name: Seq<char>)
    ensures
        str_at(args, "command"@) is None ==> {
            &&& str_at(args, "shell"@) == Some(name) && name.len() > 0 ==> (run_plan(
                args,
                c,
            ) matches Err(e) && e.code == "ARGV_IGNORES_SHELL"@)
            &&& str_at(args, "shell"@) is None ==> (arr_at(args, "args"@) matches Some(items) ==> (
            items.len() > 0 ==> (run_plan(args, c) matches Err(e) && e.code == "ARGV_IGNORES_ARGS"@)))
            &&& str_at(args, "shell"@) is None && arr_at(args, "args"@) is None && arr_at(
                args,
                "argv"@,
            ) is None ==> (run_plan(args, c) matches Err(e) && e.code == "MISSING_ARGV"@)
        },
        str_at(args, "command"@) is Some && str_at(args, "command"@)->0.len() > 0 && shell_for(args, c)
            == Ok::<Shell, RefusalView>(Shell::Cmd) ==> (arr_at(args, "args"@) matches Some(items)
            ==> (strings_of(items).len() > 0 ==> (run_plan(args, c) matches Err(e) && e.code
            == "ARGS_NOT_SUPPORTED"@))),
{
}

} // verus!
