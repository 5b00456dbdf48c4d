//! Shells: how one is chosen, and the argument list that runs a command in it.

use vstd::prelude::*;
use vstd::utf8::{char_is_scalar, char_u32_cast};

use crate::base64::{base64_encode, bytes_of, decoding_undoes_encoding, digits_of, encoded};
use crate::json::{opt_text, text_eq, texts};
use crate::text::chars_of;

verus! {

/// A shell.
#[derive(Debug, Clone, Copy, PartialEq, Eq, Structural)]
pub enum Shell {
    Bash,
    Zsh,
    Sh,
    PowerShell,
    Cmd,
}

/// Where bash and PowerShell were found, as far as they were looked for.
#[derive(Debug, PartialEq, Eq)]
pub struct ShellPaths {
    pub bash: Option<String>,
    pub pwsh: Option<String>,
}

/// What a look at the machine found.
#[derive(Debug, PartialEq, Eq)]
pub struct ShellProbe {
    pub windows: bool,
    /// Whether `pwsh` is on the path.
    pub pwsh: bool,
    /// Whether `powershell` is on the path.
    pub powershell: bool,
    /// A bash on Windows that is no WSL wrapper.
    pub bash_path: Option<String>,
    /// Whether `bash` is on the path.
    pub bash: bool,
}

/// The shell that a name asks for.
pub open spec fn named_shell(name: Seq<char>) -> Option<Shell> {
    if name == "bash"@ {
        Some(Shell::Bash)
    } else if name == "zsh"@ {
        Some(Shell::Zsh)
    } else if name == "sh"@ {
        Some(Shell::Sh)
    } else if name == "pwsh"@ || name == "powershell"@ {
        Some(Shell::PowerShell)
    } else if name == "cmd"@ {
        Some(Shell::Cmd)
    } else {
        None
    }
}

/// The shell that is used when none is asked for: on Windows PowerShell, then a
/// bash that is no WSL wrapper, then `cmd`; elsewhere bash, then `sh`.
pub open spec fn default_shell(p: ShellProbe) -> Shell {
    if p.windows {
        if p.pwsh || p.powershell {
            Shell::PowerShell
        } else if p.bash_path is Some {
            Shell::Bash
        } else {
            Shell::Cmd
        }
    } else if p.bash {
        Shell::Bash
    } else {
        Shell::Sh
    }
}

/// The program that is started for a shell.
pub open spec fn program(shell: Shell, paths: ShellPaths) -> Seq<char> {
    match shell {
        Shell::Bash => match paths.bash {
            Some(p) => p@,
            None => "bash"@,
        },
        Shell::Zsh => "zsh"@,
        Shell::Sh => "sh"@,
        Shell::PowerShell => match paths.pwsh {
            Some(p) => p@,
            None => "pwsh"@,
        },
        Shell::Cmd => "cmd"@,
    }
}

/// The options that PowerShell is always started with.
pub open spec fn powershell_options() -> Seq<Seq<char>> {
    seq![
        "-NoLogo"@,
        "-NoProfile"@,
        "-NonInteractive"@,
        "-ExecutionPolicy"@,
        "Bypass"@,
        "-InputFormat"@,
        "Text"@,
        "-OutputFormat"@,
        "Text"@,
    ]
}

/// The argument list that runs `command` in a shell. A POSIX shell gets `args` as
/// `$1` and on, behind a placeholder for `$0`; PowerShell gets them as `$args`, and
/// without any it gets the command encoded; `cmd` takes none.
pub open spec fn command_line(
    shell: Shell,
    program: Seq<char>,
    command: Seq<char>,
    args: Seq<Seq<char>>,
) -> Seq<Seq<char>> {
    match shell {
        Shell::Bash | Shell::Zsh | Shell::Sh => {
            let plain = seq![program, "-c"@, command];
            if args.len() > 0 {
                plain.push("_"@) + args
            } else {
                plain
            }
        },
        Shell::PowerShell => {
            let start = seq![program] + powershell_options();
            if args.len() > 0 {
                start + seq!["-CommandWithArgs"@, command] + args
            } else {
                start + seq!["-EncodedCommand"@, encoded(utf16_bytes(command))]
            }
        },
        Shell::Cmd => seq![program, "/c"@, command],
    }
}

/// A sixteen-bit unit, low byte first.
pub open spec fn low_first(u: int) -> Seq<u8> {
    seq![(u % 256) as u8, (u / 256) as u8]
}

/// A character in UTF-16, low bytes first: one unit, or a surrogate pair.
pub open spec fn utf16_of(c: char) -> Seq<u8> {
    let n = (c as u32) as int;
    if n < 0x10000 {
        low_first(n)
    } else {
        low_first(0xd800 + (n - 0x10000) / 0x400) + low_first(0xdc00 + (n - 0x10000) % 0x400)
    }
}

/// A text in UTF-16, low bytes first.
pub open spec fn utf16_bytes(s: Seq<char>) -> Seq<u8>
    decreases s.len(),
{
    if s.len() == 0 {
        Seq::empty()
    } else {
        utf16_of(s[0]) + utf16_bytes(s.skip(1))
    }
}

fn push_unit(out: &mut Vec<u8>, u: u32)
    requires
        u < 0x10000,
    ensures
        final(out)@ == old(out)@ + low_first(u as int),
{
    out.push((u % 256) as u8);
    out.push((u / 256) as u8);
    proof {
        assert(out@ =~= old(out)@ + low_first(u as int));
    }
}

/// The form that PowerShell's `-EncodedCommand` takes: UTF-16, low bytes first, in
/// Base64.
pub fn ps_encode(command: &str) -> (out: String)
    ensures
        out@ == encoded(utf16_bytes(command@)),
{
    let s: Vec<char> = chars_of(command);
    let mut out: Vec<u8> = Vec::new();
    let mut i: usize = 0;
    proof {
        assert(s@.skip(0) =~= s@);
        assert(out@ + utf16_bytes(s@) =~= utf16_bytes(s@));
    }
    while i < s.len()
        invariant
            i <= s@.len(),
            s@ == command@,
            out@ + utf16_bytes(s@.skip(i as int)) == utf16_bytes(s@),
        decreases s@.len() - i,
    {
        let c: char = s[i];
        proof {
            char_is_scalar(c);
        }
        let n: u32 = c as u32;
        let ghost before = out@;
        if n < 0x10000 {
            push_unit(&mut out, n);
        } else {
            let m: u32 = n - 0x10000;
            push_unit(&mut out, 0xd800 + m / 0x400);
            push_unit(&mut out, 0xdc00 + m % 0x400);
        }
        proof {
            let rest = s@.skip(i as int);
            assert(rest.skip(1) =~= s@.skip(i + 1));
            assert(out@ =~= before + utf16_of(rest[0]));
            assert(out@ + utf16_bytes(rest.skip(1)) =~= before + utf16_bytes(rest));
        }
        i = i + 1;
    }
    proof {
        assert(out@ =~= out@ + utf16_bytes(s@.skip(i as int)));
    }
    base64_encode(out.as_slice())
}

impl ShellPaths {
    /// Nothing found yet.
    pub fn new() -> (p: Self)
        ensures
            p.bash is None,
            p.pwsh is None,
    {
        ShellPaths { bash: None, pwsh: None }
    }
}

impl Shell {
    /// The shell that a name asks for.
    pub fn from_name(name: &str) -> (r: Option<Self>)
        ensures
            r == named_shell(name@),
    {
        if text_eq(name, "bash") {
            Some(Shell::Bash)
        } else if text_eq(name, "zsh") {
            Some(Shell::Zsh)
        } else if text_eq(name, "sh") {
            Some(Shell::Sh)
        } else if text_eq(name, "pwsh") || text_eq(name, "powershell") {
            Some(Shell::PowerShell)
        } else if text_eq(name, "cmd") {
            Some(Shell::Cmd)
        } else {
            None
        }
    }

    /// The shell that is used when none is asked for, and where it was found.
    pub fn detect(probe: ShellProbe) -> (r: (Self, ShellPaths))
        ensures
            r.0 == default_shell(probe),
            opt_text(r.1.pwsh) == if !probe.windows {
                None
            } else if probe.pwsh {
                Some("pwsh"@)
            } else if probe.powershell {
                Some("powershell"@)
            } else {
                None
            },
            opt_text(r.1.bash) == if r.0 == Shell::Bash && probe.windows {
                opt_text(probe.bash_path)
            } else {
                None
            },
    {
        if probe.windows {
            if probe.pwsh {
                return (Shell::PowerShell, ShellPaths { bash: None, pwsh: Some("pwsh".to_owned()) });
            }
            if probe.powershell {
                return (
                    Shell::PowerShell,
                    ShellPaths { bash: None, pwsh: Some("powershell".to_owned()) },
                );
            }
            match probe.bash_path {
                Some(p) => (Shell::Bash, ShellPaths { bash: Some(p), pwsh: None }),
                None => (Shell::Cmd, ShellPaths::new()),
            }
        } else if probe.bash {
            (Shell::Bash, ShellPaths::new())
        } else {
            (Shell::Sh, ShellPaths::new())
        }
    }

    /// The program that is started for this shell.
    pub fn path<'a>(&self, paths: &'a ShellPaths) -> (r: &'a str)
        ensures
            r@ == program(*self, *paths),
    {
        match self {
            Shell::Bash => match &paths.bash {
                Some(p) => p.as_str(),
                None => "bash",
            },
            Shell::Zsh => "zsh",
            Shell::Sh => "sh",
            Shell::PowerShell => match &paths.pwsh {
                Some(p) => p.as_str(),
                None => "pwsh",
            },
            Shell::Cmd => "cmd",
        }
    }

    /// The argument list that runs `command` in this shell.
    pub fn derive_exec_args_with(
        &self,
        paths: &ShellPaths,
        command: &str,
        args: Option<&[String]>,
    ) -> (out: Vec<String>)
        ensures
            texts(out@) == command_line(
                *self,
                program(*self, *paths),
                command@,
                match args {
                    Some(a) => texts(a@),
                    None => Seq::empty(),
                },
            ),
    {
        let mut out: Vec<String> = Vec::new();
        out.push(self.path(paths).to_owned());
        let ghost given = match args {
            Some(a) => texts(a@),
            None => Seq::empty(),
        };
        let extra: bool = match args {
            Some(a) => a.len() > 0,
            None => false,
        };
        match self {
            Shell::Bash | Shell::Zsh | Shell::Sh => {
                out.push("-c".to_owned());
                out.push(command.to_owned());
                if extra {
                    out.push("_".to_owned());
                }
            },
            Shell::PowerShell => {
                out.push("-NoLogo".to_owned());
                out.push("-NoProfile".to_owned());
                out.push("-NonInteractive".to_owned());
                out.push("-ExecutionPolicy".to_owned());
                out.push("Bypass".to_owned());
                out.push("-InputFormat".to_owned());
                out.push("Text".to_owned());
                out.push("-OutputFormat".to_owned());
                out.push("Text".to_owned());
                if extra {
                    out.push("-CommandWithArgs".to_owned());
                    out.push(command.to_owned());
                } else {
                    out.push("-EncodedCommand".to_owned());
                    out.push(ps_encode(command));
                }
            },
            Shell::Cmd => {
                out.push("/c".to_owned());
                out.push(command.to_owned());
            },
        }
        let cmd: bool = match self {
            Shell::Cmd => true,
            _ => false,
        };
        let ghost fixed = texts(out@);
        match args {
            Some(a) => {
                if !cmd && a.len() > 0 {
                    push_all(&mut out, a);
                }
            },
            None => {},
        }
        proof {
            let line = command_line(*self, program(*self, *paths), command@, given);
            assert(fixed =~= line.take(fixed.len() as int));
            assert(texts(out@) =~= line);
        }
        out
    }
}

/// Appends copies of strings.
pub fn push_all(out: &mut Vec<String>, more: &[String])
    ensures
        texts(final(out)@) == texts(old(out)@) + texts(more@),
{
    let mut i: usize = 0;
    while i < more.len()
        invariant
            i <= more@.len(),
            texts(out@) == texts(old(out)@) + texts(more@).take(i as int),
        decreases more@.len() - i,
    {
        let ghost before = out@;
        out.push(more[i].clone());
        proof {
            assert(texts(out@) =~= texts(before).push(more@[i as int]@));
            assert(texts(more@).take(i + 1) =~= texts(more@).take(i as int).push(
                more@[i as int]@,
            ));
        }
        i = i + 1;
    }
    proof {
        assert(texts(more@).take(i as int) =~= texts(more@));
    }
}

proof fn lemma_utf16_first(a: Seq<char>, b: Seq<char>)
    requires
        a.len() > 0,
        b.len() > 0,
        utf16_bytes(a) == utf16_bytes(b),
    ensures
        a[0] == b[0],
        utf16_bytes(a.skip(1)) == utf16_bytes(b.skip(1)),
{
    let (x, y) = (utf16_of(a[0]), utf16_of(b[0]));
    let (ra, rb) = (utf16_bytes(a.skip(1)), utf16_bytes(b.skip(1)));
    let (n, m) = (a[0] as u32, b[0] as u32);
    let all = utf16_bytes(a);
    char_is_scalar(a[0]);
    char_is_scalar(b[0]);
    assert(all == x + ra);
    assert(all == y + rb);
    assert(all[0] == x[0] && all[1] == x[1]);
    assert(all[0] == y[0] && all[1] == y[1]);
    assert(x.len() == y.len()) by {
        assert((x.len() == 4) == (0xd8 <= x[1] < 0xdc));
        assert((y.len() == 4) == (0xd8 <= y[1] < 0xdc));
    }
    if x.len() == 4 {
        assert(all[2] == x[2] && all[3] == x[3]);
        assert(all[2] == y[2] && all[3] == y[3]);
    }
    assert(n == m);
    char_u32_cast(a[0], n);
    char_u32_cast(b[0], m);
    assert((x + ra).skip(x.len() as int) =~= ra);
    assert((y + rb).skip(y.len() as int) =~= rb);
}

/// No two texts have the same UTF-16 form.
pub proof fn utf16_is_unambiguous(a: Seq<char>, b: Seq<char>)
    requires
        utf16_bytes(a) == utf16_bytes(b),
    ensures
        a == b,
    decreases a.len(),
{
    if a.len() == 0 || b.len() == 0 {
        if a.len() > 0 {
            assert(utf16_bytes(a).len() > 0);
        }
        if b.len() > 0 {
            assert(utf16_bytes(b).len() > 0);
        }
        assert(a =~= b);
    } else {
        lemma_utf16_first(a, b);
        utf16_is_unambiguous(a.skip(1), b.skip(1));
        assert(a =~= seq![a[0]] + a.skip(1));
        assert(b =~= seq![b[0]] + b.skip(1));
    }
}

/// A command survives its encoding: decoding gives back its UTF-16 form, and no
/// other command is encoded to the same text.
pub proof fn encoded_command_is_unambiguous(a: Seq<char>, b: Seq<char>)
    ensures
        digits_of(encoded(utf16_bytes(a))) is Ok,
        bytes_of(digits_of(encoded(utf16_bytes(a)))->Ok_0) == utf16_bytes(a),
        encoded(utf16_bytes(a)) == encoded(utf16_bytes(b)) ==> a == b,
{
    decoding_undoes_encoding(utf16_bytes(a));
    decoding_undoes_encoding(utf16_bytes(b));
    if encoded(utf16_bytes(a)) == encoded(utf16_bytes(b)) {
        utf16_is_unambiguous(a, b);
    }
}

/// Arguments reach the command's parameters unchanged: every shell but `cmd` gets
/// them verbatim at the end of its argument list, whatever they hold.
pub proof fn arguments_are_passed_verbatim(
    shell: Shell,
    program: Seq<char>,
    command: Seq<char>,
    args: Seq<Seq<char>>,
)
    requires
        shell != Shell::Cmd,
    ensures
        args.len() <= command_line(shell, program, command, args).len(),
        command_line(shell, program, command, args).skip(
            command_line(shell, program, command, args).len() - args.len(),
        ) == args,
{
    let line = command_line(shell, program, command, args);
    assert(line.skip(line.len() - args.len()) =~= args);
}

} // verus!
