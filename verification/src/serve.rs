//! The command line of the tool service.

use vstd::prelude::*;

use crate::journal::tool::{number, parse_number};
use crate::json::{text_eq, texts};

verus! {

/// A service that can be started.
#[derive(Debug, PartialEq, Eq)]
pub struct ServeCall {
    pub host: String,
    pub port: u16,
    pub token: String,
}

/// A service that can be started.
#[verifier::ext_equal]
pub struct ServeView {
    pub host: Seq<char>,
    pub port: u16,
    pub token: Seq<char>,
}

impl View for ServeCall {
    type V = ServeView;

    open spec fn view(&self) -> ServeView {
        ServeView { host: self.host@, port: self.port, token: self.token@ }
    }
}

/// A port as it is written on the command line.
pub open spec fn port_of(s: Seq<char>) -> Option<u16> {
    match number(s) {
        Some(n) => if n <= 65535 {
            Some(n as u16)
        } else {
            None
        },
        None => None,
    }
}

/// The options from a place on: each takes the next argument, the last one counts, and
/// one without an argument says nothing. The token may be missing.
pub open spec fn serve_options(
    args: Seq<Seq<char>>,
    i: int,
    host: Seq<char>,
    port: u16,
    token: Seq<char>,
) -> Result<ServeView, Seq<char>>
    decreases args.len() - i,
{
    if i < 0 || i >= args.len() {
        Ok(ServeView { host, port, token })
    } else if args[i] == "--host"@ {
        if i + 1 < args.len() {
            serve_options(args, i + 2, args[i + 1], port, token)
        } else {
            Ok(ServeView { host, port, token })
        }
    } else if args[i] == "--port"@ {
        if i + 1 < args.len() {
            match port_of(args[i + 1]) {
                Some(p) => serve_options(args, i + 2, host, p, token),
                None => Err("invalid --port: "@ + args[i + 1]),
            }
        } else {
            Ok(ServeView { host, port, token })
        }
    } else if args[i] == "--token"@ {
        if i + 1 < args.len() {
            serve_options(args, i + 2, host, port, args[i + 1])
        } else {
            Ok(ServeView { host, port, token })
        }
    } else {
        Err(
            "unknown serve argument: "@ + args[i]
                + "\nusage: qaqh-workspace serve [--host H] [--port P] --token <secret>"@,
        )
    }
}

/// The service that the command line and the environment ask for: the token of the
/// environment goes first, and without any token there is no service.
pub open spec fn serve_call(args: Seq<Seq<char>>, env_token: Seq<char>) -> Result<
    ServeView,
    Seq<char>,
> {
    match serve_options(args, 0, "127.0.0.1"@, 0, Seq::empty()) {
        Err(e) => Err(e),
        Ok(v) => if env_token.len() > 0 {
            Ok(ServeView { token: env_token, ..v })
        } else if v.token.len() > 0 {
            Ok(v)
        } else {
            Err("serve requires QAQH_WORKSPACE_TOKEN env or --token <secret> (fail-closed)"@)
        },
    }
}

fn told(prefix: &str, arg: &str, suffix: &str) -> (out: String)
    ensures
        out@ == prefix@ + arg@ + suffix@,
{
    let mut out: String = prefix.to_owned();
    out.append(arg);
    out.append(suffix);
    out
}

fn read_port(text: &str) -> (r: Option<u16>)
    ensures
        r == port_of(text@),
{
    match parse_number(text) {
        Some(n) => {
            if n <= 65535 {
                Some(n as u16)
            } else {
                None
            }
        },
        None => None,
    }
}

fn parse_options(args: &[String]) -> (r: Result<ServeCall, String>)
    ensures
        match serve_options(texts(args@), 0, "127.0.0.1"@, 0, Seq::empty()) {
            Ok(v) => r matches Ok(c) && c@ == v,
            Err(e) => r matches Err(f) && f@ == e,
        },
{
    let ghost t = texts(args@);
    let mut host: String = "127.0.0.1".to_owned();
    let mut port: u16 = 0;
    let mut token: String = String::new();
    let n: usize = args.len();
    let mut i: usize = 0;
    while i < n
        invariant
            i <= n,
            n == args@.len(),
            t == texts(args@),
            serve_options(t, 0, "127.0.0.1"@, 0, Seq::empty()) == serve_options(
                t,
                i as int,
                host@,
                port,
                token@,
            ),
        decreases n - i,
    {
        let arg: &str = args[i].as_str();
        proof {
            assert(t[i as int] == arg@);
        }
        let is_host: bool = text_eq(arg, "--host");
        let is_port: bool = text_eq(arg, "--port");
        let is_token: bool = text_eq(arg, "--token");
        if !is_host && !is_port && !is_token {
            return Err(
                told(
                    "unknown serve argument: ",
                    arg,
                    "\nusage: qaqh-workspace serve [--host H] [--port P] --token <secret>",
                ),
            );
        }
        if n - i < 2 {
            return Ok(ServeCall { host, port, token });
        }
        proof {
            assert(t[i + 1] == args@[i + 1]@);
        }
        if is_host {
            host = args[i + 1].clone();
        } else if is_port {
            match read_port(args[i + 1].as_str()) {
                Some(p) => {
                    port = p;
                },
                None => {
                    let mut e: String = "invalid --port: ".to_owned();
                    e.append(args[i + 1].as_str());
                    return Err(e);
                },
            }
        } else {
            token = args[i + 1].clone();
        }
        i = i + 2;
    }
    Ok(ServeCall { host, port, token })
}

/// Reads the command line of the service; what cannot be read is answered with a message
/// and the exit code 2.
pub fn serve_main(args: &[String], env_token: &str) -> (r: Result<ServeCall, String>)
    ensures
        match serve_call(texts(args@), env_token@) {
            Ok(v) => r matches Ok(c) && c@ == v,
            Err(e) => r matches Err(f) && f@ == e,
        },
{
    let call: ServeCall = match parse_options(args) {
        Ok(c) => c,
        Err(e) => {
            return Err(e);
        },
    };
    if !env_token.is_empty() {
        return Ok(ServeCall { host: call.host, port: call.port, token: env_token.to_owned() });
    }
    if call.token.as_str().is_empty() {
        return Err(
            "serve requires QAQH_WORKSPACE_TOKEN env or --token <secret> (fail-closed)".to_owned(),
        );
    }
    Ok(call)
}

/// No service starts without a token.
pub proof fn no_service_without_a_token(args: Seq<Seq<char>>, env_token: Seq<char>)
    ensures
        serve_call(args, env_token) matches Ok(v) ==> v.token.len() > 0,
{
}

} // verus!
