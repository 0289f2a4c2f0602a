//! The options of the server.
use vstd::prelude::*;

use crate::text;
use crate::text::{chars_of, parse_number, same_text, NumberError};

verus! {

/// The options of the server.
#[derive(Clone, Debug)]
pub struct ServerOptions {
    /// Seed of the world.
    pub seed: u64,
    /// Address to listen on.
    pub bind: String,
    /// Port to listen on; the system picks one for zero.
    pub port: u16,
    /// Files of the certificate and its key.
    pub cert: Option<String>,
    pub key: Option<String>,
    /// Whether to report what is streamed.
    pub debug: bool,
    /// Directory of the save.
    pub data_dir: String,
}

/// What options say.
#[verifier::ext_equal]
pub struct OptionsView {
    pub seed: u64,
    pub bind: Seq<char>,
    pub port: u16,
    pub cert: Option<Seq<char>>,
    pub key: Option<Seq<char>>,
    pub debug: bool,
    pub data_dir: Seq<char>,
}

/// What an optional text says.
pub open spec fn text_view(s: Option<String>) -> Option<Seq<char>> {
    match s {
        Some(t) => Some(t@),
        None => None,
    }
}

impl View for ServerOptions {
    type V = OptionsView;

    open spec fn view(&self) -> OptionsView {
        OptionsView {
            seed: self.seed,
            bind: self.bind@,
            port: self.port,
            cert: text_view(self.cert),
            key: text_view(self.key),
            debug: self.debug,
            data_dir: self.data_dir@,
        }
    }
}

impl Default for ServerOptions {
    fn default() -> (o: ServerOptions)
        ensures
            o@ == (OptionsView {
                seed: 1337,
                bind: "0.0.0.0"@,
                port: 9000,
                cert: None,
                key: None,
                debug: false,
                data_dir: "data"@,
            }),
    {
        ServerOptions {
            seed: 1337,
            bind: "0.0.0.0".to_owned(),
            port: 9000,
            cert: None,
            key: None,
            debug: false,
            data_dir: "data".to_owned(),
        }
    }
}

/// An option that takes a value.
#[derive(Clone, Copy, PartialEq, Eq, Structural, Debug)]
pub enum Flag {
    Seed,
    Port,
    Bind,
    Cert,
    Key,
}

impl Flag {
    /// How an option is written.
    pub open spec fn spec_name(self) -> Seq<char> {
        match self {
            Flag::Seed => "--seed"@,
            Flag::Port => "--port"@,
            Flag::Bind => "--bind"@,
            Flag::Cert => "--cert"@,
            Flag::Key => "--key"@,
        }
    }

    /// How an option is written.
    pub fn name(self) -> (s: &'static str)
        ensures
            s@ == self.spec_name(),
    {
        match self {
            Flag::Seed => "--seed",
            Flag::Port => "--port",
            Flag::Bind => "--bind",
            Flag::Cert => "--cert",
            Flag::Key => "--key",
        }
    }
}

/// The option that an argument names.
pub open spec fn flag_of(a: Seq<char>) -> Option<Flag> {
    if a == "--seed"@ {
        Some(Flag::Seed)
    } else if a == "--port"@ {
        Some(Flag::Port)
    } else if a == "--bind"@ {
        Some(Flag::Bind)
    } else if a == "--cert"@ {
        Some(Flag::Cert)
    } else if a == "--key"@ {
        Some(Flag::Key)
    } else {
        None
    }
}

fn find_flag(a: &str) -> (f: Option<Flag>)
    ensures
        f == flag_of(a@),
{
    if same_text(a, "--seed") {
        Some(Flag::Seed)
    } else if same_text(a, "--port") {
        Some(Flag::Port)
    } else if same_text(a, "--bind") {
        Some(Flag::Bind)
    } else if same_text(a, "--cert") {
        Some(Flag::Cert)
    } else if same_text(a, "--key") {
        Some(Flag::Key)
    } else {
        None
    }
}

/// Why arguments are not options.
#[derive(Clone, Copy, PartialEq, Eq, Structural, Debug)]
pub enum OptError {
    /// The value of an option is missing.
    MissingValue { flag: Flag },
    /// The value of an option is not a number that it can have.
    BadNumber { flag: Flag, why: NumberError },
    /// The argument at a place is no option.
    Unknown { index: usize },
}

/// What was read.
#[derive(Clone, Copy, PartialEq, Eq, Structural, Debug)]
pub enum OptStep {
    /// An option.
    Taken,
    /// An address to listen on, which may not be one.
    Bind,
    /// A call for help.
    Help,
}

/// What an option makes of the options.
pub open spec fn with_option(o: OptionsView, f: Flag, v: Seq<char>) -> Result<
    OptionsView,
    OptError,
> {
    match f {
        Flag::Seed => match text::number_of(v, u64::MAX as int) {
            Ok(n) => Ok(OptionsView { seed: n as u64, ..o }),
            Err(why) => Err(OptError::BadNumber { flag: f, why }),
        },
        Flag::Port => match text::number_of(v, u16::MAX as int) {
            Ok(n) => Ok(OptionsView { port: n as u16, ..o }),
            Err(why) => Err(OptError::BadNumber { flag: f, why }),
        },
        Flag::Bind => Ok(OptionsView { bind: v, ..o }),
        Flag::Cert => Ok(OptionsView { cert: Some(v), ..o }),
        Flag::Key => Ok(OptionsView { key: Some(v), ..o }),
    }
}

/// What the arguments from `i` on begin with, what they make of the options, and
/// where the next option begins.
pub open spec fn option_at(args: Seq<String>, i: int, o: OptionsView) -> Result<
    (OptStep, OptionsView, int),
    OptError,
> {
    let a = args[i]@;
    if a == "-h"@ || a == "--help"@ {
        Ok((OptStep::Help, o, i + 1))
    } else {
        match flag_of(a) {
            None => Err(OptError::Unknown { index: i as usize }),
            Some(f) => if i + 1 >= args.len() {
                Err(OptError::MissingValue { flag: f })
            } else {
                match with_option(o, f, args[i + 1]@) {
                    Ok(p) => Ok(
                        (
                            if f == Flag::Bind {
                                OptStep::Bind
                            } else {
                                OptStep::Taken
                            },
                            p,
                            i + 2,
                        ),
                    ),
                    Err(e) => Err(e),
                }
            },
        }
    }
}

/// The value of an option, at `i`, and on to the argument after it.
pub fn next_value(args: &[String], i: &mut usize, flag: Flag) -> (r: Result<String, OptError>)
    requires
        *old(i) <= args@.len(),
    ensures
        match r {
            Ok(v) => *old(i) < args@.len() && v@ == args@[*old(i) as int]@ && *final(i) == *old(i)
                + 1,
            Err(e) => *old(i) == args@.len() && e == (OptError::MissingValue { flag }) && *final(i)
                == *old(i),
        },
{
    if *i >= args.len() {
        return Err(OptError::MissingValue { flag });
    }
    let v: String = args[*i].clone();
    *i = *i + 1;
    Ok(v)
}

/// Reads one option. An address to listen on is taken as it is.
pub fn parse_opt(args: &[String], i: &mut usize, opts: &mut ServerOptions) -> (r: Result<
    OptStep,
    OptError,
>)
    requires
        *old(i) < args@.len(),
    ensures
        match r {
            Ok(step) => option_at(args@, *old(i) as int, old(opts)@) == Ok::<
                (OptStep, OptionsView, int),
                OptError,
            >((step, final(opts)@, *final(i) as int)),
            Err(e) => option_at(args@, *old(i) as int, old(opts)@) == Err::<
                (OptStep, OptionsView, int),
                OptError,
            >(e) && final(opts)@ == old(opts)@ && *final(i) == (if e is BadNumber {
                *old(i) + 2
            } else {
                *old(i) + 1
            }),
        },
{
    let at: usize = *i;
    let end: usize = args.len();
    *i = at + 1;
    if same_text(&args[at], "-h") || same_text(&args[at], "--help") {
        return Ok(OptStep::Help);
    }
    let flag = match find_flag(&args[at]) {
        Some(f) => f,
        None => return Err(OptError::Unknown { index: at }),
    };
    let v: String = match next_value(args, i, flag) {
        Ok(v) => v,
        Err(e) => return Err(e),
    };
    match flag {
        Flag::Seed => match parse_number(chars_of(&v).as_slice(), u64::MAX) {
            Ok(n) => {
                opts.seed = n;
            },
            Err(why) => return Err(OptError::BadNumber { flag, why }),
        },
        Flag::Port => match parse_number(chars_of(&v).as_slice(), u16::MAX as u64) {
            Ok(n) => {
                opts.port = n as u16;
            },
            Err(why) => return Err(OptError::BadNumber { flag, why }),
        },
        Flag::Bind => {
            opts.bind = v;
            return Ok(OptStep::Bind);
        },
        Flag::Cert => {
            opts.cert = Some(v);
        },
        Flag::Key => {
            opts.key = Some(v);
        },
    }
    Ok(OptStep::Taken)
}

/// Whether the files of the certificate and its key are given together, or
/// neither is.
pub fn tls_is_paired(opts: &ServerOptions) -> (r: bool)
    ensures
        r == (opts@.cert is Some == opts@.key is Some),
{
    opts.cert.is_some() == opts.key.is_some()
}

// ---- Laws ------------------------------------------------------------------------

/// An option changes nothing but its own value.
pub proof fn options_do_not_interfere(o: OptionsView, f: Flag, v: Seq<char>)
    requires
        with_option(o, f, v) is Ok,
    ensures
        ({
            let p = with_option(o, f, v)->Ok_0;
            &&& f != Flag::Seed ==> p.seed == o.seed
            &&& f != Flag::Port ==> p.port == o.port
            &&& f != Flag::Bind ==> p.bind == o.bind
            &&& f != Flag::Cert ==> p.cert == o.cert
            &&& f != Flag::Key ==> p.key == o.key
            &&& p.debug == o.debug
            &&& p.data_dir == o.data_dir
        }),
{
}

/// Every option is read back from the way it is written.
pub proof fn flags_read_back(f: Flag)
    ensures
        flag_of(f.spec_name()) == Some(f),
{
    reveal_strlit("--seed");
    reveal_strlit("--port");
    reveal_strlit("--bind");
    reveal_strlit("--cert");
    reveal_strlit("--key");
    assert("--seed"@[2] != "--port"@[2]);
    assert("--seed"@[2] != "--bind"@[2]);
    assert("--port"@[2] != "--bind"@[2]);
    assert("--seed"@[2] != "--cert"@[2]);
    assert("--port"@[2] != "--cert"@[2]);
    assert("--bind"@[2] != "--cert"@[2]);
    assert("--key"@.len() == 5);
}

} // verus!
