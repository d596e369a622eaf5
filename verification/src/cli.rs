//! The command line's grammar: `relay ask PROMPT [--model M | --think]
//! [--max-output-tokens N] [--stream]`, `relay usage`, `relay cap show`,
//! `relay cap set [--daily-usd D] [--monthly-usd M]` and `relay models`.
//!
//! Options may come in any order, take their value as the next argument or
//! after `=`, and may each be given once. `--` ends the options. `-h`/`--help`
//! (and `help`) ask for help, `-V`/`--version` for the version.

use vstd::prelude::*;
use vstd::string::StringExecFns;
use crate::error::RelayError;
use crate::text::{chars_of, string_from_chars};

verus! {

/// What a parsed command line asks for.
pub enum CliModel {
    Ask { prompt: Seq<char>, model: Option<Seq<char>>, think: bool, max_output_tokens: u32, stream: bool },
    Usage,
    CapSet { daily_usd: Option<Seq<char>>, monthly_usd: Option<Seq<char>> },
    CapShow,
    Models,
}

/// Why a command line does not parse.
pub enum CliFault {
    Help,
    Version,
    MissingSubcommand,
    UnknownArgument(Seq<char>),
    MissingValue(Seq<char>),
    InvalidValue(Seq<char>, Seq<char>),
    MissingArgument(Seq<char>),
    Conflict(Seq<char>, Seq<char>),
    Repeated(Seq<char>),
    UnexpectedValue(Seq<char>),
}

/// Why a command line does not parse, as it is reported.
#[derive(Clone, Debug, PartialEq, Eq)]
pub enum ParseFailure {
    /// Help was asked for.
    Help,
    /// The version was asked for.
    Version,
    /// No subcommand was given.
    MissingSubcommand,
    /// An argument that the command does not take.
    UnknownArgument(String),
    /// An option that needs a value got none.
    MissingValue(String),
    /// An option's value does not parse.
    InvalidValue { arg: String, value: String },
    /// A required argument is missing.
    MissingArgument(String),
    /// Two options that exclude each other were both given.
    Conflict { first: String, second: String },
    /// An option was given more than once.
    Repeated(String),
    /// A flag was given a value.
    UnexpectedValue(String),
}

impl View for ParseFailure {
    type V = CliFault;

    open spec fn view(&self) -> CliFault {
        match self {
            ParseFailure::Help => CliFault::Help,
            ParseFailure::Version => CliFault::Version,
            ParseFailure::MissingSubcommand => CliFault::MissingSubcommand,
            ParseFailure::UnknownArgument(a) => CliFault::UnknownArgument(a@),
            ParseFailure::MissingValue(a) => CliFault::MissingValue(a@),
            ParseFailure::InvalidValue { arg, value } => CliFault::InvalidValue(arg@, value@),
            ParseFailure::MissingArgument(a) => CliFault::MissingArgument(a@),
            ParseFailure::Conflict { first, second } => CliFault::Conflict(first@, second@),
            ParseFailure::Repeated(a) => CliFault::Repeated(a@),
            ParseFailure::UnexpectedValue(a) => CliFault::UnexpectedValue(a@),
        }
    }
}

/// The arguments of `relay ask`.
#[derive(Clone, Debug, PartialEq, Eq)]
pub struct AskArgs {
    pub prompt: String,
    pub model: Option<String>,
    pub think: bool,
    pub max_output_tokens: u32,
    pub stream: bool,
}

impl AskArgs {
    /// Refuses `--stream` before anything is loaded or sent: partial responses
    /// cannot be settled yet.
    pub fn refuse_streaming(&self) -> (r: Result<(), RelayError>)
        ensures
            self.stream ==> r == Err::<(), RelayError>(RelayError::StreamingUnsupported),
            !self.stream ==> r is Ok,
    {
        if self.stream {
            Err(RelayError::StreamingUnsupported)
        } else {
            Ok(())
        }
    }
}

/// The subcommands of `relay cap`.
#[derive(Clone, Debug, PartialEq, Eq)]
pub enum CapCommand {
    SetCaps { daily_usd: Option<String>, monthly_usd: Option<String> },
    Show,
}

/// The subcommands of `relay`.
#[derive(Clone, Debug, PartialEq, Eq)]
pub enum Command {
    Ask(AskArgs),
    Usage,
    Cap { command: CapCommand },
    Models,
}

/// A parsed command line.
#[derive(Clone, Debug, PartialEq, Eq)]
pub struct Cli {
    pub command: Command,
}

/// The characters of an optional string.
pub open spec fn opt_text(o: Option<String>) -> Option<Seq<char>> {
    match o {
        Some(s) => Some(s@),
        None => None,
    }
}

impl View for Cli {
    type V = CliModel;

    open spec fn view(&self) -> CliModel {
        match self.command {
            Command::Ask(a) => CliModel::Ask {
                prompt: a.prompt@,
                model: opt_text(a.model),
                think: a.think,
                max_output_tokens: a.max_output_tokens,
                stream: a.stream,
            },
            Command::Usage => CliModel::Usage,
            Command::Cap { command } => match command {
                CapCommand::SetCaps { daily_usd, monthly_usd } => CliModel::CapSet {
                    daily_usd: opt_text(daily_usd),
                    monthly_usd: opt_text(monthly_usd),
                },
                CapCommand::Show => CliModel::CapShow,
            },
            Command::Models => CliModel::Models,
        }
    }
}

/// An argument that reads as an option: a `-` followed by something.
pub open spec fn is_flag_like(t: Seq<char>) -> bool {
    t.len() > 1 && t[0] == '-'
}

/// An argument that reads as a long option: it starts with `--`.
pub open spec fn is_long(t: Seq<char>) -> bool {
    t.len() >= 2 && t[0] == '-' && t[1] == '-'
}

/// The position of the first `=` at or after `i`, or the length.
pub open spec fn find_eq(t: Seq<char>, i: int) -> int
    decreases t.len() - i,
{
    if i < 0 || i >= t.len() {
        t.len() as int
    } else if t[i] == '=' {
        i
    } else {
        find_eq(t, i + 1)
    }
}

/// The option a long argument names: what comes before its first `=`.
pub open spec fn long_name(t: Seq<char>) -> Seq<char> {
    t.subrange(0, find_eq(t, 2))
}

/// The value a long argument carries after its first `=`, if it has one.
pub open spec fn inline_value(t: Seq<char>) -> Option<Seq<char>> {
    let k = find_eq(t, 2);
    if k < t.len() {
        Some(t.subrange(k + 1, t.len() as int))
    } else {
        None
    }
}

/// The value of the option at `i`: its inline value, else the next argument
/// unless that reads as an option.
pub open spec fn option_value(args: Seq<Seq<char>>, i: int, inline: Option<Seq<char>>) -> Option<Seq<char>> {
    match inline {
        Some(v) => Some(v),
        None => if i + 1 < args.len() && !is_flag_like(args[i + 1]) {
            Some(args[i + 1])
        } else {
            None
        },
    }
}

/// The argument after the option at `i` and its value.
pub open spec fn after_value(i: int, inline: Option<Seq<char>>) -> int {
    if inline is Some {
        i + 1
    } else {
        i + 2
    }
}

/// Whether every character is a decimal digit.
pub open spec fn all_digits(s: Seq<char>) -> bool {
    forall|i: int| 0 <= i < s.len() ==> '0' <= #[trigger] s[i] <= '9'
}

/// The number decimal digits denote.
pub open spec fn digits_value(s: Seq<char>) -> nat
    decreases s.len(),
{
    if s.len() == 0 {
        0
    } else {
        10 * digits_value(s.drop_last()) + ((s.last() as int - '0' as int) as nat)
    }
}

/// A count option's value: an optional sign and decimal digits, denoting a
/// number from 0 to `u32::MAX`.
pub open spec fn parse_u32(v: Seq<char>) -> Option<u32> {
    let signed = v.len() > 0 && (v[0] == '+' || v[0] == '-');
    let body = if signed { v.subrange(1, v.len() as int) } else { v };
    if body.len() == 0 || !all_digits(body) {
        None
    } else if v[0] == '-' && digits_value(body) != 0 {
        None
    } else if digits_value(body) > u32::MAX {
        None
    } else {
        Some(digits_value(body) as u32)
    }
}

/// The options of `relay ask` gathered so far.
pub struct AskDraft {
    pub prompt: Option<Seq<char>>,
    pub model: Option<Seq<char>>,
    pub think: bool,
    pub max_output_tokens: Option<u32>,
    pub stream: bool,
}

/// Nothing gathered yet.
pub open spec fn empty_draft() -> AskDraft {
    AskDraft { prompt: None, model: None, think: false, max_output_tokens: None, stream: false }
}

/// `relay ask` once its arguments are read: `--think` excludes `--model`, the
/// prompt is required, and the output limit defaults to 1024.
pub open spec fn ask_done(d: AskDraft) -> Result<CliModel, CliFault> {
    if d.model is Some && d.think {
        Err(CliFault::Conflict("--think"@, "--model"@))
    } else {
        match d.prompt {
            None => Err(CliFault::MissingArgument("<PROMPT>"@)),
            Some(p) => Ok(
                CliModel::Ask {
                    prompt: p,
                    model: d.model,
                    think: d.think,
                    max_output_tokens: match d.max_output_tokens {
                        Some(n) => n,
                        None => 1024,
                    },
                    stream: d.stream,
                },
            ),
        }
    }
}

/// Reads the arguments of `relay ask` from position `i`; `raw` once `--` was seen.
pub open spec fn ask_from(args: Seq<Seq<char>>, i: int, d: AskDraft, raw: bool) -> Result<CliModel, CliFault>
    decreases args.len() - i,
{
    if i < 0 || i >= args.len() {
        ask_done(d)
    } else {
        let t = args[i];
        if raw || !is_flag_like(t) {
            if d.prompt is Some {
                Err(CliFault::UnknownArgument(t))
            } else {
                ask_from(args, i + 1, AskDraft { prompt: Some(t), ..d }, raw)
            }
        } else if t == "--"@ {
            ask_from(args, i + 1, d, true)
        } else if t == "-h"@ || t == "--help"@ {
            Err(CliFault::Help)
        } else if !is_long(t) {
            Err(CliFault::UnknownArgument(t))
        } else {
            let name = long_name(t);
            let inline = inline_value(t);
            if name == "--think"@ || name == "--stream"@ {
                if inline is Some {
                    Err(CliFault::UnexpectedValue(name))
                } else if name == "--think"@ {
                    if d.think {
                        Err(CliFault::Repeated(name))
                    } else {
                        ask_from(args, i + 1, AskDraft { think: true, ..d }, raw)
                    }
                } else if d.stream {
                    Err(CliFault::Repeated(name))
                } else {
                    ask_from(args, i + 1, AskDraft { stream: true, ..d }, raw)
                }
            } else if name == "--model"@ || name == "--max-output-tokens"@ {
                match option_value(args, i, inline) {
                    None => Err(CliFault::MissingValue(name)),
                    Some(v) => if name == "--model"@ {
                        if d.model is Some {
                            Err(CliFault::Repeated(name))
                        } else {
                            ask_from(args, after_value(i, inline), AskDraft { model: Some(v), ..d }, raw)
                        }
                    } else if d.max_output_tokens is Some {
                        Err(CliFault::Repeated(name))
                    } else {
                        match parse_u32(v) {
                            None => Err(CliFault::InvalidValue(name, v)),
                            Some(n) => ask_from(
                                args,
                                after_value(i, inline),
                                AskDraft { max_output_tokens: Some(n), ..d },
                                raw,
                            ),
                        }
                    },
                }
            } else {
                Err(CliFault::UnknownArgument(name))
            }
        }
    }
}

/// Reads the arguments of a command that takes none, from position `i`.
pub open spec fn no_args_from(args: Seq<Seq<char>>, i: int, raw: bool) -> Option<CliFault>
    decreases args.len() - i,
{
    if i < 0 || i >= args.len() {
        None
    } else {
        let t = args[i];
        if !raw && t == "--"@ {
            no_args_from(args, i + 1, true)
        } else if !raw && (t == "-h"@ || t == "--help"@) {
            Some(CliFault::Help)
        } else {
            Some(CliFault::UnknownArgument(t))
        }
    }
}

/// Reads the arguments of `relay cap set` from position `i`.
pub open spec fn cap_set_from(
    args: Seq<Seq<char>>,
    i: int,
    daily: Option<Seq<char>>,
    monthly: Option<Seq<char>>,
    raw: bool,
) -> Result<CliModel, CliFault>
    decreases args.len() - i,
{
    if i < 0 || i >= args.len() {
        Ok(CliModel::CapSet { daily_usd: daily, monthly_usd: monthly })
    } else {
        let t = args[i];
        if raw || !is_flag_like(t) {
            Err(CliFault::UnknownArgument(t))
        } else if t == "--"@ {
            cap_set_from(args, i + 1, daily, monthly, true)
        } else if t == "-h"@ || t == "--help"@ {
            Err(CliFault::Help)
        } else if !is_long(t) {
            Err(CliFault::UnknownArgument(t))
        } else {
            let name = long_name(t);
            let inline = inline_value(t);
            if name == "--daily-usd"@ || name == "--monthly-usd"@ {
                match option_value(args, i, inline) {
                    None => Err(CliFault::MissingValue(name)),
                    Some(v) => if name == "--daily-usd"@ {
                        if daily is Some {
                            Err(CliFault::Repeated(name))
                        } else {
                            cap_set_from(args, after_value(i, inline), Some(v), monthly, raw)
                        }
                    } else if monthly is Some {
                        Err(CliFault::Repeated(name))
                    } else {
                        cap_set_from(args, after_value(i, inline), daily, Some(v), raw)
                    },
                }
            } else {
                Err(CliFault::UnknownArgument(name))
            }
        }
    }
}

/// A command that takes no arguments, once they are read.
pub open spec fn bare(args: Seq<Seq<char>>, i: int, m: CliModel) -> Result<CliModel, CliFault> {
    match no_args_from(args, i, false) {
        None => Ok(m),
        Some(f) => Err(f),
    }
}

/// What a command line (its first argument the program's name) asks for.
pub open spec fn parse_cli(args: Seq<Seq<char>>) -> Result<CliModel, CliFault> {
    if args.len() < 2 {
        Err(CliFault::MissingSubcommand)
    } else {
        let t = args[1];
        if t == "-h"@ || t == "--help"@ || t == "help"@ {
            Err(CliFault::Help)
        } else if t == "-V"@ || t == "--version"@ {
            Err(CliFault::Version)
        } else if t == "ask"@ {
            ask_from(args, 2, empty_draft(), false)
        } else if t == "usage"@ {
            bare(args, 2, CliModel::Usage)
        } else if t == "models"@ {
            bare(args, 2, CliModel::Models)
        } else if t == "cap"@ {
            if args.len() < 3 {
                Err(CliFault::MissingSubcommand)
            } else {
                let c = args[2];
                if c == "-h"@ || c == "--help"@ || c == "help"@ {
                    Err(CliFault::Help)
                } else if c == "set"@ {
                    cap_set_from(args, 3, None, None, false)
                } else if c == "show"@ {
                    bare(args, 3, CliModel::CapShow)
                } else {
                    Err(CliFault::UnknownArgument(c))
                }
            }
        } else {
            Err(CliFault::UnknownArgument(t))
        }
    }
}

/// The characters of each argument.
pub open spec fn arg_texts(args: Seq<&str>) -> Seq<Seq<char>> {
    args.map_values(|a: &str| a@)
}

/// The characters of each argument.
pub open spec fn token_texts(args: Seq<Vec<char>>) -> Seq<Seq<char>> {
    args.map_values(|a: Vec<char>| a@)
}

/// The characters of an optional character vector.
pub open spec fn opt_chars(o: Option<Vec<char>>) -> Option<Seq<char>> {
    match o {
        Some(v) => Some(v@),
        None => None,
    }
}

/// Whether the characters spell the text.
fn is_text(t: &Vec<char>, lit: &str) -> (r: bool)
    ensures
        r == (t@ == lit@),
{
    let l = chars_of(lit);
    if t.len() != l.len() {
        return false;
    }
    let mut i: usize = 0;
    while i < t.len()
        invariant
            i <= t@.len(),
            t@.len() == l@.len(),
            l@ == lit@,
            forall|j: int| 0 <= j < i ==> t@[j] == l@[j],
        decreases t@.len() - i,
    {
        if t[i] != l[i] {
            return false;
        }
        i = i + 1;
    }
    assert(t@ =~= l@);
    true
}

/// The characters from `lo` up to `hi`.
fn chars_between(t: &Vec<char>, lo: usize, hi: usize) -> (r: Vec<char>)
    requires
        lo <= hi <= t@.len(),
    ensures
        r@ == t@.subrange(lo as int, hi as int),
{
    let mut r: Vec<char> = Vec::new();
    let mut i: usize = lo;
    while i < hi
        invariant
            lo <= i <= hi,
            hi <= t@.len(),
            r@ == t@.subrange(lo as int, i as int),
        decreases hi - i,
    {
        r.push(t[i]);
        i = i + 1;
        assert(r@ =~= t@.subrange(lo as int, i as int));
    }
    r
}

/// The name and inline value of a long option.
fn split_long(t: &Vec<char>) -> (r: (Vec<char>, Option<Vec<char>>))
    requires
        is_long(t@),
    ensures
        r.0@ == long_name(t@),
        opt_chars(r.1) == inline_value(t@),
{
    let mut k: usize = 2;
    while k < t.len() && t[k] != '='
        invariant
            2 <= k <= t@.len(),
            find_eq(t@, 2) == find_eq(t@, k as int),
        decreases t@.len() - k,
    {
        k = k + 1;
    }
    assert(find_eq(t@, k as int) == k as int);
    let name = chars_between(t, 0, k);
    if k < t.len() {
        (name, Some(chars_between(t, k + 1, t.len())))
    } else {
        (name, None)
    }
}

/// A prefix of digits denotes no more than the whole.
proof fn lemma_digits_prefix(s: Seq<char>, j: int)
    requires
        0 <= j <= s.len(),
        all_digits(s),
    ensures
        digits_value(s.subrange(0, j)) <= digits_value(s),
    decreases s.len(),
{
    if j == s.len() {
        assert(s.subrange(0, j) =~= s);
    } else {
        let d = s.drop_last();
        assert(d.subrange(0, j) =~= s.subrange(0, j));
        assert(all_digits(d)) by {
            assert forall|i: int| 0 <= i < d.len() implies '0' <= #[trigger] d[i] <= '9' by {
                assert(d[i] == s[i]);
            }
        }
        lemma_digits_prefix(d, j);
        assert('0' <= s[s.len() - 1] <= '9');
    }
}

/// A count option's value as a number, if it denotes one from 0 to `u32::MAX`.
fn count_value(v: &Vec<char>) -> (r: Option<u32>)
    ensures
        r == parse_u32(v@),
{
    let signed = v.len() > 0 && (v[0] == '+' || v[0] == '-');
    let start: usize = if signed { 1 } else { 0 };
    let ghost body = if signed { v@.subrange(1, v@.len() as int) } else { v@ };
    proof {
        if !signed {
            assert(body =~= v@.subrange(0, v@.len() as int));
        }
    }
    if start == v.len() {
        return None;
    }
    let mut acc: u64 = 0;
    let mut i: usize = start;
    while i < v.len()
        invariant
            start <= i <= v@.len(),
            start < v@.len(),
            body == v@.subrange(start as int, v@.len() as int),
            body == (if v@.len() > 0 && (v@[0] == '+' || v@[0] == '-') {
                v@.subrange(1, v@.len() as int)
            } else {
                v@
            }),
            all_digits(body.subrange(0, i - start)),
            acc == digits_value(body.subrange(0, i - start)),
            acc <= u32::MAX,
        decreases v@.len() - i,
    {
        let c = v[i];
        if !('0' <= c && c <= '9') {
            proof {
                assert(body[i - start] == c);
                assert(!all_digits(body));
            }
            return None;
        }
        let ghost prefix = body.subrange(0, i - start);
        let ghost next = body.subrange(0, i - start + 1);
        proof {
            assert(next.drop_last() =~= prefix);
            assert(next.last() == c);
            assert forall|k: int| 0 <= k < next.len() implies '0' <= #[trigger] next[k] <= '9' by {
                if k < prefix.len() {
                    assert(next[k] == prefix[k]);
                }
            }
        }
        let d: u64 = (c as u64) - ('0' as u64);
        acc = acc * 10 + d;
        i = i + 1;
        if acc > 0xffff_ffff {
            proof {
                if all_digits(body) {
                    lemma_digits_prefix(body, i - start);
                }
            }
            return None;
        }
    }
    proof {
        assert(body.subrange(0, i - start) =~= body);
    }
    if v[0] == '-' && acc != 0 {
        return None;
    }
    Some(acc as u32)
}

/// Whether the argument reads as an option.
fn flag_like(t: &Vec<char>) -> (r: bool)
    ensures
        r == is_flag_like(t@),
{
    t.len() > 1 && t[0] == '-'
}

/// A copy of the characters.
fn copy_chars(t: &Vec<char>) -> (r: Vec<char>)
    ensures
        r@ == t@,
{
    let r = chars_between(t, 0, t.len());
    assert(t@.subrange(0, t@.len() as int) =~= t@);
    r
}

/// The characters as a string.
fn text_of(t: &Vec<char>) -> (r: String)
    ensures
        r@ == t@,
{
    string_from_chars(t.as_slice())
}

/// Reads the arguments of `relay ask`.
fn parse_ask(args: &Vec<Vec<char>>) -> (r: Result<Cli, ParseFailure>)
    requires
        args@.len() >= 2,
    ensures
        match ask_from(token_texts(args@), 2, empty_draft(), false) {
            Ok(m) => r is Ok && r->Ok_0@ == m,
            Err(f) => r is Err && r->Err_0@ == f,
        },
{
    let ghost toks = token_texts(args@);
    let mut prompt: Option<Vec<char>> = None;
    let mut model: Option<Vec<char>> = None;
    let mut think = false;
    let mut max: Option<u32> = None;
    let mut stream = false;
    let mut raw = false;
    let mut i: usize = 2;
    while i < args.len()
        invariant
            2 <= i <= args@.len(),
            toks == token_texts(args@),
            ask_from(
                toks,
                i as int,
                AskDraft {
                    prompt: opt_chars(prompt),
                    model: opt_chars(model),
                    think,
                    max_output_tokens: max,
                    stream,
                },
                raw,
            ) == ask_from(toks, 2, empty_draft(), false),
        decreases args@.len() - i,
    {
        let t = &args[i];
        assert(toks[i as int] == t@);
        if raw || !flag_like(t) {
            if prompt.is_some() {
                return Err(ParseFailure::UnknownArgument(text_of(t)));
            }
            prompt = Some(copy_chars(t));
            i = i + 1;
        } else if is_text(t, "--") {
            raw = true;
            i = i + 1;
        } else if is_text(t, "-h") || is_text(t, "--help") {
            return Err(ParseFailure::Help);
        } else if t[1] != '-' {
            return Err(ParseFailure::UnknownArgument(text_of(t)));
        } else {
            let (name, inline) = split_long(t);
            let is_think = is_text(&name, "--think");
            let is_stream = is_text(&name, "--stream");
            if is_think || is_stream {
                if inline.is_some() {
                    return Err(ParseFailure::UnexpectedValue(text_of(&name)));
                }
                if is_think {
                    if think {
                        return Err(ParseFailure::Repeated(text_of(&name)));
                    }
                    think = true;
                } else {
                    if stream {
                        return Err(ParseFailure::Repeated(text_of(&name)));
                    }
                    stream = true;
                }
                i = i + 1;
            } else {
                let is_model = is_text(&name, "--model");
                let is_max = is_text(&name, "--max-output-tokens");
                if !(is_model || is_max) {
                    return Err(ParseFailure::UnknownArgument(text_of(&name)));
                }
                let has_inline = inline.is_some();
                let value: Vec<char> = match inline {
                    Some(v) => v,
                    None => {
                        if i + 1 < args.len() && !flag_like(&args[i + 1]) {
                            assert(toks[i + 1] == args@[i + 1]@);
                            copy_chars(&args[i + 1])
                        } else {
                            return Err(ParseFailure::MissingValue(text_of(&name)));
                        }
                    },
                };
                let next = if has_inline { i + 1 } else { i + 2 };
                if is_model {
                    if model.is_some() {
                        return Err(ParseFailure::Repeated(text_of(&name)));
                    }
                    model = Some(value);
                } else {
                    if max.is_some() {
                        return Err(ParseFailure::Repeated(text_of(&name)));
                    }
                    match count_value(&value) {
                        None => {
                            return Err(ParseFailure::InvalidValue { arg: text_of(&name), value: text_of(&value) });
                        },
                        Some(n) => {
                            max = Some(n);
                        },
                    }
                }
                i = next;
            }
        }
    }
    if model.is_some() && think {
        return Err(
            ParseFailure::Conflict { first: String::from_str("--think"), second: String::from_str("--model") },
        );
    }
    match prompt {
        None => Err(ParseFailure::MissingArgument(String::from_str("<PROMPT>"))),
        Some(p) => {
            let model_text = match model {
                Some(m) => Some(text_of(&m)),
                None => None,
            };
            let max_output_tokens = match max {
                Some(n) => n,
                None => 1024,
            };
            Ok(
                Cli {
                    command: Command::Ask(
                        AskArgs { prompt: text_of(&p), model: model_text, think, max_output_tokens, stream },
                    ),
                },
            )
        },
    }
}

/// Checks that a command that takes no arguments got none after `start`.
fn check_no_args(args: &Vec<Vec<char>>, start: usize) -> (r: Option<ParseFailure>)
    requires
        start <= args@.len(),
    ensures
        match no_args_from(token_texts(args@), start as int, false) {
            None => r is None,
            Some(f) => r is Some && r->0@ == f,
        },
{
    let ghost toks = token_texts(args@);
    let mut raw = false;
    let mut i: usize = start;
    while i < args.len()
        invariant
            start <= i <= args@.len(),
            toks == token_texts(args@),
            no_args_from(toks, i as int, raw) == no_args_from(toks, start as int, false),
        decreases args@.len() - i,
    {
        let t = &args[i];
        assert(toks[i as int] == t@);
        if !raw && is_text(t, "--") {
            raw = true;
            i = i + 1;
        } else if !raw && (is_text(t, "-h") || is_text(t, "--help")) {
            return Some(ParseFailure::Help);
        } else {
            return Some(ParseFailure::UnknownArgument(text_of(t)));
        }
    }
    None
}

/// Reads the arguments of `relay cap set`.
fn parse_cap_set(args: &Vec<Vec<char>>) -> (r: Result<Cli, ParseFailure>)
    requires
        args@.len() >= 3,
    ensures
        match cap_set_from(token_texts(args@), 3, None, None, false) {
            Ok(m) => r is Ok && r->Ok_0@ == m,
            Err(f) => r is Err && r->Err_0@ == f,
        },
{
    let ghost toks = token_texts(args@);
    let mut daily: Option<Vec<char>> = None;
    let mut monthly: Option<Vec<char>> = None;
    let mut raw = false;
    let mut i: usize = 3;
    while i < args.len()
        invariant
            3 <= i <= args@.len(),
            toks == token_texts(args@),
            cap_set_from(toks, i as int, opt_chars(daily), opt_chars(monthly), raw) == cap_set_from(
                toks,
                3,
                None,
                None,
                false,
            ),
        decreases args@.len() - i,
    {
        let t = &args[i];
        assert(toks[i as int] == t@);
        if raw || !flag_like(t) {
            return Err(ParseFailure::UnknownArgument(text_of(t)));
        } else if is_text(t, "--") {
            raw = true;
            i = i + 1;
        } else if is_text(t, "-h") || is_text(t, "--help") {
            return Err(ParseFailure::Help);
        } else if t[1] != '-' {
            return Err(ParseFailure::UnknownArgument(text_of(t)));
        } else {
            let (name, inline) = split_long(t);
            let is_daily = is_text(&name, "--daily-usd");
            let is_monthly = is_text(&name, "--monthly-usd");
            if !(is_daily || is_monthly) {
                return Err(ParseFailure::UnknownArgument(text_of(&name)));
            }
            let has_inline = inline.is_some();
            let value: Vec<char> = match inline {
                Some(v) => v,
                None => {
                    if i + 1 < args.len() && !flag_like(&args[i + 1]) {
                        assert(toks[i + 1] == args@[i + 1]@);
                        copy_chars(&args[i + 1])
                    } else {
                        return Err(ParseFailure::MissingValue(text_of(&name)));
                    }
                },
            };
            let next = if has_inline { i + 1 } else { i + 2 };
            if is_daily {
                if daily.is_some() {
                    return Err(ParseFailure::Repeated(text_of(&name)));
                }
                daily = Some(value);
            } else {
                if monthly.is_some() {
                    return Err(ParseFailure::Repeated(text_of(&name)));
                }
                monthly = Some(value);
            }
            i = next;
        }
    }
    let daily_usd = match daily {
        Some(d) => Some(text_of(&d)),
        None => None,
    };
    let monthly_usd = match monthly {
        Some(m) => Some(text_of(&m)),
        None => None,
    };
    Ok(Cli { command: Command::Cap { command: CapCommand::SetCaps { daily_usd, monthly_usd } } })
}

/// A command that takes no arguments.
fn parse_bare(args: &Vec<Vec<char>>, start: usize, command: Command) -> (r: Result<Cli, ParseFailure>)
    requires
        start <= args@.len(),
    ensures
        match no_args_from(token_texts(args@), start as int, false) {
            None => r == Ok::<Cli, ParseFailure>(Cli { command }),
            Some(f) => r is Err && r->Err_0@ == f,
        },
{
    match check_no_args(args, start) {
        Some(f) => Err(f),
        None => Ok(Cli { command }),
    }
}

impl Cli {
    /// Parses a command line whose first argument is the program's name.
    pub fn try_parse_from(args: &[&str]) -> (r: Result<Cli, ParseFailure>)
        ensures
            match parse_cli(arg_texts(args@)) {
                Ok(m) => r is Ok && r->Ok_0@ == m,
                Err(f) => r is Err && r->Err_0@ == f,
            },
    {
        let mut toks: Vec<Vec<char>> = Vec::new();
        let mut i: usize = 0;
        while i < args.len()
            invariant
                i <= args@.len(),
                toks@.len() == i,
                forall|j: int| 0 <= j < i ==> (#[trigger] toks@[j])@ == args@[j]@,
            decreases args@.len() - i,
        {
            toks.push(chars_of(args[i]));
            i = i + 1;
        }
        let ghost a = arg_texts(args@);
        assert(token_texts(toks@) =~= a);
        if toks.len() < 2 {
            return Err(ParseFailure::MissingSubcommand);
        }
        let t = &toks[1];
        assert(a[1] == t@);
        if is_text(t, "-h") || is_text(t, "--help") || is_text(t, "help") {
            Err(ParseFailure::Help)
        } else if is_text(t, "-V") || is_text(t, "--version") {
            Err(ParseFailure::Version)
        } else if is_text(t, "ask") {
            parse_ask(&toks)
        } else if is_text(t, "usage") {
            parse_bare(&toks, 2, Command::Usage)
        } else if is_text(t, "models") {
            parse_bare(&toks, 2, Command::Models)
        } else if is_text(t, "cap") {
            if toks.len() < 3 {
                return Err(ParseFailure::MissingSubcommand);
            }
            let c = &toks[2];
            assert(a[2] == c@);
            if is_text(c, "-h") || is_text(c, "--help") || is_text(c, "help") {
                Err(ParseFailure::Help)
            } else if is_text(c, "set") {
                parse_cap_set(&toks)
            } else if is_text(c, "show") {
                parse_bare(&toks, 3, Command::Cap { command: CapCommand::Show })
            } else {
                Err(ParseFailure::UnknownArgument(text_of(c)))
            }
        } else {
            Err(ParseFailure::UnknownArgument(text_of(t)))
        }
    }
}

} // verus!
