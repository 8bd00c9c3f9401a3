//! Requests of the web interface turned into command lines.
//!
//! A job request names a command and a map of JSON arguments; only a fixed
//! list of commands is accepted, and only known argument names, with the JSON
//! type each expects, become options of the command line.

use vstd::prelude::*;
use crate::types::clone_opt_string;
use crate::text::{
    chars_of, utf8_len, utf8_len_exceeds, has_prefix, owned, push_signed_decimal, push_str, signed_decimal, starts_with_chars, str_eq,
    string_from_chars,
};

verus! {

/// Error answered by the web API.
#[derive(Debug)]
pub enum AppError {
    NotFound,
    BadRequest(String),
    Internal(String),
}

/// HTTP status of an error.
pub open spec fn status_of(e: AppError) -> u16 {
    match e {
        AppError::NotFound => 404,
        AppError::BadRequest(_) => 400,
        AppError::Internal(_) => 500,
    }
}

/// Message of an error, as sent in `{"error": ...}`.
pub open spec fn message_of(e: AppError) -> Seq<char> {
    match e {
        AppError::NotFound => "Not found"@,
        AppError::BadRequest(m) => m@,
        AppError::Internal(m) => m@,
    }
}

impl AppError {
    /// HTTP status code of the error.
    pub fn status_code(&self) -> (r: u16)
        ensures
            r == status_of(*self),
    {
        match self {
            AppError::NotFound => 404,
            AppError::BadRequest(_) => 400,
            AppError::Internal(_) => 500,
        }
    }

    /// Message of the error.
    pub fn message(&self) -> (r: String)
        ensures
            r@ == message_of(*self),
    {
        match self {
            AppError::NotFound => owned("Not found"),
            AppError::BadRequest(m) => m.clone(),
            AppError::Internal(m) => m.clone(),
        }
    }
}

/// A JSON argument value, as far as the command line needs it.
#[derive(Debug)]
pub enum ArgValue {
    Str(String),
    Bool(bool),
    /// A number representable as `i64`.
    Int(i64),
    /// Any other JSON value.
    Other,
}

/// The value given for `key` (the first entry with that key).
pub open spec fn lookup(args: Seq<(String, ArgValue)>, key: Seq<char>) -> Option<ArgValue>
    decreases args.len(),
{
    if args.len() == 0 {
        None
    } else if args[0].0@ == key {
        Some(args[0].1)
    } else {
        lookup(args.drop_first(), key)
    }
}

/// Index of the value given for `key`.
fn find_key(args: &Vec<(String, ArgValue)>, key: &str) -> (r: Option<usize>)
    ensures
        match r {
            Some(i) => i < args@.len() && lookup(args@, key@) == Some(args@[i as int].1),
            None => lookup(args@, key@) is None,
        },
{
    let mut i: usize = 0;
    assert(args@.subrange(0, args@.len() as int) =~= args@);
    while i < args.len()
        invariant
            i <= args@.len(),
            lookup(args@, key@) == lookup(args@.subrange(i as int, args@.len() as int), key@),
        decreases args@.len() - i,
    {
        let ghost rest = args@.subrange(i as int, args@.len() as int);
        assert(rest[0] == args@[i as int]);
        if str_eq(args[i].0.as_str(), key) {
            return Some(i);
        }
        assert(rest.drop_first() =~= args@.subrange(i + 1, args@.len() as int));
        i = i + 1;
    }
    None
}

/// The commands a job may run.
pub open spec fn valid_command(c: Seq<char>) -> bool {
    ||| c == "diag"@
    ||| c == "aller"@
    ||| c == "mtr"@
    ||| c == "ecmp"@
    ||| c == "retour"@
    ||| c == "lg"@
    ||| c == "check-env"@
    ||| c == "watch"@
}

/// Whether `command` is one of the commands a job may run.
pub fn is_valid_command(command: &str) -> (r: bool)
    ensures
        r == valid_command(command@),
{
    str_eq(command, "diag") || str_eq(command, "aller") || str_eq(command, "mtr") || str_eq(command, "ecmp")
        || str_eq(command, "retour") || str_eq(command, "lg") || str_eq(command, "check-env") || str_eq(
        command,
        "watch",
    )
}

/// The commands that store their results and so take `--db`.
pub open spec fn db_command(c: Seq<char>) -> bool {
    c == "diag"@ || c == "aller"@ || c == "mtr"@ || c == "watch"@
}

/// Whether `command` takes the `--db` option.
pub fn command_accepts_db(command: &str) -> (r: bool)
    ensures
        r == db_command(command@),
{
    str_eq(command, "diag") || str_eq(command, "aller") || str_eq(command, "mtr") || str_eq(command, "watch")
}

/// The views of a sequence of strings.
pub open spec fn strs(v: Seq<String>) -> Seq<Seq<char>> {
    v.map_values(|s: String| s@)
}

/// `flag` when `key` is given as `true`.
pub open spec fn flag_part(args: Seq<(String, ArgValue)>, key: Seq<char>, flag: Seq<char>) -> Seq<Seq<char>> {
    match lookup(args, key) {
        Some(ArgValue::Bool(true)) => seq![flag],
        _ => Seq::empty(),
    }
}

/// `flag` and the number when `key` is given as an integer.
pub open spec fn int_part(args: Seq<(String, ArgValue)>, key: Seq<char>, flag: Seq<char>) -> Seq<Seq<char>> {
    match lookup(args, key) {
        Some(ArgValue::Int(v)) => seq![flag, signed_decimal(v as int)],
        _ => Seq::empty(),
    }
}

/// `flag` and the string when `key` is given as a string.
pub open spec fn str_part(args: Seq<(String, ArgValue)>, key: Seq<char>, flag: Seq<char>) -> Seq<Seq<char>> {
    match lookup(args, key) {
        Some(ArgValue::Str(v)) => seq![flag, v@],
        _ => Seq::empty(),
    }
}

/// The target, when given as a string.
pub open spec fn target_part(args: Seq<(String, ArgValue)>) -> Seq<Seq<char>> {
    match lookup(args, "target"@) {
        Some(ArgValue::Str(t)) => seq![t@],
        _ => Seq::empty(),
    }
}

/// Why the target is refused, if it is.
pub open spec fn target_error(args: Seq<(String, ArgValue)>) -> Option<Seq<char>> {
    match lookup(args, "target"@) {
        Some(ArgValue::Str(t)) => refused_target(t@),
        _ => None,
    }
}

/// Why a target is refused: it starts with '-' (it would be read as an
/// option) or is longer than 253 bytes; `None` when it is accepted.
pub open spec fn refused_target(t: Seq<char>) -> Option<Seq<char>> {
    if t.len() > 0 && t[0] == '-' {
        Some("Cible invalide : ne peut pas commencer par '-'"@)
    } else if utf8_len(t) > 253 {
        Some("Cible trop longue (max 253 caractères)"@)
    } else {
        None
    }
}

/// The boolean options, in order.
pub open spec fn flags_part(args: Seq<(String, ArgValue)>) -> Seq<Seq<char>> {
    flag_part(args, "no_speedtest"@, "--no-speedtest"@) + flag_part(args, "quiet"@, "--quiet"@) + flag_part(
        args,
        "by_hour"@,
        "--by-hour"@,
    )
}

/// The first integer options, in order.
pub open spec fn ints_head(args: Seq<(String, ArgValue)>) -> Seq<Seq<char>> {
    int_part(args, "rounds"@, "--rounds"@) + int_part(args, "probes"@, "--probes"@) + int_part(
        args,
        "max_hops"@,
        "--max-hops"@,
    ) + int_part(args, "last"@, "--last"@) + int_part(args, "interval"@, "--interval"@)
}

/// The last integer options, in order.
pub open spec fn ints_tail(args: Seq<(String, ArgValue)>) -> Seq<Seq<char>> {
    int_part(args, "count"@, "--count"@) + int_part(args, "port"@, "--port"@) + int_part(args, "flows"@, "--flows"@)
        + int_part(args, "ttl"@, "--ttl"@)
}

/// The integer options, in order.
pub open spec fn ints_part(args: Seq<(String, ArgValue)>) -> Seq<Seq<char>> {
    ints_head(args) + ints_tail(args)
}

/// The string options, in order.
pub open spec fn strings_part(args: Seq<(String, ArgValue)>) -> Seq<Seq<char>> {
    str_part(args, "target_filter"@, "--target-filter"@) + str_part(args, "since"@, "--since"@) + str_part(
        args,
        "hop"@,
        "--hop"@,
    ) + str_part(args, "my_ip"@, "--my-ip"@)
}

/// The command line of a job, or the message of the refusal.
pub open spec fn spec_build_args(command: Seq<char>, args: Seq<(String, ArgValue)>) -> Result<
    Seq<Seq<char>>,
    Seq<char>,
> {
    if !valid_command(command) {
        Err("Commande inconnue : "@ + command)
    } else {
        match target_error(args) {
            Some(m) => Err(m),
            None => if command == "check-env"@ {
                Ok(seq!["check-env"@])
            } else {
                Ok(
                    seq![command] + target_part(args) + flags_part(args) + ints_part(args) + strings_part(
                        args,
                    ),
                )
            },
        }
    }
}

fn push_flag(cli: &mut Vec<String>, args: &Vec<(String, ArgValue)>, key: &str, flag: &str)
    ensures
        strs(final(cli)@) == strs(old(cli)@) + flag_part(args@, key@, flag@),
{
    match find_key(args, key) {
        Some(i) => match &args[i].1 {
            ArgValue::Bool(b) => if *b {
                cli.push(owned(flag));
                assert(strs(cli@) =~= strs(old(cli)@) + flag_part(args@, key@, flag@));
            } else {
                assert(strs(cli@) =~= strs(old(cli)@) + flag_part(args@, key@, flag@));
            },
            _ => {
                assert(strs(cli@) =~= strs(old(cli)@) + flag_part(args@, key@, flag@));
            },
        },
        None => {
            assert(strs(cli@) =~= strs(old(cli)@) + flag_part(args@, key@, flag@));
        },
    }
}

fn push_int(cli: &mut Vec<String>, args: &Vec<(String, ArgValue)>, key: &str, flag: &str)
    ensures
        strs(final(cli)@) == strs(old(cli)@) + int_part(args@, key@, flag@),
{
    match find_key(args, key) {
        Some(i) => match &args[i].1 {
            ArgValue::Int(v) => {
                cli.push(owned(flag));
                let mut digits: Vec<char> = Vec::new();
                push_signed_decimal(&mut digits, *v);
                assert(digits@ =~= signed_decimal(*v as int));
                cli.push(string_from_chars(&digits));
                assert(strs(cli@) =~= strs(old(cli)@) + int_part(args@, key@, flag@));
            },
            _ => {
                assert(strs(cli@) =~= strs(old(cli)@) + int_part(args@, key@, flag@));
            },
        },
        None => {
            assert(strs(cli@) =~= strs(old(cli)@) + int_part(args@, key@, flag@));
        },
    }
}

fn push_string(cli: &mut Vec<String>, args: &Vec<(String, ArgValue)>, key: &str, flag: &str)
    ensures
        strs(final(cli)@) == strs(old(cli)@) + str_part(args@, key@, flag@),
{
    match find_key(args, key) {
        Some(i) => match &args[i].1 {
            ArgValue::Str(v) => {
                cli.push(owned(flag));
                cli.push(v.clone());
                assert(strs(cli@) =~= strs(old(cli)@) + str_part(args@, key@, flag@));
            },
            _ => {
                assert(strs(cli@) =~= strs(old(cli)@) + str_part(args@, key@, flag@));
            },
        },
        None => {
            assert(strs(cli@) =~= strs(old(cli)@) + str_part(args@, key@, flag@));
        },
    }
}

/// The error text for an unknown command.
fn unknown_command(command: &str) -> (m: String)
    ensures
        m@ == "Commande inconnue : "@ + command@,
{
    let mut out: Vec<char> = Vec::new();
    push_str(&mut out, "Commande inconnue : ");
    push_str(&mut out, command);
    string_from_chars(&out)
}

/// Accepts a target, or refuses it with the reason of `refused_target`.
fn check_target(t: &str) -> (r: Result<(), AppError>)
    ensures
        match refused_target(t@) {
            Some(m) => r matches Err(AppError::BadRequest(e)) && e@ == m,
            None => r is Ok,
        },
{
    let tc = chars_of(t);
    if tc.len() > 0 && tc[0] == '-' {
        return Err(AppError::BadRequest(owned("Cible invalide : ne peut pas commencer par '-'")));
    }
    if utf8_len_exceeds(tc.as_slice(), 253) {
        return Err(AppError::BadRequest(owned("Cible trop longue (max 253 caractères)")));
    }
    Ok(())
}

/// The target given as a string, or the refusal of the target.
fn checked_target(args: &Vec<(String, ArgValue)>) -> (r: Result<Option<String>, AppError>)
    ensures
        match target_error(args@) {
            Some(m) => r matches Err(AppError::BadRequest(e)) && e@ == m,
            None => r matches Ok(o) && match o {
                Some(t) => target_part(args@) == seq![t@],
                None => target_part(args@) == Seq::<Seq<char>>::empty(),
            },
        },
{
    match find_key(args, "target") {
        Some(i) => match &args[i].1 {
            ArgValue::Str(t) => {
                check_target(t.as_str())?;
                Ok(Some(t.clone()))
            },
            _ => Ok(None),
        },
        None => Ok(None),
    }
}

fn push_flags(cli: &mut Vec<String>, args: &Vec<(String, ArgValue)>)
    ensures
        strs(final(cli)@) == strs(old(cli)@) + flags_part(args@),
{
    push_flag(cli, args, "no_speedtest", "--no-speedtest");
    push_flag(cli, args, "quiet", "--quiet");
    push_flag(cli, args, "by_hour", "--by-hour");
    assert(strs(cli@) =~= strs(old(cli)@) + flags_part(args@));
}

fn push_ints_head(cli: &mut Vec<String>, args: &Vec<(String, ArgValue)>)
    ensures
        strs(final(cli)@) == strs(old(cli)@) + ints_head(args@),
{
    push_int(cli, args, "rounds", "--rounds");
    push_int(cli, args, "probes", "--probes");
    push_int(cli, args, "max_hops", "--max-hops");
    push_int(cli, args, "last", "--last");
    push_int(cli, args, "interval", "--interval");
    assert(strs(cli@) =~= strs(old(cli)@) + ints_head(args@));
}

fn push_ints_tail(cli: &mut Vec<String>, args: &Vec<(String, ArgValue)>)
    ensures
        strs(final(cli)@) == strs(old(cli)@) + ints_tail(args@),
{
    push_int(cli, args, "count", "--count");
    push_int(cli, args, "port", "--port");
    push_int(cli, args, "flows", "--flows");
    push_int(cli, args, "ttl", "--ttl");
    assert(strs(cli@) =~= strs(old(cli)@) + ints_tail(args@));
}

fn push_ints(cli: &mut Vec<String>, args: &Vec<(String, ArgValue)>)
    ensures
        strs(final(cli)@) == strs(old(cli)@) + ints_part(args@),
{
    push_ints_head(cli, args);
    push_ints_tail(cli, args);
    assert(strs(cli@) =~= strs(old(cli)@) + ints_part(args@));
}

fn push_strings(cli: &mut Vec<String>, args: &Vec<(String, ArgValue)>)
    ensures
        strs(final(cli)@) == strs(old(cli)@) + strings_part(args@),
{
    push_string(cli, args, "target_filter", "--target-filter");
    push_string(cli, args, "since", "--since");
    push_string(cli, args, "hop", "--hop");
    push_string(cli, args, "my_ip", "--my-ip");
    assert(strs(cli@) =~= strs(old(cli)@) + strings_part(args@));
}

fn push_options(cli: &mut Vec<String>, args: &Vec<(String, ArgValue)>)
    ensures
        strs(final(cli)@) == strs(old(cli)@) + flags_part(args@) + ints_part(args@) + strings_part(args@),
{
    push_flags(cli, args);
    push_ints(cli, args);
    push_strings(cli, args);
}

/// Builds the command line of a job from its command and its JSON
/// arguments: the command, the target (refused when it starts with '-' or is
/// longer than 253 bytes), then the boolean, integer and string options that
/// were given with the right type. `check-env` takes no argument.
pub fn build_args(command: &str, args: &Vec<(String, ArgValue)>) -> (r: Result<Vec<String>, AppError>)
    ensures
        match (r, spec_build_args(command@, args@)) {
            (Ok(v), Ok(s)) => strs(v@) == s,
            (Err(AppError::BadRequest(m)), Err(s)) => m@ == s,
            _ => false,
        },
{
    if !is_valid_command(command) {
        return Err(AppError::BadRequest(unknown_command(command)));
    }
    let target = match checked_target(args) {
        Ok(t) => t,
        Err(e) => return Err(e),
    };
    let mut cli: Vec<String> = Vec::new();
    cli.push(owned(command));
    match target {
        Some(t) => cli.push(t),
        None => {},
    }
    assert(strs(cli@) =~= seq![command@] + target_part(args@));
    push_options(&mut cli, args);
    if str_eq(command, "check-env") {
        let mut only: Vec<String> = Vec::new();
        only.push(owned("check-env"));
        assert(strs(only@) =~= seq!["check-env"@]);
        return Ok(only);
    }
    Ok(cli)
}

/// The view of an optional string.
pub open spec fn opt_view(o: Option<String>) -> Option<Seq<char>> {
    match o {
        Some(s) => Some(s@),
        None => None,
    }
}

/// `--db` is among the arguments.
pub open spec fn has_db_flag(args: Seq<Seq<char>>) -> bool {
    exists|i: int| 0 <= i < args.len() && args[i] == "--db"@
}

/// The arguments of a job with the database path added: `--db <path>` is
/// appended when a path is given and `--db` is not already there.
pub open spec fn spec_with_db(args: Seq<Seq<char>>, db: Option<Seq<char>>) -> Seq<Seq<char>> {
    match db {
        Some(p) => if has_db_flag(args) {
            args
        } else {
            args + seq!["--db"@, p]
        },
        None => args,
    }
}

/// Adds `--db <path>` to the arguments of a job, unless `--db` is already
/// there or no path is given.
pub fn with_db_arg(args: Vec<String>, db: Option<String>) -> (r: Vec<String>)
    ensures
        strs(r@) == spec_with_db(strs(args@), opt_view(db)),
{
    let mut args = args;
    match db {
        Some(p) => {
            let mut found = false;
            let mut i: usize = 0;
            while i < args.len()
                invariant
                    i <= args@.len(),
                    found == exists|k: int| 0 <= k < i && strs(args@)[k] == "--db"@,
                decreases args@.len() - i,
            {
                assert(strs(args@)[i as int] == args@[i as int]@);
                if str_eq(args[i].as_str(), "--db") {
                    found = true;
                }
                i = i + 1;
            }
            if !found {
                let ghost before = args@;
                args.push(owned("--db"));
                args.push(p);
                assert(strs(args@) =~= strs(before) + seq!["--db"@, p@]);
            }
            args
        },
        None => args,
    }
}

/// Label of the job of a watch session on `target`.
pub open spec fn watch_label_spec(target: Seq<char>) -> Seq<char> {
    "watch:"@ + target
}

/// Label of the job of a watch session on `target`: "watch:<target>".
pub fn watch_label(target: &str) -> (r: String)
    ensures
        r@ == watch_label_spec(target@),
{
    let mut out: Vec<char> = Vec::new();
    push_str(&mut out, "watch:");
    push_str(&mut out, target);
    string_from_chars(&out)
}

/// The target of a watch job, from its label.
pub fn watch_target_of(label: &str) -> (r: Option<String>)
    ensures
        has_prefix(label@, "watch:"@) ==> (r matches Some(t) && watch_label_spec(t@) == label@),
        !has_prefix(label@, "watch:"@) ==> r is None,
{
    let cs = chars_of(label);
    let prefix = chars_of("watch:");
    if !starts_with_chars(cs.as_slice(), prefix.as_slice()) {
        return None;
    }
    let mut rest: Vec<char> = Vec::new();
    let mut i: usize = prefix.len();
    while i < cs.len()
        invariant
            prefix@ == "watch:"@,
            prefix@.len() <= i <= cs@.len(),
            rest@ == cs@.subrange(prefix@.len() as int, i as int),
        decreases cs@.len() - i,
    {
        rest.push(cs[i]);
        i = i + 1;
        assert(rest@ =~= cs@.subrange(prefix@.len() as int, i as int));
    }
    assert(cs@ =~= cs@.subrange(0, prefix@.len() as int) + rest@);
    Some(string_from_chars(&rest))
}

/// The command line of a watch session started from the web interface.
pub open spec fn spec_watch_args(
    target: Seq<char>,
    interval: Option<u64>,
    no_speedtest: Option<bool>,
    my_ip: Option<Seq<char>>,
) -> Seq<Seq<char>> {
    seq![
        "watch"@,
        target,
        "--interval"@,
        crate::text::decimal(match interval {
            Some(v) => v as nat,
            None => 15,
        }),
        "--quiet"@,
    ] + (if no_speedtest == Some(true) {
        seq!["--no-speedtest"@]
    } else {
        Seq::empty()
    }) + match my_ip {
        Some(ip) => seq!["--my-ip"@, ip],
        None => Seq::empty(),
    }
}

/// Builds the command line of a watch session: the target, the interval in
/// minutes (15 by default), quiet output, and the optional options. A target
/// that starts with '-' or is longer than 253 bytes is refused, as by
/// `build_args`.
pub fn watch_args(target: &str, interval: Option<u64>, no_speedtest: Option<bool>, my_ip: Option<String>) -> (r:
    Result<Vec<String>, AppError>)
    ensures
        match refused_target(target@) {
            Some(m) => r matches Err(AppError::BadRequest(e)) && e@ == m,
            None => r matches Ok(v) && strs(v@) == spec_watch_args(target@, interval, no_speedtest, opt_view(my_ip)),
        },
{
    check_target(target)?;
    let minutes: u64 = match interval {
        Some(v) => v,
        None => 15,
    };
    let mut args: Vec<String> = Vec::new();
    args.push(owned("watch"));
    args.push(owned(target));
    args.push(owned("--interval"));
    args.push(crate::text::u64_to_string(minutes));
    args.push(owned("--quiet"));
    let ghost head = strs(args@);
    if no_speedtest == Some(true) {
        args.push(owned("--no-speedtest"));
    }
    let ghost mid = strs(args@);
    let ghost ip_view = opt_view(my_ip);
    match my_ip {
        Some(ip) => {
            args.push(owned("--my-ip"));
            args.push(ip);
        },
        None => {},
    }
    assert(strs(args@) =~= spec_watch_args(target@, interval, no_speedtest, ip_view));
    Ok(args)
}

/// A request of the web interface to start a watch session.
#[derive(Debug)]
pub struct StartWatchRequest {
    pub target: String,
    /// Minutes between two runs (15 when absent).
    pub interval: Option<u64>,
    pub no_speedtest: Option<bool>,
    pub my_ip: Option<String>,
}

impl StartWatchRequest {
    /// The command line of the session, or the refusal of its target.
    pub fn args(&self) -> (r: Result<Vec<String>, AppError>)
        ensures
            match refused_target(self.target@) {
                Some(m) => r matches Err(AppError::BadRequest(e)) && e@ == m,
                None => r matches Ok(v) && strs(v@) == spec_watch_args(
                    self.target@,
                    self.interval,
                    self.no_speedtest,
                    opt_view(self.my_ip),
                ),
            },
    {
        watch_args(self.target.as_str(), self.interval, self.no_speedtest, clone_opt_string(&self.my_ip))
    }

    /// The label of the job that runs the session.
    pub fn label(&self) -> (r: String)
        ensures
            r@ == watch_label_spec(self.target@),
    {
        watch_label(self.target.as_str())
    }
}

/// An accepted command line never hands the target over as an option: when
/// a target is given, it follows the command and does not start with '-'.
pub proof fn lemma_target_is_not_an_option(command: Seq<char>, args: Seq<(String, ArgValue)>)
    requires
        command != "check-env"@,
        spec_build_args(command, args) is Ok,
        target_part(args).len() > 0,
    ensures
        ({
            let line = spec_build_args(command, args)->Ok_0;
            line[0] == command && line[1] == target_part(args)[0] && !(line[1].len() > 0 && line[1][0] == '-')
        }),
{
    let line = spec_build_args(command, args)->Ok_0;
    let rest = target_part(args) + flags_part(args) + ints_part(args) + strings_part(args);
    assert(line == seq![command] + target_part(args) + flags_part(args) + ints_part(args) + strings_part(args));
    assert(line[1] == target_part(args)[0]);
}

/// A watch session never hands its target over as an option either: when
/// the target is accepted, it follows the command and does not start with '-'.
pub proof fn lemma_watch_target_is_not_an_option(
    target: Seq<char>,
    interval: Option<u64>,
    no_speedtest: Option<bool>,
    my_ip: Option<Seq<char>>,
)
    requires
        refused_target(target) is None,
    ensures
        ({
            let line = spec_watch_args(target, interval, no_speedtest, my_ip);
            line[0] == "watch"@ && line[1] == target && !(target.len() > 0 && target[0] == '-')
        }),
{
}

} // verus!
