//! The command line: which arguments the program takes and how a list of
//! arguments turns into [`Args`] or into an error.
//!
//! The grammar is the one of the program's command-line interface:
//! `-c/--config <CONFIG>` (default `config.toml`), `-d/--db-path <DB_PATH>`,
//! `--scanner-threads <N>`, `--hasher-threads <N>`, `--scanner-batch-size <N>`,
//! `--hasher-batch-queue-size <N>`, `--hasher-batch-size <N>`,
//! `--hash-algorithm <NAME>`, `--perceptual-hash-algorithm <NAME>`, the flag
//! `--test`, `-h/--help`, and any number of positional `PATH`s.  Every
//! setting of the configuration but its scenarios can thus be given on the
//! command line.  Option values come
//! attached (`--config=x`, `-cx`, `-c=x`) or as the next argument; `--`
//! makes every later argument a path; an option given twice is refused.

use vstd::prelude::*;
use crate::text::{str_eq, strings_view};

verus! {

/// The parsed command line.
pub struct Args {
    /// Path to the configuration file.
    pub config: String,
    /// Database path.
    pub db_path: Option<String>,
    /// Number of scanner threads.
    pub scanner_threads: Option<usize>,
    /// Number of hasher threads.
    pub hasher_threads: Option<usize>,
    /// Number of images the scanner stores at a time.
    pub scanner_batch_size: Option<usize>,
    /// Number of batches the hasher keeps queued.
    pub hasher_batch_queue_size: Option<usize>,
    /// Number of images the hasher takes at a time.
    pub hasher_batch_size: Option<usize>,
    /// Content hash algorithm.
    pub hash_algorithm: Option<String>,
    /// Perceptual hash algorithm.
    pub perceptual_hash_algorithm: Option<String>,
    /// Paths to scan for photos.
    pub scan_paths: Vec<String>,
    /// Run tests.
    pub test: bool,
}

/// The mathematical value of [`Args`].
#[verifier::ext_equal]
pub struct ArgsModel {
    pub config: Seq<char>,
    pub db_path: Option<Seq<char>>,
    pub scanner_threads: Option<usize>,
    pub hasher_threads: Option<usize>,
    pub scanner_batch_size: Option<usize>,
    pub hasher_batch_queue_size: Option<usize>,
    pub hasher_batch_size: Option<usize>,
    pub hash_algorithm: Option<Seq<char>>,
    pub perceptual_hash_algorithm: Option<Seq<char>>,
    pub scan_paths: Seq<Seq<char>>,
    pub test: bool,
}

pub open spec fn opt_string_view(o: Option<String>) -> Option<Seq<char>> {
    match o {
        Some(s) => Some(s@),
        None => None,
    }
}

impl View for Args {
    type V = ArgsModel;

    open spec fn view(&self) -> ArgsModel {
        ArgsModel {
            config: self.config@,
            db_path: opt_string_view(self.db_path),
            scanner_threads: self.scanner_threads,
            hasher_threads: self.hasher_threads,
            scanner_batch_size: self.scanner_batch_size,
            hasher_batch_queue_size: self.hasher_batch_queue_size,
            hasher_batch_size: self.hasher_batch_size,
            hash_algorithm: opt_string_view(self.hash_algorithm),
            perceptual_hash_algorithm: opt_string_view(self.perceptual_hash_algorithm),
            scan_paths: strings_view(self.scan_paths@),
            test: self.test,
        }
    }
}

/// The arguments that the command line knows by name.
#[derive(PartialEq, Eq, Structural, Clone, Copy, Debug)]
pub enum ArgName {
    Config,
    DbPath,
    ScannerThreads,
    HasherThreads,
    ScannerBatchSize,
    HasherBatchQueueSize,
    HasherBatchSize,
    HashAlgorithm,
    PerceptualHashAlgorithm,
    Test,
    Help,
}

/// Why a command line was not turned into [`Args`].
#[derive(Debug)]
pub enum CliError {
    /// `-h` or `--help` was given: the caller shows the help text.
    DisplayHelp,
    /// An argument that looks like an option but names none (the whole argument).
    UnknownArgument(String),
    /// An option that takes a value got none.
    MissingValue(ArgName),
    /// A value that the option cannot take (a count that is not a `usize`).
    InvalidValue(ArgName, String),
    /// The option or flag was given more than once.
    ArgumentConflict(ArgName),
    /// A flag was given a value with `=`.
    UnexpectedValue(ArgName),
}

/// The mathematical value of [`CliError`].
pub enum CliFailure {
    DisplayHelp,
    UnknownArgument(Seq<char>),
    MissingValue(ArgName),
    InvalidValue(ArgName, Seq<char>),
    ArgumentConflict(ArgName),
    UnexpectedValue(ArgName),
}

impl View for CliError {
    type V = CliFailure;

    open spec fn view(&self) -> CliFailure {
        match self {
            CliError::DisplayHelp => CliFailure::DisplayHelp,
            CliError::UnknownArgument(s) => CliFailure::UnknownArgument(s@),
            CliError::MissingValue(a) => CliFailure::MissingValue(*a),
            CliError::InvalidValue(a, s) => CliFailure::InvalidValue(*a, s@),
            CliError::ArgumentConflict(a) => CliFailure::ArgumentConflict(*a),
            CliError::UnexpectedValue(a) => CliFailure::UnexpectedValue(*a),
        }
    }
}

// ---------------------------------------------------------------------------
// Numbers

pub open spec fn is_digit(c: char) -> bool {
    '0' <= c && c <= '9'
}

pub open spec fn digit_value(c: char) -> nat {
    (c as int - '0' as int) as nat
}

pub open spec fn all_digits(s: Seq<char>) -> bool {
    forall|i: int| 0 <= i < s.len() ==> #[trigger] is_digit(s[i])
}

/// The number that a string of decimal digits writes.
pub open spec fn decimal_value(s: Seq<char>) -> nat
    decreases s.len(),
{
    if s.len() == 0 {
        0
    } else {
        decimal_value(s.drop_last()) * 10 + digit_value(s.last())
    }
}

/// What `usize::from_str` gives: an optional `+`, then at least one
/// decimal digit and nothing else, of a value that fits in a `usize`.
pub open spec fn usize_from_decimal(s: Seq<char>) -> Option<usize> {
    let d = if s.len() > 0 && s[0] == '+' { s.skip(1) } else { s };
    if d.len() > 0 && all_digits(d) && decimal_value(d) <= usize::MAX {
        Some(decimal_value(d) as usize)
    } else {
        None
    }
}

proof fn lemma_decimal_prefix_monotone(s: Seq<char>, i: int)
    requires
        0 <= i <= s.len(),
        all_digits(s),
    ensures
        decimal_value(s.take(i)) <= decimal_value(s),
    decreases s.len() - i,
{
    if i < s.len() {
        lemma_decimal_prefix_monotone(s, i + 1);
        assert(s.take(i + 1).drop_last() =~= s.take(i));
    } else {
        assert(s.take(i) =~= s);
    }
}

/// Reads a count the way `usize::from_str` does.
pub fn parse_usize(s: &str) -> (r: Option<usize>)
    ensures
        r == usize_from_decimal(s@),
{
    let n = s.unicode_len();
    let start: usize = if n > 0 && s.get_char(0) == '+' { 1 } else { 0 };
    let ghost d = if s@.len() > 0 && s@[0] == '+' { s@.skip(1) } else { s@ };
    assert(d =~= s@.skip(start as int));
    if start >= n {
        return None;
    }
    let mut value: usize = 0;
    let mut i: usize = start;
    while i < n
        invariant
            n == s@.len(),
            start <= i <= n,
            d =~= s@.skip(start as int),
            d == (if s@.len() > 0 && s@[0] == '+' { s@.skip(1) } else { s@ }),
            all_digits(d.take(i - start)),
            value as nat == decimal_value(d.take(i - start)),
        decreases n - i,
    {
        let c = s.get_char(i);
        assert(d[i - start] == c);
        if c < '0' || c > '9' {
            assert(!is_digit(d[i - start]));
            return None;
        }
        let digit = (c as u32 - '0' as u32) as usize;
        assert(d.take(i - start + 1).drop_last() =~= d.take(i - start));
        assert(d.take(i - start + 1).last() == c);
        match value.checked_mul(10) {
            Some(v10) => match v10.checked_add(digit) {
                Some(v) => {
                    value = v;
                },
                None => {
                    proof {
                        assert(all_digits(d.take(i - start + 1)));
                        if all_digits(d) {
                            lemma_decimal_prefix_monotone(d, i - start + 1);
                        }
                    }
                    return None;
                },
            },
            None => {
                proof {
                    assert(all_digits(d.take(i - start + 1)));
                    if all_digits(d) {
                        lemma_decimal_prefix_monotone(d, i - start + 1);
                    }
                }
                return None;
            },
        }
        i = i + 1;
    }
    assert(d.take(i - start) =~= d);
    Some(value)
}

// ---------------------------------------------------------------------------
// The grammar, stated over the characters of the arguments

/// What has been read of a command line so far.
#[verifier::ext_equal]
pub struct ParseProgress {
    pub config: Option<Seq<char>>,
    pub db_path: Option<Seq<char>>,
    pub scanner_threads: Option<usize>,
    pub hasher_threads: Option<usize>,
    pub scanner_batch_size: Option<usize>,
    pub hasher_batch_queue_size: Option<usize>,
    pub hasher_batch_size: Option<usize>,
    pub hash_algorithm: Option<Seq<char>>,
    pub perceptual_hash_algorithm: Option<Seq<char>>,
    pub test: bool,
    pub paths: Seq<Seq<char>>,
    /// An option whose value has not been taken into account yet: `None`
    /// while its value is still to come, `Some` once the next argument gave it.
    pub pending: Option<(ArgName, Option<Seq<char>>)>,
    /// Whether `--` has been seen: every later argument is a path.
    pub trailing: bool,
}

pub open spec fn initial_progress() -> ParseProgress {
    ParseProgress {
        config: None,
        db_path: None,
        scanner_threads: None,
        hasher_threads: None,
        scanner_batch_size: None,
        hasher_batch_queue_size: None,
        hasher_batch_size: None,
        hash_algorithm: None,
        perceptual_hash_algorithm: None,
        test: false,
        paths: Seq::empty(),
        pending: None,
        trailing: false,
    }
}

pub open spec fn takes_value(a: ArgName) -> bool {
    !(a is Test || a is Help)
}

pub open spec fn long_arg_named(name: Seq<char>) -> Option<ArgName> {
    if name == "config"@ {
        Some(ArgName::Config)
    } else if name == "db-path"@ {
        Some(ArgName::DbPath)
    } else if name == "scanner-threads"@ {
        Some(ArgName::ScannerThreads)
    } else if name == "hasher-threads"@ {
        Some(ArgName::HasherThreads)
    } else if name == "scanner-batch-size"@ {
        Some(ArgName::ScannerBatchSize)
    } else if name == "hasher-batch-queue-size"@ {
        Some(ArgName::HasherBatchQueueSize)
    } else if name == "hasher-batch-size"@ {
        Some(ArgName::HasherBatchSize)
    } else if name == "hash-algorithm"@ {
        Some(ArgName::HashAlgorithm)
    } else if name == "perceptual-hash-algorithm"@ {
        Some(ArgName::PerceptualHashAlgorithm)
    } else if name == "test"@ {
        Some(ArgName::Test)
    } else if name == "help"@ {
        Some(ArgName::Help)
    } else {
        None
    }
}

pub open spec fn short_arg_named(c: char) -> Option<ArgName> {
    if c == 'c' {
        Some(ArgName::Config)
    } else if c == 'd' {
        Some(ArgName::DbPath)
    } else if c == 'h' {
        Some(ArgName::Help)
    } else {
        None
    }
}

pub open spec fn is_escape(t: Seq<char>) -> bool {
    t.len() == 2 && t[0] == '-' && t[1] == '-'
}

pub open spec fn is_long(t: Seq<char>) -> bool {
    t.len() > 2 && t[0] == '-' && t[1] == '-'
}

pub open spec fn is_short(t: Seq<char>) -> bool {
    t.len() > 1 && t[0] == '-' && t[1] != '-'
}

/// `k` is the index of the first occurrence of `c` in `s`.
pub open spec fn is_first_index(s: Seq<char>, c: char, k: int) -> bool {
    &&& 0 <= k < s.len()
    &&& s[k] == c
    &&& forall|j: int| 0 <= j < k ==> s[j] != c
}

/// The index of the first occurrence of `c` in `s`.
pub open spec fn first_index_of(s: Seq<char>, c: char) -> Option<int> {
    if exists|k: int| is_first_index(s, c, k) {
        Some(choose|k: int| is_first_index(s, c, k))
    } else {
        None
    }
}

/// The name and the attached value of a long option (`--name` or `--name=value`).
pub open spec fn long_name_and_value(t: Seq<char>) -> (Seq<char>, Option<Seq<char>>) {
    let body = t.skip(2);
    match first_index_of(body, '=') {
        Some(k) => (body.take(k), Some(body.skip(k + 1))),
        None => (body, None),
    }
}

/// The value attached to a short option (`-cx` or `-c=x`), if any.
pub open spec fn short_attached_value(t: Seq<char>) -> Option<Seq<char>> {
    let rest = t.skip(2);
    if rest.len() == 0 {
        None
    } else if rest[0] == '=' {
        Some(rest.skip(1))
    } else {
        Some(rest)
    }
}

pub open spec fn already_given(s: ParseProgress, a: ArgName) -> bool {
    match a {
        ArgName::Config => s.config is Some,
        ArgName::DbPath => s.db_path is Some,
        ArgName::ScannerThreads => s.scanner_threads is Some,
        ArgName::HasherThreads => s.hasher_threads is Some,
        ArgName::ScannerBatchSize => s.scanner_batch_size is Some,
        ArgName::HasherBatchQueueSize => s.hasher_batch_queue_size is Some,
        ArgName::HasherBatchSize => s.hasher_batch_size is Some,
        ArgName::HashAlgorithm => s.hash_algorithm is Some,
        ArgName::PerceptualHashAlgorithm => s.perceptual_hash_algorithm is Some,
        ArgName::Test => s.test,
        ArgName::Help => false,
    }
}

/// Records the value of an option.
pub open spec fn set_value(s: ParseProgress, a: ArgName, v: Seq<char>) -> Result<ParseProgress, CliFailure> {
    if already_given(s, a) {
        Err(CliFailure::ArgumentConflict(a))
    } else {
        match a {
            ArgName::Config => Ok(ParseProgress { config: Some(v), ..s }),
            ArgName::DbPath => Ok(ParseProgress { db_path: Some(v), ..s }),
            ArgName::ScannerThreads => match usize_from_decimal(v) {
                Some(n) => Ok(ParseProgress { scanner_threads: Some(n), ..s }),
                None => Err(CliFailure::InvalidValue(a, v)),
            },
            ArgName::HasherThreads => match usize_from_decimal(v) {
                Some(n) => Ok(ParseProgress { hasher_threads: Some(n), ..s }),
                None => Err(CliFailure::InvalidValue(a, v)),
            },
            ArgName::ScannerBatchSize => match usize_from_decimal(v) {
                Some(n) => Ok(ParseProgress { scanner_batch_size: Some(n), ..s }),
                None => Err(CliFailure::InvalidValue(a, v)),
            },
            ArgName::HasherBatchQueueSize => match usize_from_decimal(v) {
                Some(n) => Ok(ParseProgress { hasher_batch_queue_size: Some(n), ..s }),
                None => Err(CliFailure::InvalidValue(a, v)),
            },
            ArgName::HasherBatchSize => match usize_from_decimal(v) {
                Some(n) => Ok(ParseProgress { hasher_batch_size: Some(n), ..s }),
                None => Err(CliFailure::InvalidValue(a, v)),
            },
            ArgName::HashAlgorithm => Ok(ParseProgress { hash_algorithm: Some(v), ..s }),
            ArgName::PerceptualHashAlgorithm => Ok(ParseProgress { perceptual_hash_algorithm: Some(v), ..s }),
            _ => Ok(s),
        }
    }
}

/// Takes the pending option into account.
pub open spec fn resolve(s: ParseProgress) -> Result<ParseProgress, CliFailure> {
    match s.pending {
        None => Ok(s),
        Some((a, None)) => Err(CliFailure::MissingValue(a)),
        Some((a, Some(v))) => set_value(ParseProgress { pending: None, ..s }, a, v),
    }
}

/// Reading a named argument, with the value attached to it if any.
pub open spec fn react(s: ParseProgress, a: ArgName, value: Option<Seq<char>>) -> Result<ParseProgress, CliFailure> {
    if takes_value(a) {
        match resolve(s) {
            Err(e) => Err(e),
            Ok(s2) => match value {
                Some(v) => set_value(s2, a, v),
                None => Ok(ParseProgress { pending: Some((a, None)), ..s2 }),
            },
        }
    } else if value is Some {
        Err(CliFailure::UnexpectedValue(a))
    } else {
        match resolve(s) {
            Err(e) => Err(e),
            Ok(s2) => if a is Help {
                Err(CliFailure::DisplayHelp)
            } else if s2.test {
                Err(CliFailure::ArgumentConflict(ArgName::Test))
            } else {
                Ok(ParseProgress { test: true, ..s2 })
            },
        }
    }
}

pub open spec fn awaits_value(s: ParseProgress) -> bool {
    s.pending matches Some((_, None))
}

/// Reading an argument that starts with `--` and has more after it.
pub open spec fn step_long(s: ParseProgress, t: Seq<char>) -> Result<ParseProgress, CliFailure> {
    let (name, value) = long_name_and_value(t);
    match long_arg_named(name) {
        None => Err(CliFailure::UnknownArgument(t)),
        Some(a) => react(s, a, value),
    }
}

/// Reading an argument that starts with a single `-` and has more after it.
pub open spec fn step_short(s: ParseProgress, t: Seq<char>) -> Result<ParseProgress, CliFailure> {
    match short_arg_named(t[1]) {
        None => Err(CliFailure::UnknownArgument(t)),
        Some(a) => if a is Help {
            react(s, a, None)
        } else {
            react(s, a, short_attached_value(t))
        },
    }
}

/// Reading an argument that is a value: that of the option before it, or a path.
pub open spec fn step_value(s: ParseProgress, t: Seq<char>) -> Result<ParseProgress, CliFailure> {
    if !s.trailing && awaits_value(s) {
        match s.pending {
            Some((a, _)) => Ok(ParseProgress { pending: Some((a, Some(t))), ..s }),
            None => Ok(s),
        }
    } else {
        match resolve(s) {
            Err(e) => Err(e),
            Ok(s2) => Ok(ParseProgress { paths: s2.paths.push(t), ..s2 }),
        }
    }
}

/// Reading one argument.
pub open spec fn step(s: ParseProgress, t: Seq<char>) -> Result<ParseProgress, CliFailure> {
    if !s.trailing && is_escape(t) {
        Ok(ParseProgress { trailing: true, ..s })
    } else if !s.trailing && is_long(t) {
        step_long(s, t)
    } else if !s.trailing && is_short(t) {
        step_short(s, t)
    } else {
        step_value(s, t)
    }
}

/// Reading the arguments one after the other, stopping at the first error.
pub open spec fn run(s: ParseProgress, ts: Seq<Seq<char>>) -> Result<ParseProgress, CliFailure>
    decreases ts.len(),
{
    if ts.len() == 0 {
        Ok(s)
    } else {
        match step(s, ts[0]) {
            Err(e) => Err(e),
            Ok(s2) => run(s2, ts.drop_first()),
        }
    }
}

/// The arguments read so far, once the input has ended.
pub open spec fn finish(s: ParseProgress) -> Result<ArgsModel, CliFailure> {
    match resolve(s) {
        Err(e) => Err(e),
        Ok(s2) => Ok(ArgsModel {
            config: match s2.config { Some(c) => c, None => "config.toml"@ },
            db_path: s2.db_path,
            scanner_threads: s2.scanner_threads,
            hasher_threads: s2.hasher_threads,
            scanner_batch_size: s2.scanner_batch_size,
            hasher_batch_queue_size: s2.hasher_batch_queue_size,
            hasher_batch_size: s2.hasher_batch_size,
            hash_algorithm: s2.hash_algorithm,
            perceptual_hash_algorithm: s2.perceptual_hash_algorithm,
            scan_paths: s2.paths,
            test: s2.test,
        }),
    }
}

/// What a command line means; its first element names the program.
pub open spec fn parse_command_line(argv: Seq<Seq<char>>) -> Result<ArgsModel, CliFailure> {
    let ts = if argv.len() == 0 { argv } else { argv.drop_first() };
    match run(initial_progress(), ts) {
        Err(e) => Err(e),
        Ok(s) => finish(s),
    }
}

// ---------------------------------------------------------------------------
// The reader

/// The state of the reader while it goes through a command line.
struct CommandLineReader {
    config: Option<String>,
    db_path: Option<String>,
    scanner_threads: Option<usize>,
    hasher_threads: Option<usize>,
    scanner_batch_size: Option<usize>,
    hasher_batch_queue_size: Option<usize>,
    hasher_batch_size: Option<usize>,
    hash_algorithm: Option<String>,
    perceptual_hash_algorithm: Option<String>,
    test: bool,
    paths: Vec<String>,
    pending: Option<(ArgName, Option<String>)>,
    trailing: bool,
}

spec fn pending_view(p: Option<(ArgName, Option<String>)>) -> Option<(ArgName, Option<Seq<char>>)> {
    match p {
        Some((a, v)) => Some((a, opt_string_view(v))),
        None => None,
    }
}

impl View for CommandLineReader {
    type V = ParseProgress;

    closed spec fn view(&self) -> ParseProgress {
        ParseProgress {
            config: opt_string_view(self.config),
            db_path: opt_string_view(self.db_path),
            scanner_threads: self.scanner_threads,
            hasher_threads: self.hasher_threads,
            scanner_batch_size: self.scanner_batch_size,
            hasher_batch_queue_size: self.hasher_batch_queue_size,
            hasher_batch_size: self.hasher_batch_size,
            hash_algorithm: opt_string_view(self.hash_algorithm),
            perceptual_hash_algorithm: opt_string_view(self.perceptual_hash_algorithm),
            test: self.test,
            paths: strings_view(self.paths@),
            pending: pending_view(self.pending),
            trailing: self.trailing,
        }
    }
}

/// `r` and the state after it are what `expected` says.
spec fn progress_outcome(
    r: Result<(), CliError>,
    after: ParseProgress,
    expected: Result<ParseProgress, CliFailure>,
) -> bool {
    match expected {
        Ok(s) => r is Ok && after == s,
        Err(e) => r matches Err(x) && x@ == e,
    }
}

fn long_arg_named_exec(name: &str) -> (r: Option<ArgName>)
    ensures
        r == long_arg_named(name@),
{
    if str_eq(name, "config") {
        Some(ArgName::Config)
    } else if str_eq(name, "db-path") {
        Some(ArgName::DbPath)
    } else if str_eq(name, "scanner-threads") {
        Some(ArgName::ScannerThreads)
    } else if str_eq(name, "hasher-threads") {
        Some(ArgName::HasherThreads)
    } else if str_eq(name, "scanner-batch-size") {
        Some(ArgName::ScannerBatchSize)
    } else if str_eq(name, "hasher-batch-queue-size") {
        Some(ArgName::HasherBatchQueueSize)
    } else if str_eq(name, "hasher-batch-size") {
        Some(ArgName::HasherBatchSize)
    } else if str_eq(name, "hash-algorithm") {
        Some(ArgName::HashAlgorithm)
    } else if str_eq(name, "perceptual-hash-algorithm") {
        Some(ArgName::PerceptualHashAlgorithm)
    } else if str_eq(name, "test") {
        Some(ArgName::Test)
    } else if str_eq(name, "help") {
        Some(ArgName::Help)
    } else {
        None
    }
}

fn short_arg_named_exec(c: char) -> (r: Option<ArgName>)
    ensures
        r == short_arg_named(c),
{
    if c == 'c' {
        Some(ArgName::Config)
    } else if c == 'd' {
        Some(ArgName::DbPath)
    } else if c == 'h' {
        Some(ArgName::Help)
    } else {
        None
    }
}

/// The index of the first `c` in `s`, found by a scan.
fn find_char(s: &str, c: char) -> (r: Option<usize>)
    ensures
        match r {
            Some(k) => is_first_index(s@, c, k as int) && first_index_of(s@, c) == Some(k as int),
            None => first_index_of(s@, c) is None && forall|j: int| 0 <= j < s@.len() ==> s@[j] != c,
        },
{
    let n = s.unicode_len();
    let mut i: usize = 0;
    while i < n
        invariant
            n == s@.len(),
            i <= n,
            forall|j: int| 0 <= j < i ==> s@[j] != c,
        decreases n - i,
    {
        if s.get_char(i) == c {
            proof {
                assert(is_first_index(s@, c, i as int));
                let k = choose|k: int| is_first_index(s@, c, k);
                if k < i {
                    assert(s@[k] != c);
                }
                if k > i {
                    assert(s@[i as int] != c);
                }
                assert(k == i);
            }
            return Some(i);
        }
        i = i + 1;
    }
    proof {
        if exists|k: int| is_first_index(s@, c, k) {
            let k = choose|k: int| is_first_index(s@, c, k);
            assert(s@[k] != c);
        }
    }
    None
}

/// Splits `--name=value` into its name and its attached value.
fn split_long(t: &str) -> (r: (String, Option<String>))
    requires
        is_long(t@),
    ensures
        r.0@ == long_name_and_value(t@).0,
        opt_string_view(r.1) == long_name_and_value(t@).1,
{
    let n = t.unicode_len();
    let body = t.substring_char(2, n);
    let m = body.unicode_len();
    assert(body@ =~= t@.skip(2));
    match find_char(body, '=') {
        Some(k) => (body.substring_char(0, k).to_owned(), Some(body.substring_char(k + 1, m).to_owned())),
        None => (body.to_owned(), None),
    }
}

impl CommandLineReader {
    fn new() -> (r: Self)
        ensures
            r@ == initial_progress(),
    {
        let r = CommandLineReader {
            config: None,
            db_path: None,
            scanner_threads: None,
            hasher_threads: None,
            scanner_batch_size: None,
            hasher_batch_queue_size: None,
            hasher_batch_size: None,
            hash_algorithm: None,
            perceptual_hash_algorithm: None,
            test: false,
            paths: Vec::new(),
            pending: None,
            trailing: false,
        };
        assert(r@ =~= initial_progress());
        r
    }

    fn set_value(&mut self, a: ArgName, v: String) -> (r: Result<(), CliError>)
        ensures
            progress_outcome(r, final(self)@, set_value(old(self)@, a, v@)),
    {
        match a {
            ArgName::Config => {
                if self.config.is_some() {
                    return Err(CliError::ArgumentConflict(a));
                }
                self.config = Some(v);
            },
            ArgName::DbPath => {
                if self.db_path.is_some() {
                    return Err(CliError::ArgumentConflict(a));
                }
                self.db_path = Some(v);
            },
            ArgName::ScannerThreads => {
                if self.scanner_threads.is_some() {
                    return Err(CliError::ArgumentConflict(a));
                }
                match parse_usize(v.as_str()) {
                    Some(n) => {
                        self.scanner_threads = Some(n);
                    },
                    None => {
                        return Err(CliError::InvalidValue(a, v));
                    },
                }
            },
            ArgName::HasherThreads => {
                if self.hasher_threads.is_some() {
                    return Err(CliError::ArgumentConflict(a));
                }
                match parse_usize(v.as_str()) {
                    Some(n) => {
                        self.hasher_threads = Some(n);
                    },
                    None => {
                        return Err(CliError::InvalidValue(a, v));
                    },
                }
            },
            ArgName::ScannerBatchSize => {
                if self.scanner_batch_size.is_some() {
                    return Err(CliError::ArgumentConflict(a));
                }
                match parse_usize(v.as_str()) {
                    Some(n) => {
                        self.scanner_batch_size = Some(n);
                    },
                    None => {
                        return Err(CliError::InvalidValue(a, v));
                    },
                }
            },
            ArgName::HasherBatchQueueSize => {
                if self.hasher_batch_queue_size.is_some() {
                    return Err(CliError::ArgumentConflict(a));
                }
                match parse_usize(v.as_str()) {
                    Some(n) => {
                        self.hasher_batch_queue_size = Some(n);
                    },
                    None => {
                        return Err(CliError::InvalidValue(a, v));
                    },
                }
            },
            ArgName::HasherBatchSize => {
                if self.hasher_batch_size.is_some() {
                    return Err(CliError::ArgumentConflict(a));
                }
                match parse_usize(v.as_str()) {
                    Some(n) => {
                        self.hasher_batch_size = Some(n);
                    },
                    None => {
                        return Err(CliError::InvalidValue(a, v));
                    },
                }
            },
            ArgName::HashAlgorithm => {
                if self.hash_algorithm.is_some() {
                    return Err(CliError::ArgumentConflict(a));
                }
                self.hash_algorithm = Some(v);
            },
            ArgName::PerceptualHashAlgorithm => {
                if self.perceptual_hash_algorithm.is_some() {
                    return Err(CliError::ArgumentConflict(a));
                }
                self.perceptual_hash_algorithm = Some(v);
            },
            ArgName::Test => {
                if self.test {
                    return Err(CliError::ArgumentConflict(a));
                }
            },
            ArgName::Help => {},
        }
        proof {
            if set_value(old(self)@, a, v@) is Ok {
                assert(self@ =~= set_value(old(self)@, a, v@)->Ok_0);
            }
        }
        Ok(())
    }

    fn resolve(&mut self) -> (r: Result<(), CliError>)
        ensures
            progress_outcome(r, final(self)@, resolve(old(self)@)),
    {
        let mut p: Option<(ArgName, Option<String>)> = None;
        std::mem::swap(&mut p, &mut self.pending);
        match p {
            None => {
                assert(self@ =~= old(self)@);
                Ok(())
            },
            Some((a, None)) => Err(CliError::MissingValue(a)),
            Some((a, Some(v))) => {
                assert(self@ =~= ParseProgress { pending: None, ..old(self)@ });
                self.set_value(a, v)
            },
        }
    }

    fn react(&mut self, a: ArgName, value: Option<String>) -> (r: Result<(), CliError>)
        ensures
            progress_outcome(r, final(self)@, react(old(self)@, a, opt_string_view(value))),
    {
        let is_valued = match a {
            ArgName::Test | ArgName::Help => false,
            _ => true,
        };
        if is_valued {
            let r = self.resolve();
            if r.is_err() {
                return r;
            }
            match value {
                Some(v) => self.set_value(a, v),
                None => {
                    let ghost s2 = self@;
                    self.pending = Some((a, None));
                    assert(self@ =~= ParseProgress { pending: Some((a, None)), ..s2 });
                    Ok(())
                },
            }
        } else if value.is_some() {
            Err(CliError::UnexpectedValue(a))
        } else {
            let r = self.resolve();
            if r.is_err() {
                return r;
            }
            match a {
                ArgName::Help => Err(CliError::DisplayHelp),
                _ => {
                    if self.test {
                        return Err(CliError::ArgumentConflict(ArgName::Test));
                    }
                    let ghost s2 = self@;
                    self.test = true;
                    assert(self@ =~= ParseProgress { test: true, ..s2 });
                    Ok(())
                },
            }
        }
    }

    fn step_long(&mut self, t: &str) -> (r: Result<(), CliError>)
        requires
            is_long(t@),
        ensures
            progress_outcome(r, final(self)@, step_long(old(self)@, t@)),
    {
        let (name, value) = split_long(t);
        match long_arg_named_exec(name.as_str()) {
            None => Err(CliError::UnknownArgument(t.to_owned())),
            Some(a) => self.react(a, value),
        }
    }

    fn step_short(&mut self, t: &str) -> (r: Result<(), CliError>)
        requires
            is_short(t@),
        ensures
            progress_outcome(r, final(self)@, step_short(old(self)@, t@)),
    {
        let n = t.unicode_len();
        match short_arg_named_exec(t.get_char(1)) {
            None => Err(CliError::UnknownArgument(t.to_owned())),
            Some(a) => {
                match a {
                    ArgName::Help => self.react(a, None),
                    _ => {
                        let rest = t.substring_char(2, n);
                        let k = rest.unicode_len();
                        assert(rest@ =~= t@.skip(2));
                        let attached = if k == 0 {
                            None
                        } else if rest.get_char(0) == '=' {
                            let v = rest.substring_char(1, k);
                            assert(v@ =~= rest@.skip(1));
                            Some(v.to_owned())
                        } else {
                            Some(rest.to_owned())
                        };
                        self.react(a, attached)
                    },
                }
            },
        }
    }

    fn step_value(&mut self, t: &str) -> (r: Result<(), CliError>)
        ensures
            progress_outcome(r, final(self)@, step_value(old(self)@, t@)),
    {
        let awaiting = match &self.pending {
            Some((_, None)) => true,
            _ => false,
        };
        if !self.trailing && awaiting {
            let ghost s = self@;
            let mut p: Option<(ArgName, Option<String>)> = None;
            std::mem::swap(&mut p, &mut self.pending);
            match p {
                Some((a, _)) => {
                    self.pending = Some((a, Some(t.to_owned())));
                    assert(self@ =~= ParseProgress { pending: Some((a, Some(t@))), ..s });
                },
                None => {},
            }
            Ok(())
        } else {
            let r = self.resolve();
            if r.is_err() {
                return r;
            }
            let ghost s2 = self@;
            self.paths.push(t.to_owned());
            assert(strings_view(self.paths@) =~= s2.paths.push(t@));
            assert(self@ =~= ParseProgress { paths: s2.paths.push(t@), ..s2 });
            Ok(())
        }
    }

    fn step(&mut self, t: &str) -> (r: Result<(), CliError>)
        ensures
            progress_outcome(r, final(self)@, step(old(self)@, t@)),
    {
        let n = t.unicode_len();
        let dash0 = n > 0 && t.get_char(0) == '-';
        let dash1 = n > 1 && t.get_char(1) == '-';
        if !self.trailing && n == 2 && dash0 && dash1 {
            let ghost s = self@;
            self.trailing = true;
            assert(self@ =~= ParseProgress { trailing: true, ..s });
            Ok(())
        } else if !self.trailing && n > 2 && dash0 && dash1 {
            self.step_long(t)
        } else if !self.trailing && n > 1 && dash0 && !dash1 {
            self.step_short(t)
        } else {
            self.step_value(t)
        }
    }
}

/// The views of a list of arguments.
pub open spec fn arguments_view(argv: Seq<&str>) -> Seq<Seq<char>> {
    argv.map_values(|a: &str| a@)
}

/// `r` is what [`parse_command_line`] says of `argv`.
pub open spec fn parsed_as(r: Result<Args, CliError>, argv: Seq<&str>) -> bool {
    match parse_command_line(arguments_view(argv)) {
        Ok(m) => r matches Ok(a) && a@ == m,
        Err(e) => r matches Err(x) && x@ == e,
    }
}

impl Args {
    /// Reads a command line whose first element names the program.
    pub fn try_parse_from(argv: &[&str]) -> (r: Result<Args, CliError>)
        ensures
            parsed_as(r, argv@),
    {
        let ghost views = arguments_view(argv@);
        let ghost ts = if views.len() == 0 { views } else { views.drop_first() };
        let n = argv.len();
        let mut i: usize = if n == 0 { 0 } else { 1 };
        let mut reader = CommandLineReader::new();
        assert(ts =~= views.skip(i as int));
        while i < n
            invariant
                n == argv@.len(),
                views == arguments_view(argv@),
                ts == (if views.len() == 0 { views } else { views.drop_first() }),
                i <= n,
                run(initial_progress(), ts) == run(reader@, views.skip(i as int)),
            decreases n - i,
        {
            let ghost before = reader@;
            assert(views.skip(i as int)[0] == argv@[i as int]@);
            assert(views.skip(i as int).drop_first() =~= views.skip(i + 1));
            assert(views.skip(i as int).len() > 0);
            let r = reader.step(argv[i]);
            assert(run(before, views.skip(i as int)) == match step(before, argv@[i as int]@) {
                Err(e) => Err(e),
                Ok(s2) => run(s2, views.skip(i + 1)),
            });
            if r.is_err() {
                return match r {
                    Err(e) => Err(e),
                    Ok(_) => Err(CliError::DisplayHelp),
                };
            }
            i = i + 1;
        }
        assert(views.skip(i as int) =~= Seq::<Seq<char>>::empty());
        let ghost unresolved = reader@;
        assert(run(initial_progress(), ts) == Ok::<ParseProgress, CliFailure>(unresolved));
        let r = reader.resolve();
        if r.is_err() {
            return match r {
                Err(e) => Err(e),
                Ok(_) => Err(CliError::DisplayHelp),
            };
        }
        let ghost s = reader@;
        let config = match reader.config {
            Some(c) => c,
            None => "config.toml".to_owned(),
        };
        let args = Args {
            config,
            db_path: reader.db_path,
            scanner_threads: reader.scanner_threads,
            hasher_threads: reader.hasher_threads,
            scanner_batch_size: reader.scanner_batch_size,
            hasher_batch_queue_size: reader.hasher_batch_queue_size,
            hasher_batch_size: reader.hasher_batch_size,
            hash_algorithm: reader.hash_algorithm,
            perceptual_hash_algorithm: reader.perceptual_hash_algorithm,
            scan_paths: reader.paths,
            test: reader.test,
        };
        assert(resolve(unresolved) == Ok::<ParseProgress, CliFailure>(s));
        assert(args@ =~= finish(unresolved)->Ok_0);
        Ok(args)
    }
}

/// Reads the program's command line, given as the list of its arguments
/// whose first element names the program.
pub fn parse_args(argv: &[&str]) -> (r: Result<Args, CliError>)
    ensures
        parsed_as(r, argv@),
{
    Args::try_parse_from(argv)
}

/// An argument that cannot be taken for an option.
pub open spec fn is_plain(t: Seq<char>) -> bool {
    t.len() == 0 || t[0] != '-'
}

proof fn lemma_run_plain(s: ParseProgress, ts: Seq<Seq<char>>)
    requires
        s.pending is None,
        forall|i: int| 0 <= i < ts.len() ==> is_plain(#[trigger] ts[i]),
    ensures
        run(s, ts) == Ok::<ParseProgress, CliFailure>(ParseProgress { paths: s.paths + ts, ..s }),
    decreases ts.len(),
{
    if ts.len() == 0 {
        assert(s.paths + ts =~= s.paths);
        assert(ParseProgress { paths: s.paths + ts, ..s } =~= s);
    } else {
        let s2 = ParseProgress { paths: s.paths.push(ts[0]), ..s };
        assert(is_plain(ts[0]));
        assert(step(s, ts[0]) == Ok::<ParseProgress, CliFailure>(s2));
        assert forall|i: int| 0 <= i < ts.drop_first().len() implies is_plain(#[trigger] ts.drop_first()[i]) by {
            assert(ts.drop_first()[i] == ts[i + 1]);
        }
        lemma_run_plain(s2, ts.drop_first());
        assert(s2.paths + ts.drop_first() =~= s.paths + ts);
    }
}

/// A command line whose arguments after the program's name do not start
/// with `-` means the default configuration file and those arguments as
/// the paths to scan, in their order.
pub proof fn lemma_plain_arguments_are_paths(argv: Seq<Seq<char>>)
    requires
        argv.len() > 0,
        forall|i: int| 1 <= i < argv.len() ==> is_plain(#[trigger] argv[i]),
    ensures
        parse_command_line(argv) == Ok::<ArgsModel, CliFailure>(ArgsModel {
            config: "config.toml"@,
            db_path: None,
            scanner_threads: None,
            hasher_threads: None,
            scanner_batch_size: None,
            hasher_batch_queue_size: None,
            hasher_batch_size: None,
            hash_algorithm: None,
            perceptual_hash_algorithm: None,
            scan_paths: argv.drop_first(),
            test: false,
        }),
{
    let ts = argv.drop_first();
    assert forall|i: int| 0 <= i < ts.len() implies is_plain(#[trigger] ts[i]) by {
        assert(ts[i] == argv[i + 1]);
    }
    lemma_run_plain(initial_progress(), ts);
    assert(Seq::<Seq<char>>::empty() + ts =~= ts);
    let expected = ArgsModel {
        config: "config.toml"@,
        db_path: None,
        scanner_threads: None,
        hasher_threads: None,
        scanner_batch_size: None,
        hasher_batch_queue_size: None,
        hasher_batch_size: None,
        hash_algorithm: None,
        perceptual_hash_algorithm: None,
        scan_paths: argv.drop_first(),
        test: false,
    };
    assert(finish(ParseProgress { paths: Seq::<Seq<char>>::empty() + ts, ..initial_progress() })->Ok_0 =~= expected);
}

/// Whether option `a` accepts the value `v`: the counts take a `usize`
/// written in decimal, the other options any text.
pub open spec fn accepts_value(a: ArgName, v: Seq<char>) -> bool {
    (a is ScannerThreads || a is HasherThreads || a is ScannerBatchSize || a is HasherBatchQueueSize
        || a is HasherBatchSize) ==> usize_from_decimal(v) is Some
}

/// `t` is the long form of option `a`, with the value `v` attached (`--name=v`) or none.
pub open spec fn names_long(t: Seq<char>, a: ArgName, v: Option<Seq<char>>) -> bool {
    &&& is_long(t)
    &&& long_name_and_value(t).1 == v
    &&& long_arg_named(long_name_and_value(t).0) == Some(a)
}

/// An option that takes a value may be given once: a command line that
/// gives it twice with values attached (`--name=v1 --name=v2`), the first one
/// a value it accepts, is refused as a conflict of that option.
pub proof fn lemma_option_twice_attached(
    prog: Seq<char>,
    t1: Seq<char>,
    t2: Seq<char>,
    a: ArgName,
    v1: Seq<char>,
    v2: Seq<char>,
)
    requires
        !(a is Test || a is Help),
        names_long(t1, a, Some(v1)),
        names_long(t2, a, Some(v2)),
        accepts_value(a, v1),
    ensures
        parse_command_line(seq![prog, t1, t2]) == Err::<ArgsModel, CliFailure>(CliFailure::ArgumentConflict(a)),
{
    let argv = seq![prog, t1, t2];
    let ts = argv.drop_first();
    assert(ts =~= seq![t1, t2]);
    let s0 = initial_progress();
    let s1 = set_value(s0, a, v1)->Ok_0;
    assert(set_value(s0, a, v1) is Ok);
    assert(step(s0, t1) == Ok::<ParseProgress, CliFailure>(s1));
    assert(already_given(s1, a));
    assert(step(s1, t2) == Err::<ParseProgress, CliFailure>(CliFailure::ArgumentConflict(a)));
    assert(ts.drop_first() =~= seq![t2]);
    assert(run(s0, ts) == run(s1, seq![t2]));
}

/// An option that takes a value may be given once: a command line that
/// gives it twice, each time followed by its value as the next argument
/// (`--name v1 --name v2`), the first one a value it accepts, is refused as
/// a conflict of that option.
pub proof fn lemma_option_twice_separate(
    prog: Seq<char>,
    t1: Seq<char>,
    t2: Seq<char>,
    a: ArgName,
    v1: Seq<char>,
    v2: Seq<char>,
)
    requires
        !(a is Test || a is Help),
        names_long(t1, a, None),
        names_long(t2, a, None),
        is_plain(v1),
        is_plain(v2),
        accepts_value(a, v1),
    ensures
        parse_command_line(seq![prog, t1, v1, t2, v2]) == Err::<ArgsModel, CliFailure>(CliFailure::ArgumentConflict(a)),
{
    let argv = seq![prog, t1, v1, t2, v2];
    let ts = argv.drop_first();
    assert(ts =~= seq![t1, v1, t2, v2]);
    let s0 = initial_progress();
    let s1 = ParseProgress { pending: Some((a, None)), ..s0 };
    let s2 = ParseProgress { pending: Some((a, Some(v1))), ..s0 };
    assert(step(s0, t1) == Ok::<ParseProgress, CliFailure>(s1));
    assert(step(s1, v1) == Ok::<ParseProgress, CliFailure>(s2));
    assert(resolve(s2) == set_value(s0, a, v1));
    assert(set_value(s0, a, v1) is Ok);
    let s3 = set_value(s0, a, v1)->Ok_0;
    assert(already_given(s3, a));
    let s4 = ParseProgress { pending: Some((a, None)), ..s3 };
    assert(step(s2, t2) == Ok::<ParseProgress, CliFailure>(s4));
    let s5 = ParseProgress { pending: Some((a, Some(v2))), ..s3 };
    assert(step(s4, v2) == Ok::<ParseProgress, CliFailure>(s5));
    assert(resolve(s5) == set_value(ParseProgress { pending: None, ..s5 }, a, v2));
    assert(ParseProgress { pending: None, ..s5 } == s3);
    assert(resolve(s5) == Err::<ParseProgress, CliFailure>(CliFailure::ArgumentConflict(a)));
    assert(ts.drop_first() =~= seq![v1, t2, v2]);
    assert(ts.drop_first().drop_first() =~= seq![t2, v2]);
    assert(ts.drop_first().drop_first().drop_first() =~= seq![v2]);
    assert(seq![v2].drop_first() =~= Seq::<Seq<char>>::empty());
    assert(run(s4, seq![v2]) == run(s5, Seq::<Seq<char>>::empty()));
    assert(run(s2, seq![t2, v2]) == run(s4, seq![v2]));
    assert(run(s1, seq![v1, t2, v2]) == run(s2, seq![t2, v2]));
    assert(run(s0, ts) == run(s1, seq![v1, t2, v2]));
}

/// The flag `--test` may be given once: giving it twice is refused as a
/// conflict.
pub proof fn lemma_flag_twice(prog: Seq<char>, t1: Seq<char>, t2: Seq<char>)
    requires
        names_long(t1, ArgName::Test, None),
        names_long(t2, ArgName::Test, None),
    ensures
        parse_command_line(seq![prog, t1, t2]) == Err::<ArgsModel, CliFailure>(CliFailure::ArgumentConflict(ArgName::Test)),
{
    let argv = seq![prog, t1, t2];
    let ts = argv.drop_first();
    assert(ts =~= seq![t1, t2]);
    let s0 = initial_progress();
    let s1 = ParseProgress { test: true, ..s0 };
    assert(step(s0, t1) == Ok::<ParseProgress, CliFailure>(s1));
    assert(step(s1, t2) == Err::<ParseProgress, CliFailure>(CliFailure::ArgumentConflict(ArgName::Test)));
    assert(ts.drop_first() =~= seq![t2]);
    assert(run(s0, ts) == run(s1, seq![t2]));
}

} // verus!
