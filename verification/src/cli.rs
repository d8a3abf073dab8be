//! The decisions of the command line host: what its arguments ask for, which files a
//! check covers, and how long the loop may sleep.

use vstd::prelude::*;

use crate::model::Millis;
use crate::text::{cat3, cat4, cat5, decimal, decimal_text, has_prefix, same, starts_with, texts};

verus! {

/// Upper bound on how long the loop sleeps before it looks again, in milliseconds: a
/// safety net that keeps virtual time near real time when nothing is scheduled.
pub const MAX_SLEEP: u64 = 5000;

pub const DEFAULT_CONFIG: &'static str = "config.yaml";

pub const HELP: &'static str =
    "usage: domiform [-c <config.yaml>] [--check] [-v]\n       domiform --check <config.yaml|glob> [<config.yaml|glob> ...]\n\n  -c, --config <path>   config file to run (default: ./config.yaml)\n      --check           compile and report problems, then exit without running.\n                        Accepts multiple paths and globs (e.g. 'examples/*.yaml')\n                        and validates each; exits non-zero if any fails.\n  -v, --verbose         trace every event, condition Truth, and dispatch\n  -h, --help            show this help";

// ------------------------------------------------------------ arguments

/// What the command line asks for.
#[derive(Debug, PartialEq)]
pub struct Args {
    /// Paths and patterns, in the order given. None means the default.
    pub configs: Vec<String>,
    pub verbose: bool,
    /// Validate only, then exit.
    pub check: bool,
}

/// [`Args`] with its text as characters.
pub struct ArgsV {
    pub configs: Seq<Seq<char>>,
    pub verbose: bool,
    pub check: bool,
}

impl View for Args {
    type V = ArgsV;

    open spec fn view(&self) -> ArgsV {
        ArgsV { configs: texts(self.configs@), verbose: self.verbose, check: self.check }
    }
}

/// Arguments as they were understood.
#[derive(Debug, PartialEq)]
pub enum Parsed {
    Given(Args),
    /// Show the help, and succeed.
    Help,
    Misused(String),
}

/// [`Parsed`] with its text as characters.
pub enum ParsedV {
    Given(ArgsV),
    Help,
    Misused(Seq<char>),
}

impl View for Parsed {
    type V = ParsedV;

    open spec fn view(&self) -> ParsedV {
        match *self {
            Parsed::Given(a) => ParsedV::Given(a@),
            Parsed::Help => ParsedV::Help,
            Parsed::Misused(why) => ParsedV::Misused(why@),
        }
    }
}

/// What is left of the arguments, read after what was given before.
pub open spec fn understood(so_far: ArgsV, rest: Seq<Seq<char>>) -> ParsedV
    decreases rest.len(),
{
    if rest.len() == 0 {
        ParsedV::Given(so_far)
    } else {
        let arg = rest[0];
        let after = rest.drop_first();
        if arg == "-v"@ || arg == "--verbose"@ {
            understood(ArgsV { verbose: true, ..so_far }, after)
        } else if arg == "--check"@ {
            understood(ArgsV { check: true, ..so_far }, after)
        } else if arg == "-c"@ || arg == "--config"@ {
            if after.len() == 0 {
                ParsedV::Misused("`-c`/`--config` needs a path"@)
            } else {
                understood(
                    ArgsV { configs: so_far.configs.push(after[0]), ..so_far },
                    after.drop_first(),
                )
            }
        } else if arg == "-h"@ || arg == "--help"@ {
            ParsedV::Help
        } else if has_prefix(arg, "-"@) {
            ParsedV::Misused("unknown flag '"@ + arg + "'\n\n"@ + HELP@)
        } else {
            understood(ArgsV { configs: so_far.configs.push(arg), ..so_far }, after)
        }
    }
}

/// Read the arguments, the program's name not among them.
pub fn parse_args(args: &Vec<String>) -> (r: Parsed)
    ensures
        r@ == understood(
            (ArgsV { configs: Seq::empty(), verbose: false, check: false }),
            texts(args@),
        ),
{
    let ghost all = texts(args@);
    let ghost blank = ArgsV { configs: Seq::empty(), verbose: false, check: false };
    let mut configs: Vec<String> = Vec::new();
    let mut verbose = false;
    let mut check = false;
    let mut i: usize = 0;
    assert(texts(configs@) =~= Seq::empty());
    assert(all.skip(0) =~= all);
    while i < args.len()
        invariant
            i <= args@.len(),
            all == texts(args@),
            blank == (ArgsV { configs: Seq::empty(), verbose: false, check: false }),
            understood(blank, all) == understood(
                ArgsV { configs: texts(configs@), verbose, check },
                all.skip(i as int),
            ),
        decreases args@.len() - i,
    {
        let arg = args[i].as_str();
        let ghost rest = all.skip(i as int);
        let ghost named = texts(configs@);
        assert(rest[0] == args@[i as int]@);
        assert(rest.drop_first() =~= all.skip(i + 1));
        if same(arg, "-v") || same(arg, "--verbose") {
            verbose = true;
        } else if same(arg, "--check") {
            check = true;
        } else if same(arg, "-c") || same(arg, "--config") {
            if i + 1 >= args.len() {
                return Parsed::Misused("`-c`/`--config` needs a path".to_owned());
            }
            i += 1;
            configs.push(args[i].clone());
            proof {
                assert(all.skip(i as int)[0] == args@[i as int]@);
                assert(all.skip(i as int).drop_first() =~= all.skip(i + 1));
                assert(texts(configs@) =~= named.push(args@[i as int]@));
            }
        } else if same(arg, "-h") || same(arg, "--help") {
            return Parsed::Help;
        } else if starts_with(arg, "-") {
            return Parsed::Misused(cat4("unknown flag '", arg, "'\n\n", HELP));
        } else {
            configs.push(args[i].clone());
            assert(texts(configs@) =~= named.push(args@[i as int]@));
        }
        i += 1;
    }
    assert(all.skip(i as int) =~= Seq::empty());
    Parsed::Given(Args { configs, verbose, check })
}

/// Whether an argument is a pattern, rather than a path.
pub open spec fn is_pattern(s: Seq<char>) -> bool {
    s.contains('*') || s.contains('?') || s.contains('[')
}

/// Whether a config argument looks like a glob pattern. The one place that tells, so
/// that running and checking cannot disagree.
pub fn is_glob(pat: &str) -> (r: bool)
    ensures
        r == is_pattern(pat@),
{
    let cs = crate::text::chars_of(pat);
    let mut i: usize = 0;
    while i < cs.len()
        invariant
            i <= cs@.len(),
            cs@ == pat@,
            forall|j: int|
                0 <= j < i ==> #[trigger] cs@[j] != '*' && cs@[j] != '?' && cs@[j] != '[',
        decreases cs@.len() - i,
    {
        if cs[i] == '*' || cs[i] == '?' || cs[i] == '[' {
            assert(pat@[i as int] == cs@[i as int]);
            return true;
        }
        i += 1;
    }
    false
}

/// The one config to run, or why there is none: patterns and several paths are for
/// checking only.
pub open spec fn config_in(configs: Seq<Seq<char>>) -> Result<Seq<char>, Seq<char>> {
    if configs.len() == 0 {
        Ok("config.yaml"@)
    } else if configs.len() > 1 {
        Err("only one config can be run; pass --check to validate several"@)
    } else if is_pattern(configs[0]) {
        Err(
            "'"@ + configs[0] + "' looks like a glob; globs are only supported with --check"@,
        )
    } else {
        Ok(configs[0])
    }
}

pub fn config_to_run(configs: &Vec<String>) -> (r: Result<String, String>)
    ensures
        match (config_in(texts(configs@)), r) {
            (Ok(path), Ok(x)) => x@ == path,
            (Err(why), Err(x)) => x@ == why,
            _ => false,
        },
{
    if configs.len() == 0 {
        Ok(DEFAULT_CONFIG.to_owned())
    } else if configs.len() > 1 {
        Err("only one config can be run; pass --check to validate several".to_owned())
    } else {
        assert(texts(configs@)[0] == configs@[0]@);
        let one = configs[0].as_str();
        if is_glob(one) {
            Err(cat3("'", one, "' looks like a glob; globs are only supported with --check"))
        } else {
            Ok(configs[0].clone())
        }
    }
}

// ------------------------------------------------------------ what a check covers

/// What a pattern matched: files, and entries that could not be read, in the order in
/// which they were found; or what is wrong with the pattern.
#[derive(Debug, PartialEq)]
pub enum Found {
    /// The argument is no pattern.
    Literal,
    BadPattern(String),
    Entries(Vec<Result<String, String>>),
}

/// [`Found`] with its text as characters.
pub enum FoundV {
    Literal,
    BadPattern(Seq<char>),
    Entries(Seq<Result<Seq<char>, Seq<char>>>),
}

pub open spec fn entry_text(e: Result<String, String>) -> Result<Seq<char>, Seq<char>> {
    match e {
        Ok(path) => Ok(path@),
        Err(why) => Err(why@),
    }
}

pub open spec fn entry_texts(s: Seq<Result<String, String>>) -> Seq<Result<Seq<char>, Seq<char>>> {
    s.map_values(|e: Result<String, String>| entry_text(e))
}

impl View for Found {
    type V = FoundV;

    open spec fn view(&self) -> FoundV {
        match *self {
            Found::Literal => FoundV::Literal,
            Found::BadPattern(why) => FoundV::BadPattern(why@),
            Found::Entries(es) => FoundV::Entries(entry_texts(es@)),
        }
    }
}

/// A file is checked once, where it was first named.
pub open spec fn with_file(files: Seq<Seq<char>>, path: Seq<char>) -> Seq<Seq<char>> {
    if files.contains(path) {
        files
    } else {
        files.push(path)
    }
}

/// The files with the first `n` entries of a pattern.
pub open spec fn with_entries(
    files: Seq<Seq<char>>,
    pat: Seq<char>,
    entries: Seq<Result<Seq<char>, Seq<char>>>,
    n: nat,
) -> Result<Seq<Seq<char>>, Seq<char>>
    decreases n,
{
    if n == 0 || n > entries.len() {
        Ok(files)
    } else {
        match with_entries(files, pat, entries, (n - 1) as nat) {
            Err(why) => Err(why),
            Ok(before) => match entries[n - 1] {
                Ok(path) => Ok(with_file(before, path)),
                Err(why) => Err("reading '"@ + pat + "': "@ + why),
            },
        }
    }
}

/// The files with what one argument stands for. A pattern that matches nothing is an
/// error: it usually means a typo.
pub open spec fn with_argument(files: Seq<Seq<char>>, pat: Seq<char>, found: FoundV) -> Result<
    Seq<Seq<char>>,
    Seq<char>,
> {
    match found {
        FoundV::Literal => Ok(with_file(files, pat)),
        FoundV::BadPattern(why) => Err("bad pattern '"@ + pat + "': "@ + why),
        FoundV::Entries(entries) => match with_entries(files, pat, entries, entries.len()) {
            Err(why) => Err(why),
            Ok(all) => if entries.len() == 0 {
                Err("no files match pattern '"@ + pat + "'"@)
            } else {
                Ok(all)
            },
        },
    }
}

fn add_file(files: &mut Vec<String>, path: &String)
    ensures
        texts(final(files)@) == with_file(texts(old(files)@), path@),
{
    let ghost all = texts(files@);
    let mut i: usize = 0;
    while i < files.len()
        invariant
            i <= files@.len(),
            *files == *old(files),
            all == texts(files@),
            forall|j: int| 0 <= j < i ==> #[trigger] all[j] != path@,
        decreases files@.len() - i,
    {
        assert(all[i as int] == files@[i as int]@);
        if same(files[i].as_str(), path.as_str()) {
            return;
        }
        i += 1;
    }
    files.push(path.clone());
    assert(texts(files@) =~= all.push(path@));
}

/// Add what one argument stands for to the files to check, in the order in which the
/// arguments were given, each file once.
pub fn expand_config(files: Vec<String>, pat: &str, found: &Found) -> (r: Result<
    Vec<String>,
    String,
>)
    ensures
        match (with_argument(texts(files@), pat@, found@), r) {
            (Ok(all), Ok(x)) => texts(x@) == all,
            (Err(why), Err(x)) => x@ == why,
            _ => false,
        },
{
    let mut out = files;
    let ghost start = texts(out@);
    match found {
        Found::Literal => {
            add_file(&mut out, &pat.to_owned());
            Ok(out)
        },
        Found::BadPattern(why) => Err(cat4("bad pattern '", pat, "': ", why.as_str())),
        Found::Entries(entries) => {
            let ghost all = entry_texts(entries@);
            let mut i: usize = 0;
            while i < entries.len()
                invariant
                    i <= entries@.len(),
                    all == entry_texts(entries@),
                    start == texts(files@),
                    with_entries(start, pat@, all, i as nat) == Ok::<Seq<Seq<char>>, Seq<char>>(
                        texts(out@),
                    ),
                    found@ == FoundV::Entries(all),
                decreases entries@.len() - i,
            {
                assert(all[i as int] == entry_text(entries@[i as int]));
                match &entries[i] {
                    Ok(path) => {
                        add_file(&mut out, path);
                    },
                    Err(why) => {
                        proof {
                            lemma_entries_fail(start, pat@, all, (i + 1) as nat, all.len());
                        }
                        return Err(cat4("reading '", pat, "': ", why.as_str()));
                    },
                }
                i += 1;
            }
            if entries.len() == 0 {
                return Err(cat3("no files match pattern '", pat, "'"));
            }
            Ok(out)
        },
    }
}

proof fn lemma_entries_fail(
    files: Seq<Seq<char>>,
    pat: Seq<char>,
    entries: Seq<Result<Seq<char>, Seq<char>>>,
    n: nat,
    m: nat,
)
    requires
        n <= m <= entries.len(),
        with_entries(files, pat, entries, n) is Err,
    ensures
        with_entries(files, pat, entries, m) == with_entries(files, pat, entries, n),
    decreases m - n,
{
    if n < m {
        lemma_entries_fail(files, pat, entries, n, (m - 1) as nat);
    }
}

/// No file is checked twice, whatever the arguments name.
pub proof fn files_are_checked_once(files: Seq<Seq<char>>, pat: Seq<char>, found: FoundV)
    requires
        files.no_duplicates(),
    ensures
        with_argument(files, pat, found) matches Ok(all) ==> all.no_duplicates(),
{
    match found {
        FoundV::Literal => {
            lemma_with_file(files, pat);
        },
        FoundV::BadPattern(_) => {},
        FoundV::Entries(entries) => {
            lemma_with_entries(files, pat, entries, entries.len());
        },
    }
}

proof fn lemma_with_file(files: Seq<Seq<char>>, path: Seq<char>)
    requires
        files.no_duplicates(),
    ensures
        with_file(files, path).no_duplicates(),
{
    if !files.contains(path) {
        let all = files.push(path);
        assert forall|i: int, j: int| 0 <= i < j < all.len() implies all[i] != all[j] by {
            if j == files.len() {
                assert(files.contains(files[i]));
            }
        }
    }
}

proof fn lemma_with_entries(
    files: Seq<Seq<char>>,
    pat: Seq<char>,
    entries: Seq<Result<Seq<char>, Seq<char>>>,
    n: nat,
)
    requires
        files.no_duplicates(),
    ensures
        with_entries(files, pat, entries, n) matches Ok(all) ==> all.no_duplicates(),
    decreases n,
{
    if 0 < n && n <= entries.len() {
        lemma_with_entries(files, pat, entries, (n - 1) as nat);
        if let Ok(before) = with_entries(files, pat, entries, (n - 1) as nat) {
            if let Ok(path) = entries[n - 1] {
                lemma_with_file(before, path);
            }
        }
    }
}

// ------------------------------------------------------------ what it says

/// Devices, scenes and rules, counted.
pub open spec fn counted(devices: nat, scenes: nat, rules: nat) -> Seq<char> {
    decimal(devices) + " device(s), "@ + decimal(scenes) + " scene(s), "@ + decimal(rules)
        + " rule(s)"@
}

pub fn count_text(devices: usize, scenes: usize, rules: usize) -> (r: String)
    ensures
        r@ == counted(devices as nat, scenes as nat, rules as nat),
{
    let d = decimal_text(devices as u64);
    let s = decimal_text(scenes as u64);
    let n = decimal_text(rules as u64);
    let mut out = cat5(d.as_str(), " device(s), ", s.as_str(), " scene(s), ", n.as_str());
    out.append(" rule(s)");
    out
}

/// The line that sums up a check of several files; one file speaks for itself.
pub open spec fn summary_of(ok: nat, failed: nat) -> Option<Seq<char>> {
    if ok + failed > 1 {
        Some(
            "checked "@ + decimal(ok + failed) + " file(s): "@ + decimal(ok) + " ok, "@ + decimal(
                failed,
            ) + " failed"@,
        )
    } else {
        None
    }
}

pub fn check_summary(ok: u32, failed: u32) -> (r: Option<String>)
    ensures
        match r {
            Some(s) => summary_of(ok as nat, failed as nat) == Some(s@),
            None => summary_of(ok as nat, failed as nat) is None,
        },
{
    let total: u64 = ok as u64 + failed as u64;
    if total > 1 {
        let all = decimal_text(total);
        let good = decimal_text(ok as u64);
        let bad = decimal_text(failed as u64);
        let mut out = cat5("checked ", all.as_str(), " file(s): ", good.as_str(), " ok, ");
        out.append(bad.as_str());
        out.append(" failed");
        Some(out)
    } else {
        None
    }
}

/// How long the loop may sleep before it looks again: until the next scheduled wake,
/// but never longer than the safety net.
pub fn sleep_for(next_wake: Option<Millis>) -> (r: Millis)
    ensures
        r == match next_wake {
            Some(ms) => if ms < MAX_SLEEP {
                ms
            } else {
                MAX_SLEEP
            },
            None => MAX_SLEEP,
        },
        r <= 5000,
        next_wake is Some ==> r <= next_wake->0,
        next_wake is Some && next_wake->0 <= 5000 ==> r == next_wake->0,
        next_wake is None ==> r == 5000,
{
    match next_wake {
        Some(ms) => {
            if ms < MAX_SLEEP {
                ms
            } else {
                MAX_SLEEP
            }
        },
        None => MAX_SLEEP,
    }
}

// ------------------------------------------------------------ health

/// Whether a request line asks for the root.
pub open spec fn asks_for_root(line: Seq<char>) -> bool {
    has_prefix(line, "GET / "@)
}

/// The answer of the health check: it is healthy if it answers at all.
pub fn health_response(line: &str) -> (r: &'static str)
    ensures
        r@ == if asks_for_root(line@) {
            "HTTP/1.1 200 OK\r\nContent-Length: 7\r\n\r\nhealthy"@
        } else {
            "HTTP/1.1 404 Not Found\r\nContent-Length: 9\r\nConnection: close\r\n\r\nnot found"@
        },
{
    if starts_with(line, "GET / ") {
        "HTTP/1.1 200 OK\r\nContent-Length: 7\r\n\r\nhealthy"
    } else {
        "HTTP/1.1 404 Not Found\r\nContent-Length: 9\r\nConnection: close\r\n\r\nnot found"
    }
}

} // verus!
