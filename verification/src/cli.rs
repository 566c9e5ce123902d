//! The command line: what each argument means, which combinations are
//! refused, and the usage text.

use vstd::prelude::*;

use crate::text::{chars_of, debug_quoted, debug_text, decimal, decimal_string, push_text, spells};

verus! {

/// The usage text printed by `-h` and after a usage error.
pub const USAGE_TEXT: &'static str = "usage: onezipper [PATH] -n COUNT [-zip] [-list] [-ignore FILE]
                 [-store] [-include-hidden]

PATH            folder to scan recursively (default: current directory)
-n COUNT        a folder qualifies when it holds MORE THAN COUNT direct
                files; COUNT must be > 1
-zip            actually create the archives and delete the originals;
                without it, onezipper only prints an audit table
-list           print just the qualifying folder paths, one per line and
                nothing else, for redirecting to a file. Cannot be
                combined with -zip
-ignore FILE    skip every folder listed in FILE, one path per line.
                Blank lines and lines starting with # are ignored
-store          store files uncompressed (fast; for already-compressed
                media such as jpg/mp4)
-include-hidden archive dotfiles, .DS_Store and Thumbs.db too, and descend
                into hidden folders. Off by default: a default run leaves
                .git and other dot-directories completely untouched.
-h, -help       print this message

To build an ignore list, capture the candidates, delete the lines you DO
want archived, and pass what remains back in:

    onezipper ~/OneDrive -n 50 -list > keep.txt
    onezipper ~/OneDrive -n 50 -ignore keep.txt -zip";

/// The usage text.
pub fn usage() -> (r: String)
    ensures
        r@ == USAGE_TEXT@,
{
    USAGE_TEXT.to_owned()
}

// ---------------------------------------------------------------------------
// The meaning of a command line, over character sequences.
// ---------------------------------------------------------------------------

/// What a well-formed command line asks for.
pub struct Settings {
    pub root: Option<Seq<char>>,
    pub threshold: Option<nat>,
    pub zip: bool,
    pub list: bool,
    pub ignore_file: Option<Seq<char>>,
    pub store: bool,
    pub include_hidden: bool,
}

/// Why a command line is refused.
pub enum Refusal {
    CountValueMissing,
    CountNotInteger(Seq<char>),
    CountTooSmall(nat),
    IgnoreFileMissing,
    DoubleDashed(Seq<char>, Seq<char>),
    UnknownOption(Seq<char>),
    SecondPath(Seq<char>),
    ListWithZip,
}

/// The three ways reading a command line can end.
pub enum Reading {
    Help,
    Ready(Settings),
    Refused(Refusal),
}

/// Nothing asked for yet.
pub open spec fn no_settings() -> Settings {
    Settings {
        root: None,
        threshold: None,
        zip: false,
        list: false,
        ignore_file: None,
        store: false,
        include_hidden: false,
    }
}

/// Every option name, without its dash.
pub open spec fn is_option_name(s: Seq<char>) -> bool {
    ||| s == "n"@
    ||| s == "zip"@
    ||| s == "list"@
    ||| s == "ignore"@
    ||| s == "store"@
    ||| s == "include-hidden"@
    ||| s == "h"@
    ||| s == "help"@
}

/// `s` without its leading dashes.
pub open spec fn without_dashes(s: Seq<char>) -> Seq<char>
    decreases s.len(),
{
    if s.len() > 0 && s[0] == '-' {
        without_dashes(s.drop_first())
    } else {
        s
    }
}

pub open spec fn starts_with_dash(s: Seq<char>) -> bool {
    s.len() > 0 && s[0] == '-'
}

pub open spec fn is_digit(c: char) -> bool {
    '0' <= c <= '9'
}

pub open spec fn digit_value(c: char) -> nat {
    (c as u32 - '0' as u32) as nat
}

pub open spec fn all_digits(s: Seq<char>) -> bool {
    forall|i: int| 0 <= i < s.len() ==> is_digit(#[trigger] s[i])
}

/// The number a run of decimal digits spells.
pub open spec fn digits_value(s: Seq<char>) -> nat
    decreases s.len(),
{
    if s.len() == 0 {
        0
    } else {
        digits_value(s.drop_last()) * 10 + digit_value(s.last())
    }
}

/// What an unsigned integer parse accepts: an optional `+`, then one or
/// more ASCII digits.
pub open spec fn decimal_value(s: Seq<char>) -> Option<nat> {
    let d = if s.len() > 0 && s[0] == '+' {
        s.drop_first()
    } else {
        s
    };
    if d.len() == 0 || !all_digits(d) {
        None
    } else {
        Some(digits_value(d))
    }
}

/// What `-n` accepts as its value: a decimal that fits in `usize`.
pub open spec fn count_value(s: Seq<char>) -> Option<nat> {
    match decimal_value(s) {
        Some(v) => if v <= usize::MAX {
            Some(v)
        } else {
            None
        },
        None => None,
    }
}

/// The end of the arguments: `-list` and `-zip` together are refused.
pub open spec fn conclude(acc: Settings) -> Reading {
    if acc.list && acc.zip {
        Reading::Refused(Refusal::ListWithZip)
    } else {
        Reading::Ready(acc)
    }
}

/// Reads `args` from position `i` on, with `acc` holding what came before.
pub open spec fn read_from(args: Seq<Seq<char>>, i: int, acc: Settings) -> Reading
    decreases args.len() - i,
{
    if i < 0 || i >= args.len() {
        conclude(acc)
    } else {
        let a = args[i];
        if a == "-n"@ {
            if i + 1 >= args.len() {
                Reading::Refused(Refusal::CountValueMissing)
            } else {
                let raw = args[i + 1];
                match count_value(raw) {
                    None => Reading::Refused(Refusal::CountNotInteger(raw)),
                    Some(v) => if v <= 1 {
                        Reading::Refused(Refusal::CountTooSmall(v))
                    } else {
                        read_from(args, i + 2, Settings { threshold: Some(v), ..acc })
                    },
                }
            }
        } else if a == "-zip"@ {
            read_from(args, i + 1, Settings { zip: true, ..acc })
        } else if a == "-list"@ {
            read_from(args, i + 1, Settings { list: true, ..acc })
        } else if a == "-ignore"@ {
            if i + 1 >= args.len() {
                Reading::Refused(Refusal::IgnoreFileMissing)
            } else {
                read_from(args, i + 2, Settings { ignore_file: Some(args[i + 1]), ..acc })
            }
        } else if a == "-store"@ {
            read_from(args, i + 1, Settings { store: true, ..acc })
        } else if a == "-include-hidden"@ {
            read_from(args, i + 1, Settings { include_hidden: true, ..acc })
        } else if a == "-h"@ || a == "-help"@ || a == "--help"@ {
            Reading::Help
        } else if starts_with_dash(a) {
            if is_option_name(without_dashes(a)) {
                Reading::Refused(Refusal::DoubleDashed(a, without_dashes(a)))
            } else {
                Reading::Refused(Refusal::UnknownOption(a))
            }
        } else if acc.root is Some {
            Reading::Refused(Refusal::SecondPath(a))
        } else {
            read_from(args, i + 1, Settings { root: Some(a), ..acc })
        }
    }
}

/// What a whole command line (without the program name) means.
pub open spec fn reading(args: Seq<Seq<char>>) -> Reading {
    read_from(args, 0, no_settings())
}

// ---------------------------------------------------------------------------
// The executable side.
// ---------------------------------------------------------------------------

/// A command line that was accepted.
pub struct CommandLine {
    pub root: Option<String>,
    pub threshold: Option<usize>,
    pub zip: bool,
    pub list: bool,
    pub ignore_file: Option<String>,
    pub store: bool,
    pub include_hidden: bool,
}

/// Why a command line was refused.
pub enum ArgError {
    /// `-n` was the last argument.
    CountValueMissing,
    /// The value after `-n` is not an unsigned integer.
    CountNotInteger(String),
    /// The value after `-n` is 0 or 1.
    CountTooSmall(usize),
    /// `-ignore` was the last argument.
    IgnoreFileMissing,
    /// An option spelled with two dashes; `single` is its name.
    DoubleDashed { given: String, single: String },
    /// An argument starting with `-` that names no option.
    UnknownOption(String),
    /// A second positional argument.
    SecondPath(String),
    /// `-list` together with `-zip`.
    ListWithZip,
    /// No `-n` at all.
    CountRequired,
}

/// The result of reading a command line.
pub enum ArgsOutcome {
    Help,
    Ready(CommandLine),
    Refused(ArgError),
}

pub open spec fn opt_view(o: Option<String>) -> Option<Seq<char>> {
    match o {
        Some(s) => Some(s@),
        None => None,
    }
}

impl CommandLine {
    pub open spec fn model(&self) -> Settings {
        Settings {
            root: opt_view(self.root),
            threshold: match self.threshold {
                Some(t) => Some(t as nat),
                None => None,
            },
            zip: self.zip,
            list: self.list,
            ignore_file: opt_view(self.ignore_file),
            store: self.store,
            include_hidden: self.include_hidden,
        }
    }

    /// The threshold, which a run cannot do without.
    pub fn required_threshold(&self) -> (r: Result<usize, ArgError>)
        ensures
            match self.threshold {
                Some(t) => r == Ok::<usize, ArgError>(t),
                None => r is Err && r->Err_0 is CountRequired,
            },
    {
        match self.threshold {
            Some(t) => Ok(t),
            None => Err(ArgError::CountRequired),
        }
    }
}

/// What a run does.
#[derive(PartialEq, Eq, Structural, Clone, Copy)]
pub enum Mode {
    /// Print only the qualifying folders.
    List,
    /// Archive and delete.
    Zip,
    /// Print the audit table and change nothing.
    Audit,
}

impl CommandLine {
    /// `-list` prints paths, `-zip` archives, and otherwise the run audits.
    pub fn mode(&self) -> (r: Mode)
        ensures
            r == (if self.list {
                Mode::List
            } else if self.zip {
                Mode::Zip
            } else {
                Mode::Audit
            }),
    {
        if self.list {
            Mode::List
        } else if self.zip {
            Mode::Zip
        } else {
            Mode::Audit
        }
    }
}

impl ArgError {
    /// The refusal this error reports; `None` for a missing `-n`, which is
    /// only known once a run is about to start.
    pub open spec fn model(&self) -> Option<Refusal> {
        match self {
            ArgError::CountValueMissing => Some(Refusal::CountValueMissing),
            ArgError::CountNotInteger(s) => Some(Refusal::CountNotInteger(s@)),
            ArgError::CountTooSmall(v) => Some(Refusal::CountTooSmall(*v as nat)),
            ArgError::IgnoreFileMissing => Some(Refusal::IgnoreFileMissing),
            ArgError::DoubleDashed { given, single } => Some(
                Refusal::DoubleDashed(given@, single@),
            ),
            ArgError::UnknownOption(s) => Some(Refusal::UnknownOption(s@)),
            ArgError::SecondPath(s) => Some(Refusal::SecondPath(s@)),
            ArgError::ListWithZip => Some(Refusal::ListWithZip),
            ArgError::CountRequired => None,
        }
    }

    /// The words that report this refusal.
    pub open spec fn text(&self) -> Seq<char> {
        match self {
            ArgError::CountValueMissing => "-n requires a value"@,
            ArgError::CountNotInteger(raw) => "-n expects an integer, got "@ + debug_text(raw@),
            ArgError::CountTooSmall(v) => "-n must be greater than 1, got "@ + decimal(*v as nat),
            ArgError::IgnoreFileMissing => "-ignore requires a file"@,
            ArgError::DoubleDashed { given, single } => "unknown option "@ + debug_text(given@)
                + " (options take a single dash: -"@ + single@ + ")"@,
            ArgError::UnknownOption(other) => "unknown option "@ + debug_text(other@),
            ArgError::SecondPath(other) => "unexpected second path argument "@ + debug_text(
                other@,
            ),
            ArgError::ListWithZip => "-list and -zip cannot be combined"@,
            ArgError::CountRequired => "-n is required"@,
        }
    }

    /// Writes out the refusal for the user.
    pub fn message(&self) -> (r: String)
        ensures
            r@ == self.text(),
    {
        let mut out = String::new();
        match self {
            ArgError::CountValueMissing => push_text(&mut out, "-n requires a value"),
            ArgError::CountNotInteger(raw) => {
                push_text(&mut out, "-n expects an integer, got ");
                push_text(&mut out, debug_quoted(raw.as_str()).as_str());
            },
            ArgError::CountTooSmall(v) => {
                push_text(&mut out, "-n must be greater than 1, got ");
                push_text(&mut out, decimal_string(*v).as_str());
            },
            ArgError::IgnoreFileMissing => push_text(&mut out, "-ignore requires a file"),
            ArgError::DoubleDashed { given, single } => {
                push_text(&mut out, "unknown option ");
                push_text(&mut out, debug_quoted(given.as_str()).as_str());
                push_text(&mut out, " (options take a single dash: -");
                push_text(&mut out, single.as_str());
                push_text(&mut out, ")");
            },
            ArgError::UnknownOption(other) => {
                push_text(&mut out, "unknown option ");
                push_text(&mut out, debug_quoted(other.as_str()).as_str());
            },
            ArgError::SecondPath(other) => {
                push_text(&mut out, "unexpected second path argument ");
                push_text(&mut out, debug_quoted(other.as_str()).as_str());
            },
            ArgError::ListWithZip => push_text(&mut out, "-list and -zip cannot be combined"),
            ArgError::CountRequired => push_text(&mut out, "-n is required"),
        }
        out
    }
}

impl ArgsOutcome {
    pub open spec fn model(&self) -> Option<Reading> {
        match self {
            ArgsOutcome::Help => Some(Reading::Help),
            ArgsOutcome::Ready(c) => Some(Reading::Ready(c.model())),
            ArgsOutcome::Refused(e) => match e.model() {
                Some(r) => Some(Reading::Refused(r)),
                None => None,
            },
        }
    }
}

pub open spec fn views(args: Seq<String>) -> Seq<Seq<char>> {
    args.map_values(|s: String| s@)
}

proof fn lemma_digits_value_step(d: Seq<char>, k: int)
    requires
        0 <= k < d.len(),
    ensures
        digits_value(d.take(k + 1)) == digits_value(d.take(k)) * 10 + digit_value(d[k]),
{
    assert(d.take(k + 1).drop_last() =~= d.take(k));
}

/// Parses the value of `-n` the way an unsigned integer parse does.
pub fn parse_count(raw: &[char]) -> (r: Option<usize>)
    ensures
        match r {
            Some(v) => count_value(raw@) == Some(v as nat),
            None => count_value(raw@) is None,
        },
{
    let start: usize = if raw.len() > 0 && raw[0] == '+' {
        1
    } else {
        0
    };
    let mut d: Vec<char> = Vec::new();
    let mut j: usize = start;
    while j < raw.len()
        invariant
            start <= j <= raw@.len(),
            d@ =~= raw@.subrange(start as int, j as int),
        decreases raw@.len() - j,
    {
        d.push(raw[j]);
        j = j + 1;
    }
    assert(d@ == (if raw@.len() > 0 && raw@[0] == '+' {
        raw@.drop_first()
    } else {
        raw@
    }));
    if d.len() == 0 {
        return None;
    }
    match digits_to_usize(d.as_slice()) {
        Some(v) => Some(v),
        None => None,
    }
}

/// The value of a nonempty run of digits, when it is one and fits in `usize`.
fn digits_to_usize(d: &[char]) -> (r: Option<usize>)
    requires
        d@.len() > 0,
    ensures
        match r {
            Some(v) => all_digits(d@) && digits_value(d@) == v,
            None => !all_digits(d@) || digits_value(d@) > usize::MAX,
        },
{
    let mut value: usize = 0;
    let mut i: usize = 0;
    let mut overflowed = false;
    while i < d.len()
        invariant
            i <= d@.len(),
            forall|k: int| 0 <= k < i ==> is_digit(#[trigger] d@[k]),
            !overflowed ==> value as nat == digits_value(d@.take(i as int)),
            overflowed ==> digits_value(d@.take(i as int)) > usize::MAX,
        decreases d@.len() - i,
    {
        let c = d[i];
        if !('0' <= c && c <= '9') {
            assert(!is_digit(d@[i as int]));
            return None;
        }
        proof {
            lemma_digits_value_step(d@, i as int);
        }
        let digit = (c as u32 - '0' as u32) as usize;
        if !overflowed {
            if value > (usize::MAX - digit) / 10 {
                overflowed = true;
                assert(value * 10 + digit > usize::MAX) by (nonlinear_arith)
                    requires
                        value > (usize::MAX - digit) / 10,
                        digit <= 9,
                ;
            } else {
                assert(value * 10 + digit <= usize::MAX) by (nonlinear_arith)
                    requires
                        value <= (usize::MAX - digit) / 10,
                        digit <= 9,
                ;
                value = value * 10 + digit;
            }
        } else {
            let ghost p = digits_value(d@.take(i as int));
            assert(p * 10 + digit_value(d@[i as int]) >= p) by (nonlinear_arith);
        }
        i = i + 1;
    }
    assert(d@.take(d@.len() as int) =~= d@);
    if overflowed {
        None
    } else {
        Some(value)
    }
}

/// `a` without its leading dashes.
pub fn strip_dashes(a: &[char]) -> (r: Vec<char>)
    ensures
        r@ == without_dashes(a@),
{
    let mut i: usize = 0;
    assert(a@.subrange(0, a@.len() as int) =~= a@);
    while i < a.len() && a[i] == '-'
        invariant
            i <= a@.len(),
            without_dashes(a@) == without_dashes(a@.subrange(i as int, a@.len() as int)),
        decreases a@.len() - i,
    {
        assert(a@.subrange(i as int, a@.len() as int).drop_first() =~= a@.subrange(
            i + 1,
            a@.len() as int,
        ));
        i = i + 1;
    }
    let mut out: Vec<char> = Vec::new();
    let mut j: usize = i;
    while j < a.len()
        invariant
            i <= j <= a@.len(),
            out@ =~= a@.subrange(i as int, j as int),
        decreases a@.len() - j,
    {
        out.push(a[j]);
        j = j + 1;
    }
    out
}

/// Whether `s` is one of the option names.
pub fn names_an_option(s: &[char]) -> (r: bool)
    ensures
        r == is_option_name(s@),
{
    spells(s, "n") || spells(s, "zip") || spells(s, "list") || spells(s, "ignore") || spells(
        s,
        "store",
    ) || spells(s, "include-hidden") || spells(s, "h") || spells(s, "help")
}

/// Reads a command line (without the program name), argument by argument.
///
/// A missing `-n` is not refused here: it is checked only after the path
/// and the ignore file have been resolved, by
/// [`CommandLine::required_threshold`].
pub fn parse_args(args: &Vec<String>) -> (r: ArgsOutcome)
    ensures
        r.model() == Some(reading(views(args@))),
{
    let ghost vs = views(args@);
    let mut acc = CommandLine {
        root: None,
        threshold: None,
        zip: false,
        list: false,
        ignore_file: None,
        store: false,
        include_hidden: false,
    };
    let mut i: usize = 0;
    while i < args.len()
        invariant
            i <= args@.len(),
            vs == views(args@),
            vs.len() == args@.len(),
            reading(vs) == read_from(vs, i as int, acc.model()),
        decreases args@.len() - i,
    {
        let a = chars_of(args[i].as_str());
        assert(a@ == vs[i as int]);
        if spells(a.as_slice(), "-n") {
            if i + 1 >= args.len() {
                return ArgsOutcome::Refused(ArgError::CountValueMissing);
            }
            let raw = chars_of(args[i + 1].as_str());
            assert(raw@ == vs[i + 1]);
            match parse_count(raw.as_slice()) {
                None => {
                    return ArgsOutcome::Refused(ArgError::CountNotInteger(args[i + 1].clone()));
                },
                Some(v) => {
                    if v <= 1 {
                        return ArgsOutcome::Refused(ArgError::CountTooSmall(v));
                    }
                    acc.threshold = Some(v);
                },
            }
            i = i + 2;
        } else if spells(a.as_slice(), "-zip") {
            acc.zip = true;
            i = i + 1;
        } else if spells(a.as_slice(), "-list") {
            acc.list = true;
            i = i + 1;
        } else if spells(a.as_slice(), "-ignore") {
            if i + 1 >= args.len() {
                return ArgsOutcome::Refused(ArgError::IgnoreFileMissing);
            }
            acc.ignore_file = Some(args[i + 1].clone());
            i = i + 2;
        } else if spells(a.as_slice(), "-store") {
            acc.store = true;
            i = i + 1;
        } else if spells(a.as_slice(), "-include-hidden") {
            acc.include_hidden = true;
            i = i + 1;
        } else if spells(a.as_slice(), "-h") || spells(a.as_slice(), "-help") || spells(
            a.as_slice(),
            "--help",
        ) {
            return ArgsOutcome::Help;
        } else if a.len() > 0 && a[0] == '-' {
            let single = strip_dashes(a.as_slice());
            if names_an_option(single.as_slice()) {
                return ArgsOutcome::Refused(
                    ArgError::DoubleDashed { given: args[i].clone(), single: crate::text::string_of(single.as_slice()) },
                );
            }
            return ArgsOutcome::Refused(ArgError::UnknownOption(args[i].clone()));
        } else if acc.root.is_some() {
            return ArgsOutcome::Refused(ArgError::SecondPath(args[i].clone()));
        } else {
            acc.root = Some(args[i].clone());
            i = i + 1;
        }
    }
    if acc.list && acc.zip {
        return ArgsOutcome::Refused(ArgError::ListWithZip);
    }
    ArgsOutcome::Ready(acc)
}

// ---------------------------------------------------------------------------
// Where the path stands does not matter.
// ---------------------------------------------------------------------------

pub open spec fn with_root(m: Settings, p: Seq<char>) -> Settings {
    Settings { root: Some(p), ..m }
}

/// Reading is unaffected by a path already having been given, as long as no
/// other path follows.
proof fn lemma_root_carried(args: Seq<Seq<char>>, i: int, acc: Settings, p: Seq<char>)
    requires
        0 <= i,
        acc.root is None,
        read_from(args, i, acc) is Ready,
        read_from(args, i, acc)->Ready_0.root is None,
    ensures
        read_from(args, i, with_root(acc, p)) == Reading::Ready(
            with_root(read_from(args, i, acc)->Ready_0, p),
        ),
    decreases args.len() - i,
{
    if i >= args.len() {
    } else {
        let a = args[i];
        if a == "-n"@ {
            if i + 1 < args.len() {
                match count_value(args[i + 1]) {
                    Some(v) => if v > 1 {
                        lemma_root_carried(args, i + 2, Settings { threshold: Some(v), ..acc }, p);
                        assert(Settings { threshold: Some(v), ..with_root(acc, p) } == with_root(
                            Settings { threshold: Some(v), ..acc },
                            p,
                        ));
                    },
                    None => {},
                }
            }
        } else if a == "-zip"@ {
            lemma_root_carried(args, i + 1, Settings { zip: true, ..acc }, p);
            assert(Settings { zip: true, ..with_root(acc, p) } == with_root(Settings { zip: true, ..acc }, p));
        } else if a == "-list"@ {
            lemma_root_carried(args, i + 1, Settings { list: true, ..acc }, p);
            assert(Settings { list: true, ..with_root(acc, p) } == with_root(Settings { list: true, ..acc }, p));
        } else if a == "-ignore"@ {
            if i + 1 < args.len() {
                let f = Some(args[i + 1]);
                lemma_root_carried(args, i + 2, Settings { ignore_file: f, ..acc }, p);
                assert(Settings { ignore_file: f, ..with_root(acc, p) } == with_root(
                    Settings { ignore_file: f, ..acc },
                    p,
                ));
            }
        } else if a == "-store"@ {
            lemma_root_carried(args, i + 1, Settings { store: true, ..acc }, p);
            assert(Settings { store: true, ..with_root(acc, p) } == with_root(Settings { store: true, ..acc }, p));
        } else if a == "-include-hidden"@ {
            lemma_root_carried(args, i + 1, Settings { include_hidden: true, ..acc }, p);
            assert(Settings { include_hidden: true, ..with_root(acc, p) } == with_root(
                Settings { include_hidden: true, ..acc },
                p,
            ));
        } else if a == "-h"@ || a == "-help"@ || a == "--help"@ {
        } else if starts_with_dash(a) {
        } else {
            // A path here would make the reading name a root.
            lemma_root_stays(args, i + 1, Settings { root: Some(a), ..acc });
        }
    }
}

/// Once a root is given, an accepted reading keeps one.
proof fn lemma_root_stays(args: Seq<Seq<char>>, i: int, acc: Settings)
    requires
        0 <= i,
        acc.root is Some,
    ensures
        read_from(args, i, acc) is Ready ==> read_from(args, i, acc)->Ready_0.root is Some,
    decreases args.len() - i,
{
    if i >= args.len() {
    } else {
        let a = args[i];
        if a == "-n"@ {
            if i + 1 < args.len() {
                match count_value(args[i + 1]) {
                    Some(v) => if v > 1 {
                        lemma_root_stays(args, i + 2, Settings { threshold: Some(v), ..acc });
                    },
                    None => {},
                }
            }
        } else if a == "-zip"@ {
            lemma_root_stays(args, i + 1, Settings { zip: true, ..acc });
        } else if a == "-list"@ {
            lemma_root_stays(args, i + 1, Settings { list: true, ..acc });
        } else if a == "-ignore"@ {
            if i + 1 < args.len() {
                lemma_root_stays(args, i + 2, Settings { ignore_file: Some(args[i + 1]), ..acc });
            }
        } else if a == "-store"@ {
            lemma_root_stays(args, i + 1, Settings { store: true, ..acc });
        } else if a == "-include-hidden"@ {
            lemma_root_stays(args, i + 1, Settings { include_hidden: true, ..acc });
        } else {
        }
    }
}

/// A path in front shifts every later position by one.
proof fn lemma_shifted(args: Seq<Seq<char>>, p: Seq<char>, i: int, acc: Settings)
    requires
        0 <= i,
    ensures
        read_from(seq![p] + args, i + 1, acc) == read_from(args, i, acc),
    decreases args.len() - i,
{
    let ext = seq![p] + args;
    assert(ext.len() == args.len() + 1);
    if i >= args.len() {
    } else {
        assert(ext[i + 1] == args[i]);
        if i + 1 < args.len() {
            assert(ext[i + 2] == args[i + 1]);
        }
        let a = args[i];
        if a == "-n"@ {
            if i + 1 < args.len() {
                match count_value(args[i + 1]) {
                    Some(v) => if v > 1 {
                        lemma_shifted(args, p, i + 2, Settings { threshold: Some(v), ..acc });
                    },
                    None => {},
                }
            }
        } else if a == "-zip"@ {
            lemma_shifted(args, p, i + 1, Settings { zip: true, ..acc });
        } else if a == "-list"@ {
            lemma_shifted(args, p, i + 1, Settings { list: true, ..acc });
        } else if a == "-ignore"@ {
            if i + 1 < args.len() {
                lemma_shifted(args, p, i + 2, Settings { ignore_file: Some(args[i + 1]), ..acc });
            }
        } else if a == "-store"@ {
            lemma_shifted(args, p, i + 1, Settings { store: true, ..acc });
        } else if a == "-include-hidden"@ {
            lemma_shifted(args, p, i + 1, Settings { include_hidden: true, ..acc });
        } else if a == "-h"@ || a == "-help"@ || a == "--help"@ {
        } else if starts_with_dash(a) {
        } else if acc.root is Some {
        } else {
            lemma_shifted(args, p, i + 1, Settings { root: Some(a), ..acc });
        }
    }
}

/// None of the words the reader recognises is a path.
proof fn lemma_options_start_with_dash(p: Seq<char>)
    requires
        !starts_with_dash(p),
    ensures
        p != "-n"@,
        p != "-zip"@,
        p != "-list"@,
        p != "-ignore"@,
        p != "-store"@,
        p != "-include-hidden"@,
        p != "-h"@,
        p != "-help"@,
        p != "--help"@,
{
    reveal_strlit("-n");
    reveal_strlit("-zip");
    reveal_strlit("-list");
    reveal_strlit("-ignore");
    reveal_strlit("-store");
    reveal_strlit("-include-hidden");
    reveal_strlit("-h");
    reveal_strlit("-help");
    reveal_strlit("--help");
}

/// A path at the end is read as the root, once the options before it are done.
proof fn lemma_path_last(args: Seq<Seq<char>>, p: Seq<char>, i: int, acc: Settings)
    requires
        0 <= i <= args.len(),
        !starts_with_dash(p),
        read_from(args, i, acc) is Ready,
        read_from(args, i, acc)->Ready_0.root is None,
    ensures
        read_from(args + seq![p], i, acc) == Reading::Ready(
            with_root(read_from(args, i, acc)->Ready_0, p),
        ),
    decreases args.len() - i,
{
    let ext = args + seq![p];
    assert(ext.len() == args.len() + 1);
    if i == args.len() {
        assert(ext[i] == p);
        lemma_options_start_with_dash(p);
        assert(read_from(ext, i + 1, with_root(acc, p)) == conclude(with_root(acc, p)));
    } else {
        assert(ext[i] == args[i]);
        if i + 1 < args.len() {
            assert(ext[i + 1] == args[i + 1]);
        }
        let a = args[i];
        if a == "-n"@ {
            if i + 1 < args.len() {
                match count_value(args[i + 1]) {
                    Some(v) => if v > 1 {
                        lemma_path_last(args, p, i + 2, Settings { threshold: Some(v), ..acc });
                    },
                    None => {},
                }
            }
        } else if a == "-zip"@ {
            lemma_path_last(args, p, i + 1, Settings { zip: true, ..acc });
        } else if a == "-list"@ {
            lemma_path_last(args, p, i + 1, Settings { list: true, ..acc });
        } else if a == "-ignore"@ {
            if i + 1 < args.len() {
                lemma_path_last(args, p, i + 2, Settings { ignore_file: Some(args[i + 1]), ..acc });
            }
        } else if a == "-store"@ {
            lemma_path_last(args, p, i + 1, Settings { store: true, ..acc });
        } else if a == "-include-hidden"@ {
            lemma_path_last(args, p, i + 1, Settings { include_hidden: true, ..acc });
        } else if a == "-h"@ || a == "-help"@ || a == "--help"@ {
        } else if starts_with_dash(a) {
        } else {
            lemma_root_stays(args, i + 1, Settings { root: Some(a), ..acc });
        }
    }
}

/// The path may stand before or after the options: when the options alone
/// are accepted without naming a path, a path put first and the same path
/// put last read the same, and that path becomes the root.
pub proof fn law_path_may_precede_or_follow(options: Seq<Seq<char>>, path: Seq<char>)
    requires
        !starts_with_dash(path),
        reading(options) is Ready,
        reading(options)->Ready_0.root is None,
    ensures
        reading(seq![path] + options) == reading(options + seq![path]),
        reading(options + seq![path]) == Reading::Ready(
            with_root(reading(options)->Ready_0, path),
        ),
{
    lemma_path_last(options, path, 0, no_settings());
    let ext = seq![path] + options;
    assert(ext[0] == path);
    lemma_options_start_with_dash(path);
    lemma_shifted(options, path, 0, with_root(no_settings(), path));
    lemma_root_carried(options, 0, no_settings(), path);
}

/// What every accepted reading satisfies.
pub open spec fn sound_settings(m: Settings) -> bool {
    &&& (m.root matches Some(p) ==> !starts_with_dash(p))
    &&& (m.threshold matches Some(t) ==> t > 1)
    &&& !(m.list && m.zip)
}

proof fn lemma_sound_from(args: Seq<Seq<char>>, i: int, acc: Settings)
    requires
        0 <= i,
        acc.root matches Some(p) ==> !starts_with_dash(p),
        acc.threshold matches Some(t) ==> t > 1,
    ensures
        read_from(args, i, acc) is Ready ==> sound_settings(read_from(args, i, acc)->Ready_0),
    decreases args.len() - i,
{
    if i >= args.len() {
    } else {
        let a = args[i];
        if a == "-n"@ {
            if i + 1 < args.len() {
                match count_value(args[i + 1]) {
                    Some(v) => if v > 1 {
                        lemma_sound_from(args, i + 2, Settings { threshold: Some(v), ..acc });
                    },
                    None => {},
                }
            }
        } else if a == "-zip"@ {
            lemma_sound_from(args, i + 1, Settings { zip: true, ..acc });
        } else if a == "-list"@ {
            lemma_sound_from(args, i + 1, Settings { list: true, ..acc });
        } else if a == "-ignore"@ {
            if i + 1 < args.len() {
                lemma_sound_from(args, i + 2, Settings { ignore_file: Some(args[i + 1]), ..acc });
            }
        } else if a == "-store"@ {
            lemma_sound_from(args, i + 1, Settings { store: true, ..acc });
        } else if a == "-include-hidden"@ {
            lemma_sound_from(args, i + 1, Settings { include_hidden: true, ..acc });
        } else if a == "-h"@ || a == "-help"@ || a == "--help"@ {
        } else if starts_with_dash(a) {
        } else if acc.root is Some {
        } else {
            lemma_sound_from(args, i + 1, Settings { root: Some(a), ..acc });
        }
    }
}

/// Whatever a command line is, once accepted: an argument starting with `-`
/// is never taken as the path, a threshold is always greater than 1, and
/// `-list` never comes with `-zip`.
pub proof fn law_accepted_command_lines_are_sound(args: Seq<Seq<char>>)
    ensures
        reading(args) is Ready ==> sound_settings(reading(args)->Ready_0),
{
    lemma_sound_from(args, 0, no_settings());
}

// ---------------------------------------------------------------------------
// Each flag sets its own setting.
// ---------------------------------------------------------------------------

/// Whether argument `i` is the value of the option before it (`-n COUNT`,
/// `-ignore FILE`) rather than an argument of its own.
pub open spec fn is_option_value(args: Seq<Seq<char>>, i: int) -> bool
    decreases i,
{
    if i <= 0 || i >= args.len() {
        false
    } else {
        (args[i - 1] == "-n"@ || args[i - 1] == "-ignore"@) && !is_option_value(args, i - 1)
    }
}

/// `flag` is given, from position `from` on, as an argument of its own.
pub open spec fn flag_given(args: Seq<Seq<char>>, from: int, flag: Seq<char>) -> bool {
    exists|j: int| from <= j < args.len() && #[trigger] args[j] == flag && !is_option_value(args, j)
}

proof fn lemma_flag_given_step(args: Seq<Seq<char>>, i: int, flag: Seq<char>)
    requires
        0 <= i < args.len(),
    ensures
        flag_given(args, i, flag) == ((args[i] == flag && !is_option_value(args, i)) || flag_given(
            args,
            i + 1,
            flag,
        )),
{
    if flag_given(args, i, flag) && !(args[i] == flag && !is_option_value(args, i)) {
        let j = choose|j: int| i <= j < args.len() && #[trigger] args[j] == flag && !is_option_value(args, j);
        assert(j > i);
    }
    if args[i] == flag && !is_option_value(args, i) {
        assert(args[i] == flag);
    }
}

proof fn lemma_flag_words_differ()
    ensures
        "-n"@ != "-zip"@,
        "-n"@ != "-list"@,
        "-n"@ != "-store"@,
        "-n"@ != "-include-hidden"@,
        "-ignore"@ != "-zip"@,
        "-ignore"@ != "-list"@,
        "-ignore"@ != "-store"@,
        "-ignore"@ != "-include-hidden"@,
        "-zip"@ != "-list"@,
        "-zip"@ != "-store"@,
        "-zip"@ != "-include-hidden"@,
        "-list"@ != "-store"@,
        "-list"@ != "-include-hidden"@,
        "-store"@ != "-include-hidden"@,
{
    reveal_strlit("-n");
    reveal_strlit("-ignore");
    reveal_strlit("-zip");
    reveal_strlit("-list");
    reveal_strlit("-store");
    reveal_strlit("-include-hidden");
    assert("-zip"@[1] != "-list"@[1]);
    assert("-store"@[1] != "-list"@[1]);
    assert("-n"@.len() != "-include-hidden"@.len());
    assert("-ignore"@[2] != "-include-hidden"@[2]);
}

/// The four flags, from position `i` on, set exactly their own settings.
pub open spec fn flags_read(args: Seq<Seq<char>>, i: int, acc: Settings, m: Settings) -> bool {
    &&& m.zip == (acc.zip || flag_given(args, i, "-zip"@))
    &&& m.list == (acc.list || flag_given(args, i, "-list"@))
    &&& m.store == (acc.store || flag_given(args, i, "-store"@))
    &&& m.include_hidden == (acc.include_hidden || flag_given(args, i, "-include-hidden"@))
}

proof fn lemma_step_all(args: Seq<Seq<char>>, i: int)
    requires
        0 <= i < args.len(),
    ensures
        flag_given(args, i, "-zip"@) == ((args[i] == "-zip"@ && !is_option_value(args, i))
            || flag_given(args, i + 1, "-zip"@)),
        flag_given(args, i, "-list"@) == ((args[i] == "-list"@ && !is_option_value(args, i))
            || flag_given(args, i + 1, "-list"@)),
        flag_given(args, i, "-store"@) == ((args[i] == "-store"@ && !is_option_value(args, i))
            || flag_given(args, i + 1, "-store"@)),
        flag_given(args, i, "-include-hidden"@) == ((args[i] == "-include-hidden"@
            && !is_option_value(args, i)) || flag_given(args, i + 1, "-include-hidden"@)),
{
    lemma_flag_given_step(args, i, "-zip"@);
    lemma_flag_given_step(args, i, "-list"@);
    lemma_flag_given_step(args, i, "-store"@);
    lemma_flag_given_step(args, i, "-include-hidden"@);
}

proof fn lemma_flags_from(args: Seq<Seq<char>>, i: int, acc: Settings)
    requires
        0 <= i <= args.len(),
        !is_option_value(args, i),
    ensures
        read_from(args, i, acc) matches Reading::Ready(m) ==> flags_read(args, i, acc, m),
    decreases args.len() - i,
{
    lemma_flag_words_differ();
    if i < args.len() {
        let a = args[i];
        lemma_step_all(args, i);
        if a == "-n"@ {
            if i + 1 < args.len() {
                assert(is_option_value(args, i + 1));
                lemma_step_all(args, i + 1);
                assert(!is_option_value(args, i + 2));
                match count_value(args[i + 1]) {
                    Some(v) => if v > 1 {
                        lemma_flags_from(args, i + 2, Settings { threshold: Some(v), ..acc });
                    },
                    None => {},
                }
            }
        } else if a == "-zip"@ {
            lemma_flags_from(args, i + 1, Settings { zip: true, ..acc });
        } else if a == "-list"@ {
            lemma_flags_from(args, i + 1, Settings { list: true, ..acc });
        } else if a == "-ignore"@ {
            if i + 1 < args.len() {
                assert(is_option_value(args, i + 1));
                lemma_step_all(args, i + 1);
                assert(!is_option_value(args, i + 2));
                lemma_flags_from(args, i + 2, Settings { ignore_file: Some(args[i + 1]), ..acc });
            }
        } else if a == "-store"@ {
            lemma_flags_from(args, i + 1, Settings { store: true, ..acc });
        } else if a == "-include-hidden"@ {
            lemma_flags_from(args, i + 1, Settings { include_hidden: true, ..acc });
        } else if a == "-h"@ || a == "-help"@ || a == "--help"@ {
        } else if starts_with_dash(a) {
        } else if acc.root is Some {
        } else {
            lemma_flags_from(args, i + 1, Settings { root: Some(a), ..acc });
        }
    }
}

/// In an accepted command line each flag sets its own setting and no
/// other: `-zip`, `-list`, `-store` and `-include-hidden` are on exactly
/// when that flag is given as an argument of its own (not as the value of
/// `-n` or `-ignore`).
pub proof fn law_each_flag_sets_only_its_own_setting(args: Seq<Seq<char>>)
    ensures
        reading(args) matches Reading::Ready(m) ==> {
            &&& m.zip == flag_given(args, 0, "-zip"@)
            &&& m.list == flag_given(args, 0, "-list"@)
            &&& m.store == flag_given(args, 0, "-store"@)
            &&& m.include_hidden == flag_given(args, 0, "-include-hidden"@)
        },
{
    lemma_flags_from(args, 0, no_settings());
}

} // verus!
