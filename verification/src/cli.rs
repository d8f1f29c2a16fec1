//! The command line: reading option values, and the whole configuration.
//!
//! The options are read from first to last; the first problem met is the
//! error reported, and `--help` (or `-h`) ends the reading at once.
//! Whether a text is a valid floating-point number is decided by the caller
//! (this library holds no floating-point values) and comes with each
//! argument; the floating-point options keep their text.

use vstd::prelude::*;
use crate::palette::{palette_by_name, palette_named, unknown_palette_message};
use crate::text::{chars_of, debug_quoted, debug_text, decimal, same_text};

verus! {

/// Whether `c` is an ASCII decimal digit.
pub open spec fn is_digit(c: char) -> bool {
    '0' <= c && c <= '9'
}

/// The value of the decimal digit `c`.
pub open spec fn digit_value(c: char) -> nat {
    ((c as u32) - ('0' as u32)) as nat
}

/// Whether `s` is made of decimal digits only.
pub open spec fn all_digits(s: Seq<char>) -> bool {
    forall|i: int| 0 <= i < s.len() ==> is_digit(#[trigger] s[i])
}

/// The number that the decimal digits `s` write.
pub open spec fn digits_value(s: Seq<char>) -> nat
    decreases s.len(),
{
    if s.len() == 0 {
        0
    } else {
        digits_value(s.drop_last()) * 10 + digit_value(s.last())
    }
}

/// The number that `s` writes as an unsigned integer the way Rust's
/// `str::parse` reads one: an optional `+` followed by one or more decimal
/// digits, nothing else. `None` for any other text.
pub open spec fn unsigned_text_value(s: Seq<char>) -> Option<nat> {
    let digits = if s.len() > 0 && s[0] == '+' {
        s.drop_first()
    } else {
        s
    };
    if digits.len() > 0 && all_digits(digits) {
        Some(digits_value(digits))
    } else {
        None
    }
}

/// The message for a value that option `--name` cannot take.
pub open spec fn invalid_value_message(name: Seq<char>, value: Seq<char>) -> Seq<char> {
    "invalid value for --"@ + name + ": "@ + debug_quoted(value)
}

/// The message for an option `--name` given last, with no value after it.
pub open spec fn missing_value_message(name: Seq<char>) -> Seq<char> {
    "missing value for --"@ + name
}

proof fn lemma_digits_value_prefix(s: Seq<char>, k: int)
    requires
        0 <= k <= s.len(),
    ensures
        digits_value(s.subrange(0, k)) <= digits_value(s),
    decreases s.len() - k,
{
    if k < s.len() {
        lemma_digits_value_prefix(s, k + 1);
        let t = s.subrange(0, k + 1);
        assert(t.drop_last() =~= s.subrange(0, k));
        assert(digits_value(t) == digits_value(t.drop_last()) * 10 + digit_value(t.last()));
    } else {
        assert(s.subrange(0, k) =~= s);
    }
}

/// The value of option `--name`, read from `value` as an unsigned integer
/// no greater than `max` (`u64::MAX` for a `u64` option, `usize::MAX` for a
/// `usize` one), or the message that the value is invalid.
pub fn parse_value(name: &str, value: String, max: u64) -> (r: Result<u64, String>)
    ensures
        r is Ok <==> (unsigned_text_value(value@) matches Some(n) && n <= max),
        r matches Ok(n) ==> unsigned_text_value(value@) == Some(n as nat),
        r matches Err(msg) ==> msg@ == invalid_value_message(name@, value@),
{
    let chars = chars_of(value.as_str());
    let ghost s = value@;
    let start: usize = if chars.len() > 0 && chars[0] == '+' {
        1
    } else {
        0
    };
    let ghost digits = if s.len() > 0 && s[0] == '+' {
        s.drop_first()
    } else {
        s
    };
    proof {
        assert(digits =~= s.subrange(start as int, s.len() as int));
    }
    let mut ok = start < chars.len();
    let mut acc: u64 = 0;
    let mut i: usize = start;
    while ok && i < chars.len()
        invariant
            chars@ == s,
            digits =~= s.subrange(start as int, s.len() as int),
            start <= i <= chars@.len(),
            ok ==> (start < chars@.len() && acc as nat == digits_value(
                s.subrange(start as int, i as int),
            ) && acc <= max && all_digits(s.subrange(start as int, i as int))),
            !ok ==> (digits.len() == 0 || !all_digits(digits) || digits_value(digits) > max),
        decreases chars@.len() - i + (if ok {
            1int
        } else {
            0int
        }),
    {
        let c = chars[i];
        let ghost prefix = s.subrange(start as int, i as int);
        let ghost next = s.subrange(start as int, i + 1);
        proof {
            assert(next.drop_last() =~= prefix);
            assert(next.last() == c);
        }
        if '0' <= c && c <= '9' {
            let d = (c as u32 - '0' as u32) as u64;
            let wide = (acc as u128) * 10 + d as u128;
            if wide > max as u128 {
                proof {
                    lemma_digits_value_prefix(digits, (i + 1 - start) as int);
                    assert(digits.subrange(0, (i + 1 - start) as int) =~= next);
                }
                ok = false;
            } else {
                acc = wide as u64;
                i = i + 1;
                proof {
                    assert(all_digits(s.subrange(start as int, i as int))) by {
                        assert forall|j: int|
                            0 <= j < next.len() implies is_digit(#[trigger] next[j]) by {
                            if j < prefix.len() {
                                assert(next[j] == prefix[j]);
                            }
                        }
                    }
                }
            }
        } else {
            proof {
                assert(digits[(i - start) as int] == c);
            }
            ok = false;
        }
    }
    if ok {
        proof {
            assert(s.subrange(start as int, i as int) =~= digits);
        }
        Ok(acc)
    } else {
        let mut msg = String::from_str("invalid value for --");
        msg.append(name);
        msg.append(": ");
        let quoted = debug_text(value.as_str());
        msg.append(quoted.as_str());
        Err(msg)
    }
}

/// The value that follows option `--name`: `next` is what reading the next
/// argument gave, and `None` there means that `--name` came last.
pub fn next_arg(next: Option<String>, name: &str) -> (r: Result<String, String>)
    ensures
        match next {
            Some(v) => r matches Ok(t) && t@ == v@,
            None => r matches Err(msg) && msg@ == missing_value_message(name@),
        },
{
    match next {
        Some(v) => Ok(v),
        None => {
            let mut msg = String::from_str("missing value for --");
            msg.append(name);
            Err(msg)
        },
    }
}

proof fn lemma_digit_char_value(d: nat)
    requires
        d < 10,
    ensures
        is_digit(crate::text::digit_char(d)),
        digit_value(crate::text::digit_char(d)) == d,
{
}

/// Writing a number in decimal and reading it back gives the number again:
/// what `decimal` writes, `parse_value` reads.
pub proof fn lemma_decimal_reads_back(n: nat)
    ensures
        unsigned_text_value(decimal(n)) == Some(n),
    decreases n,
{
    lemma_decimal_digits(n);
}

pub(crate) proof fn lemma_decimal_digits(n: nat)
    ensures
        decimal(n).len() > 0,
        all_digits(decimal(n)),
        digits_value(decimal(n)) == n,
        is_digit(decimal(n)[0]),
    decreases n,
{
    lemma_digit_char_value(n % 10);
    if n >= 10 {
        lemma_decimal_digits(n / 10);
        let s = decimal(n);
        assert(s.drop_last() =~= decimal(n / 10));
        assert(s.last() == crate::text::digit_char(n % 10));
        assert(digits_value(s) == digits_value(s.drop_last()) * 10 + digit_value(s.last()));
        assert(n == (n / 10) * 10 + n % 10);
        assert(s[0] == decimal(n / 10)[0]);
        assert forall|i: int| 0 <= i < s.len() implies is_digit(#[trigger] s[i]) by {
            if i < s.len() - 1 {
                assert(s[i] == decimal(n / 10)[i]);
            }
        }
    } else {
        let s = decimal(n);
        assert(s.drop_last() =~= Seq::<char>::empty());
        assert(digits_value(s) == digits_value(s.drop_last()) * 10 + digit_value(s.last()));
        assert(digits_value(Seq::<char>::empty()) == 0);
    }
}

/// One command-line argument, with whether it reads as a floating-point
/// number (as `str::parse::<f64>` decides).
pub struct CliArg {
    pub text: String,
    pub parses_as_float: bool,
}

/// What a [`CliArg`] holds.
pub struct CliArgView {
    pub text: Seq<char>,
    pub parses_as_float: bool,
}

impl View for CliArg {
    type V = CliArgView;

    open spec fn view(&self) -> CliArgView {
        CliArgView { text: self.text@, parses_as_float: self.parses_as_float }
    }
}

/// The renderer's settings. The floating-point settings are kept as the
/// text they were given in, which reads as a floating-point number.
pub struct Config {
    pub width: usize,
    pub height: usize,
    pub iterations: u64,
    pub warmup: u64,
    pub cutoff_x: String,
    pub cutoff_y: String,
    pub exposure: Option<String>,
    pub palette: String,
    pub progress: bool,
    pub threads: usize,
    pub out_path: String,
}

/// What a [`Config`] holds.
pub struct ConfigView {
    pub width: nat,
    pub height: nat,
    pub iterations: nat,
    pub warmup: nat,
    pub cutoff_x: Seq<char>,
    pub cutoff_y: Seq<char>,
    pub exposure: Option<Seq<char>>,
    pub palette: Seq<char>,
    pub progress: bool,
    pub threads: nat,
    pub out_path: Seq<char>,
}

impl View for Config {
    type V = ConfigView;

    open spec fn view(&self) -> ConfigView {
        ConfigView {
            width: self.width as nat,
            height: self.height as nat,
            iterations: self.iterations as nat,
            warmup: self.warmup as nat,
            cutoff_x: self.cutoff_x@,
            cutoff_y: self.cutoff_y@,
            exposure: match self.exposure {
                Some(e) => Some(e@),
                None => None,
            },
            palette: self.palette@,
            progress: self.progress,
            threads: self.threads as nat,
            out_path: self.out_path@,
        }
    }
}

/// What the command line asks for: a run with these settings, or the usage
/// text.
pub enum CliOutcome {
    Run(Config),
    Help,
}

/// What a [`CliOutcome`] holds.
pub enum CliOutcomeView {
    Run(ConfigView),
    Help,
}

impl View for CliOutcome {
    type V = CliOutcomeView;

    open spec fn view(&self) -> CliOutcomeView {
        match self {
            CliOutcome::Run(c) => CliOutcomeView::Run(c@),
            CliOutcome::Help => CliOutcomeView::Help,
        }
    }
}

/// The settings before any option: a 15360 by 8640 image, a billion
/// iterations after a thousand of warm-up, the view cut off at 8.888888 by 5.0,
/// exposure chosen from the density, the `aurora` palette, progress shown,
/// `threads` workers, written to `out/16k.ppm`.
pub open spec fn default_config(threads: nat) -> ConfigView {
    ConfigView {
        width: 15360,
        height: 8640,
        iterations: 1_000_000_000,
        warmup: 1_000,
        cutoff_x: "8.888888"@,
        cutoff_y: "5.0"@,
        exposure: None,
        palette: "aurora"@,
        progress: true,
        threads,
        out_path: "out/16k.ppm"@,
    }
}

/// The arguments' contents.
pub open spec fn args_view(args: Seq<CliArg>) -> Seq<CliArgView> {
    args.map_values(|a: CliArg| a@)
}

/// The text after option `--name` at position `i`, or the message that it
/// is missing.
pub open spec fn text_option(args: Seq<CliArgView>, i: int, name: Seq<char>) -> Result<
    Seq<char>,
    Seq<char>,
> {
    if i + 1 < args.len() {
        Ok(args[i + 1].text)
    } else {
        Err(missing_value_message(name))
    }
}

/// The unsigned number up to `max` after option `--name` at position `i`,
/// or the message for the problem.
pub open spec fn count_option(args: Seq<CliArgView>, i: int, name: Seq<char>, max: nat) -> Result<
    nat,
    Seq<char>,
> {
    if i + 1 < args.len() {
        let v = args[i + 1].text;
        match unsigned_text_value(v) {
            Some(n) => if n <= max {
                Ok(n)
            } else {
                Err(invalid_value_message(name, v))
            },
            None => Err(invalid_value_message(name, v)),
        }
    } else {
        Err(missing_value_message(name))
    }
}

/// The floating-point text after option `--name` at position `i`, or the
/// message for the problem.
pub open spec fn float_option(args: Seq<CliArgView>, i: int, name: Seq<char>) -> Result<
    Seq<char>,
    Seq<char>,
> {
    if i + 1 < args.len() {
        if args[i + 1].parses_as_float {
            Ok(args[i + 1].text)
        } else {
            Err(invalid_value_message(name, args[i + 1].text))
        }
    } else {
        Err(missing_value_message(name))
    }
}

/// The checks made once every option is read.
pub open spec fn checked_config(c: ConfigView) -> Result<CliOutcomeView, Seq<char>> {
    if c.width == 0 {
        Err("--width must be positive"@)
    } else if c.height == 0 {
        Err("--height must be positive"@)
    } else if c.iterations == 0 {
        Err("--iterations must be positive"@)
    } else if c.threads == 0 {
        Err("--threads must be positive"@)
    } else if palette_named(c.palette) is None {
        Err(unknown_palette_message(c.palette))
    } else {
        Ok(CliOutcomeView::Run(c))
    }
}

/// Reading the arguments from position `i` on, with the settings `c` so far.
pub open spec fn read_args(args: Seq<CliArgView>, i: int, c: ConfigView) -> Result<
    CliOutcomeView,
    Seq<char>,
>
    decreases args.len() - i,
{
    if i >= args.len() {
        checked_config(c)
    } else {
        let a = args[i].text;
        if a == "--width"@ {
            match count_option(args, i, "width"@, usize::MAX as nat) {
                Ok(n) => read_args(args, i + 2, ConfigView { width: n, ..c }),
                Err(e) => Err(e),
            }
        } else if a == "--height"@ {
            match count_option(args, i, "height"@, usize::MAX as nat) {
                Ok(n) => read_args(args, i + 2, ConfigView { height: n, ..c }),
                Err(e) => Err(e),
            }
        } else if a == "--iterations"@ {
            match count_option(args, i, "iterations"@, u64::MAX as nat) {
                Ok(n) => read_args(args, i + 2, ConfigView { iterations: n, ..c }),
                Err(e) => Err(e),
            }
        } else if a == "--warmup"@ {
            match count_option(args, i, "warmup"@, u64::MAX as nat) {
                Ok(n) => read_args(args, i + 2, ConfigView { warmup: n, ..c }),
                Err(e) => Err(e),
            }
        } else if a == "--cutoff-x"@ {
            match float_option(args, i, "cutoff-x"@) {
                Ok(t) => read_args(args, i + 2, ConfigView { cutoff_x: t, ..c }),
                Err(e) => Err(e),
            }
        } else if a == "--cutoff-y"@ {
            match float_option(args, i, "cutoff-y"@) {
                Ok(t) => read_args(args, i + 2, ConfigView { cutoff_y: t, ..c }),
                Err(e) => Err(e),
            }
        } else if a == "--exposure"@ {
            match float_option(args, i, "exposure"@) {
                Ok(t) => read_args(args, i + 2, ConfigView { exposure: Some(t), ..c }),
                Err(e) => Err(e),
            }
        } else if a == "--palette"@ {
            match text_option(args, i, "palette"@) {
                Ok(t) => read_args(args, i + 2, ConfigView { palette: t, ..c }),
                Err(e) => Err(e),
            }
        } else if a == "--threads"@ {
            match count_option(args, i, "threads"@, usize::MAX as nat) {
                Ok(n) => read_args(args, i + 2, ConfigView { threads: n, ..c }),
                Err(e) => Err(e),
            }
        } else if a == "--quiet"@ {
            read_args(args, i + 1, ConfigView { progress: false, ..c })
        } else if a == "--out"@ {
            match text_option(args, i, "out"@) {
                Ok(t) => read_args(args, i + 2, ConfigView { out_path: t, ..c }),
                Err(e) => Err(e),
            }
        } else if a == "--help"@ || a == "-h"@ {
            Ok(CliOutcomeView::Help)
        } else if !(a.len() > 0 && a[0] == '-') {
            read_args(args, i + 1, ConfigView { out_path: a, ..c })
        } else {
            Err("unknown option "@ + debug_quoted(a))
        }
    }
}

/// What the command line `args` (the program's name left out) asks for,
/// with `default_threads` workers unless it says otherwise.
pub open spec fn config_from_args(args: Seq<CliArgView>, default_threads: nat) -> Result<
    CliOutcomeView,
    Seq<char>,
> {
    read_args(args, 0, default_config(default_threads))
}

/// Whether settings pass the checks made once every option is read.
pub open spec fn config_is_valid(c: ConfigView) -> bool {
    &&& c.width > 0
    &&& c.height > 0
    &&& c.iterations > 0
    &&& c.threads > 0
    &&& palette_named(c.palette) is Some
}

/// Whether a reading of the command line, if it asks for a run, asks for
/// one with valid settings.
pub open spec fn run_is_valid(r: Result<CliOutcomeView, Seq<char>>) -> bool {
    r matches Ok(CliOutcomeView::Run(d)) ==> config_is_valid(d)
}

proof fn lemma_read_args_runs_are_valid(args: Seq<CliArgView>, i: int)
    requires
        0 <= i,
    ensures
        forall|c: ConfigView| run_is_valid(#[trigger] read_args(args, i, c)),
    decreases args.len() - i,
{
    if i < args.len() {
        lemma_read_args_runs_are_valid(args, i + 1);
        if i + 1 < args.len() {
            lemma_read_args_runs_are_valid(args, i + 2);
        }
    }
    assert forall|c: ConfigView| run_is_valid(#[trigger] read_args(args, i, c)) by {
        if i >= args.len() {
            assert(read_args(args, i, c) == checked_config(c));
        } else {
            let a = args[i].text;
            assert(run_is_valid(read_args(args, i + 1, ConfigView { progress: false, ..c })));
            assert(run_is_valid(read_args(args, i + 1, ConfigView { out_path: a, ..c })));
            if i + 1 < args.len() {
                let t = args[i + 1].text;
                let n = match unsigned_text_value(t) {
                    Some(n) => n,
                    None => 0,
                };
                assert(run_is_valid(read_args(args, i + 2, ConfigView { width: n, ..c })));
                assert(run_is_valid(read_args(args, i + 2, ConfigView { height: n, ..c })));
                assert(run_is_valid(read_args(args, i + 2, ConfigView { iterations: n, ..c })));
                assert(run_is_valid(read_args(args, i + 2, ConfigView { warmup: n, ..c })));
                assert(run_is_valid(read_args(args, i + 2, ConfigView { threads: n, ..c })));
                assert(run_is_valid(read_args(args, i + 2, ConfigView { cutoff_x: t, ..c })));
                assert(run_is_valid(read_args(args, i + 2, ConfigView { cutoff_y: t, ..c })));
                assert(run_is_valid(
                    read_args(args, i + 2, ConfigView { exposure: Some(t), ..c }),
                ));
                assert(run_is_valid(read_args(args, i + 2, ConfigView { palette: t, ..c })));
                assert(run_is_valid(read_args(args, i + 2, ConfigView { out_path: t, ..c })));
            }
        }
    }
}

/// A run is only ever asked for with settings that pass the final checks:
/// a positive width, height, iteration count and number of workers, and a
/// palette that exists.
pub proof fn lemma_run_config_is_valid(args: Seq<CliArgView>, default_threads: nat)
    ensures
        run_is_valid(config_from_args(args, default_threads)),
{
    lemma_read_args_runs_are_valid(args, 0);
}

/// Reading from position `p.len() + j` of `p + rest` is reading from
/// position `j` of `rest`: what comes before does not matter.
pub(crate) proof fn lemma_read_args_suffix(p: Seq<CliArgView>, rest: Seq<CliArgView>, j: int)
    requires
        0 <= j,
    ensures
        forall|c: ConfigView|
            #[trigger] read_args(p + rest, p.len() + j, c) == read_args(rest, j, c),
    decreases rest.len() - j,
{
    let args = p + rest;
    let i = p.len() + j;
    if j < rest.len() {
        lemma_read_args_suffix(p, rest, j + 1);
        if j + 1 < rest.len() {
            lemma_read_args_suffix(p, rest, j + 2);
        }
    }
    assert forall|c: ConfigView| #[trigger] read_args(args, i, c) == read_args(rest, j, c) by {
        if j < rest.len() {
            assert(args[i] == rest[j]);
            let a = rest[j].text;
            assert(read_args(args, i + 1, ConfigView { progress: false, ..c }) == read_args(
                rest,
                j + 1,
                ConfigView { progress: false, ..c },
            ));
            assert(read_args(args, i + 1, ConfigView { out_path: a, ..c }) == read_args(
                rest,
                j + 1,
                ConfigView { out_path: a, ..c },
            ));
            if j + 1 < rest.len() {
                assert(args[i + 1] == rest[j + 1]);
                let t = rest[j + 1].text;
                let n = match unsigned_text_value(t) {
                    Some(n) => n,
                    None => 0,
                };
                assert(read_args(args, i + 2, ConfigView { width: n, ..c }) == read_args(
                    rest,
                    j + 2,
                    ConfigView { width: n, ..c },
                ));
                assert(read_args(args, i + 2, ConfigView { height: n, ..c }) == read_args(
                    rest,
                    j + 2,
                    ConfigView { height: n, ..c },
                ));
                assert(read_args(args, i + 2, ConfigView { iterations: n, ..c }) == read_args(
                    rest,
                    j + 2,
                    ConfigView { iterations: n, ..c },
                ));
                assert(read_args(args, i + 2, ConfigView { warmup: n, ..c }) == read_args(
                    rest,
                    j + 2,
                    ConfigView { warmup: n, ..c },
                ));
                assert(read_args(args, i + 2, ConfigView { threads: n, ..c }) == read_args(
                    rest,
                    j + 2,
                    ConfigView { threads: n, ..c },
                ));
                assert(read_args(args, i + 2, ConfigView { cutoff_x: t, ..c }) == read_args(
                    rest,
                    j + 2,
                    ConfigView { cutoff_x: t, ..c },
                ));
                assert(read_args(args, i + 2, ConfigView { cutoff_y: t, ..c }) == read_args(
                    rest,
                    j + 2,
                    ConfigView { cutoff_y: t, ..c },
                ));
                assert(read_args(args, i + 2, ConfigView { exposure: Some(t), ..c }) == read_args(
                    rest,
                    j + 2,
                    ConfigView { exposure: Some(t), ..c },
                ));
                assert(read_args(args, i + 2, ConfigView { palette: t, ..c }) == read_args(
                    rest,
                    j + 2,
                    ConfigView { palette: t, ..c },
                ));
                assert(read_args(args, i + 2, ConfigView { out_path: t, ..c }) == read_args(
                    rest,
                    j + 2,
                    ConfigView { out_path: t, ..c },
                ));
            }
        } else {
            assert(i >= args.len());
        }
    }
}

/// A reading with progress reports turned off.
pub open spec fn quieted(r: Result<CliOutcomeView, Seq<char>>) -> Result<CliOutcomeView, Seq<char>> {
    match r {
        Ok(CliOutcomeView::Run(c)) => Ok(CliOutcomeView::Run(ConfigView { progress: false, ..c })),
        _ => r,
    }
}

/// Whether progress is shown has no bearing on the rest of the reading.
proof fn lemma_read_args_progress_apart(args: Seq<CliArgView>, i: int)
    requires
        0 <= i,
    ensures
        forall|c: ConfigView|
            #[trigger] read_args(args, i, ConfigView { progress: false, ..c }) == quieted(
                read_args(args, i, c),
            ),
    decreases args.len() - i,
{
    if i < args.len() {
        lemma_read_args_progress_apart(args, i + 1);
        if i + 1 < args.len() {
            lemma_read_args_progress_apart(args, i + 2);
        }
    }
    assert forall|c: ConfigView|
        #[trigger] read_args(args, i, ConfigView { progress: false, ..c }) == quieted(
            read_args(args, i, c),
        ) by {
        let q = ConfigView { progress: false, ..c };
        if i < args.len() {
            let a = args[i].text;
            assert(read_args(args, i + 1, ConfigView { progress: false, ..q }) == quieted(
                read_args(args, i + 1, ConfigView { progress: false, ..c }),
            ));
            assert(read_args(args, i + 1, ConfigView { progress: false, ..ConfigView { out_path: a, ..c } }) == quieted(
                read_args(args, i + 1, ConfigView { out_path: a, ..c }),
            ));
            if i + 1 < args.len() {
                let t = args[i + 1].text;
                let n = match unsigned_text_value(t) {
                    Some(n) => n,
                    None => 0,
                };
                assert(read_args(args, i + 2, ConfigView { progress: false, ..ConfigView { width: n, ..c } }) == quieted(
                    read_args(args, i + 2, ConfigView { width: n, ..c }),
                ));
                assert(read_args(args, i + 2, ConfigView { progress: false, ..ConfigView { height: n, ..c } }) == quieted(
                    read_args(args, i + 2, ConfigView { height: n, ..c }),
                ));
                assert(read_args(args, i + 2, ConfigView { progress: false, ..ConfigView { iterations: n, ..c } }) == quieted(
                    read_args(args, i + 2, ConfigView { iterations: n, ..c }),
                ));
                assert(read_args(args, i + 2, ConfigView { progress: false, ..ConfigView { warmup: n, ..c } }) == quieted(
                    read_args(args, i + 2, ConfigView { warmup: n, ..c }),
                ));
                assert(read_args(args, i + 2, ConfigView { progress: false, ..ConfigView { threads: n, ..c } }) == quieted(
                    read_args(args, i + 2, ConfigView { threads: n, ..c }),
                ));
                assert(read_args(args, i + 2, ConfigView { progress: false, ..ConfigView { cutoff_x: t, ..c } }) == quieted(
                    read_args(args, i + 2, ConfigView { cutoff_x: t, ..c }),
                ));
                assert(read_args(args, i + 2, ConfigView { progress: false, ..ConfigView { cutoff_y: t, ..c } }) == quieted(
                    read_args(args, i + 2, ConfigView { cutoff_y: t, ..c }),
                ));
                assert(read_args(args, i + 2, ConfigView { progress: false, ..ConfigView { exposure: Some(t), ..c } }) == quieted(
                    read_args(args, i + 2, ConfigView { exposure: Some(t), ..c }),
                ));
                assert(read_args(args, i + 2, ConfigView { progress: false, ..ConfigView { palette: t, ..c } }) == quieted(
                    read_args(args, i + 2, ConfigView { palette: t, ..c }),
                ));
                assert(read_args(args, i + 2, ConfigView { progress: false, ..ConfigView { out_path: t, ..c } }) == quieted(
                    read_args(args, i + 2, ConfigView { out_path: t, ..c }),
                ));
            }
        } else {
            assert(read_args(args, i, q) == checked_config(q));
            assert(read_args(args, i, c) == checked_config(c));
        }
    }
}

/// The option names differ from one another, and each starts with `-`.
pub(crate) proof fn lemma_option_names_distinct()
    ensures
        "--width"@ != "--height"@,
        "--width"@ != "--iterations"@,
        "--width"@ != "--warmup"@,
        "--width"@ != "--cutoff-x"@,
        "--width"@ != "--cutoff-y"@,
        "--width"@ != "--exposure"@,
        "--width"@ != "--palette"@,
        "--width"@ != "--threads"@,
        "--width"@ != "--quiet"@,
        "--width"@ != "--out"@,
        "--width"@ != "--help"@,
        "--width"@ != "-h"@,
        "--height"@ != "--iterations"@,
        "--height"@ != "--warmup"@,
        "--height"@ != "--cutoff-x"@,
        "--height"@ != "--cutoff-y"@,
        "--height"@ != "--exposure"@,
        "--height"@ != "--palette"@,
        "--height"@ != "--threads"@,
        "--height"@ != "--quiet"@,
        "--height"@ != "--out"@,
        "--height"@ != "--help"@,
        "--height"@ != "-h"@,
        "--iterations"@ != "--warmup"@,
        "--iterations"@ != "--cutoff-x"@,
        "--iterations"@ != "--cutoff-y"@,
        "--iterations"@ != "--exposure"@,
        "--iterations"@ != "--palette"@,
        "--iterations"@ != "--threads"@,
        "--iterations"@ != "--quiet"@,
        "--iterations"@ != "--out"@,
        "--iterations"@ != "--help"@,
        "--iterations"@ != "-h"@,
        "--warmup"@ != "--cutoff-x"@,
        "--warmup"@ != "--cutoff-y"@,
        "--warmup"@ != "--exposure"@,
        "--warmup"@ != "--palette"@,
        "--warmup"@ != "--threads"@,
        "--warmup"@ != "--quiet"@,
        "--warmup"@ != "--out"@,
        "--warmup"@ != "--help"@,
        "--warmup"@ != "-h"@,
        "--cutoff-x"@ != "--cutoff-y"@,
        "--cutoff-x"@ != "--exposure"@,
        "--cutoff-x"@ != "--palette"@,
        "--cutoff-x"@ != "--threads"@,
        "--cutoff-x"@ != "--quiet"@,
        "--cutoff-x"@ != "--out"@,
        "--cutoff-x"@ != "--help"@,
        "--cutoff-x"@ != "-h"@,
        "--cutoff-y"@ != "--exposure"@,
        "--cutoff-y"@ != "--palette"@,
        "--cutoff-y"@ != "--threads"@,
        "--cutoff-y"@ != "--quiet"@,
        "--cutoff-y"@ != "--out"@,
        "--cutoff-y"@ != "--help"@,
        "--cutoff-y"@ != "-h"@,
        "--exposure"@ != "--palette"@,
        "--exposure"@ != "--threads"@,
        "--exposure"@ != "--quiet"@,
        "--exposure"@ != "--out"@,
        "--exposure"@ != "--help"@,
        "--exposure"@ != "-h"@,
        "--palette"@ != "--threads"@,
        "--palette"@ != "--quiet"@,
        "--palette"@ != "--out"@,
        "--palette"@ != "--help"@,
        "--palette"@ != "-h"@,
        "--threads"@ != "--quiet"@,
        "--threads"@ != "--out"@,
        "--threads"@ != "--help"@,
        "--threads"@ != "-h"@,
        "--quiet"@ != "--out"@,
        "--quiet"@ != "--help"@,
        "--quiet"@ != "-h"@,
        "--out"@ != "--help"@,
        "--out"@ != "-h"@,
        "--help"@ != "-h"@,
        "--width"@.len() > 1 && "--width"@[0] == '-',
        "--height"@.len() > 1 && "--height"@[0] == '-',
        "--iterations"@.len() > 1 && "--iterations"@[0] == '-',
        "--warmup"@.len() > 1 && "--warmup"@[0] == '-',
        "--cutoff-x"@.len() > 1 && "--cutoff-x"@[0] == '-',
        "--cutoff-y"@.len() > 1 && "--cutoff-y"@[0] == '-',
        "--exposure"@.len() > 1 && "--exposure"@[0] == '-',
        "--palette"@.len() > 1 && "--palette"@[0] == '-',
        "--threads"@.len() > 1 && "--threads"@[0] == '-',
        "--quiet"@.len() > 1 && "--quiet"@[0] == '-',
        "--out"@.len() > 1 && "--out"@[0] == '-',
        "--help"@.len() > 1 && "--help"@[0] == '-',
        "-h"@.len() > 1 && "-h"@[0] == '-',
{
    reveal_strlit("--width");
    reveal_strlit("--height");
    reveal_strlit("--iterations");
    reveal_strlit("--warmup");
    reveal_strlit("--cutoff-x");
    reveal_strlit("--cutoff-y");
    reveal_strlit("--exposure");
    reveal_strlit("--palette");
    reveal_strlit("--threads");
    reveal_strlit("--quiet");
    reveal_strlit("--out");
    reveal_strlit("--help");
    reveal_strlit("-h");
    assert("--width"@[2] != "--quiet"@[2]);
    assert("--height"@[2] != "--warmup"@[2]);
    assert("--cutoff-x"@[9] != "--cutoff-y"@[9]);
    assert("--width"@[2] != "--height"@[2]);
    assert("--width"@[2] != "--iterations"@[2]);
    assert("--width"@[3] != "--warmup"@[3]);
    assert("--width"@[2] != "--cutoff-x"@[2]);
    assert("--width"@[2] != "--cutoff-y"@[2]);
    assert("--width"@[2] != "--exposure"@[2]);
    assert("--width"@[2] != "--palette"@[2]);
    assert("--width"@[2] != "--threads"@[2]);
    assert("--width"@[2] != "--out"@[2]);
    assert("--width"@[2] != "--help"@[2]);
    assert("--width"@[1] != "-h"@[1]);
    assert("--height"@[2] != "--iterations"@[2]);
    assert("--height"@[2] != "--cutoff-x"@[2]);
    assert("--height"@[2] != "--cutoff-y"@[2]);
    assert("--height"@[2] != "--exposure"@[2]);
    assert("--height"@[2] != "--palette"@[2]);
    assert("--height"@[2] != "--threads"@[2]);
    assert("--height"@[2] != "--quiet"@[2]);
    assert("--height"@[2] != "--out"@[2]);
    assert("--height"@[4] != "--help"@[4]);
    assert("--height"@[1] != "-h"@[1]);
    assert("--iterations"@[2] != "--warmup"@[2]);
    assert("--iterations"@[2] != "--cutoff-x"@[2]);
    assert("--iterations"@[2] != "--cutoff-y"@[2]);
    assert("--iterations"@[2] != "--exposure"@[2]);
    assert("--iterations"@[2] != "--palette"@[2]);
    assert("--iterations"@[2] != "--threads"@[2]);
    assert("--iterations"@[2] != "--quiet"@[2]);
    assert("--iterations"@[2] != "--out"@[2]);
    assert("--iterations"@[2] != "--help"@[2]);
    assert("--iterations"@[1] != "-h"@[1]);
    assert("--warmup"@[2] != "--cutoff-x"@[2]);
    assert("--warmup"@[2] != "--cutoff-y"@[2]);
    assert("--warmup"@[2] != "--exposure"@[2]);
    assert("--warmup"@[2] != "--palette"@[2]);
    assert("--warmup"@[2] != "--threads"@[2]);
    assert("--warmup"@[2] != "--quiet"@[2]);
    assert("--warmup"@[2] != "--out"@[2]);
    assert("--warmup"@[2] != "--help"@[2]);
    assert("--warmup"@[1] != "-h"@[1]);
    assert("--cutoff-x"@[2] != "--palette"@[2]);
    assert("--cutoff-x"@[2] != "--threads"@[2]);
    assert("--cutoff-x"@[2] != "--quiet"@[2]);
    assert("--cutoff-x"@[2] != "--out"@[2]);
    assert("--cutoff-x"@[2] != "--help"@[2]);
    assert("--cutoff-x"@[1] != "-h"@[1]);
    assert("--cutoff-y"@[2] != "--palette"@[2]);
    assert("--cutoff-y"@[2] != "--threads"@[2]);
    assert("--cutoff-y"@[2] != "--quiet"@[2]);
    assert("--cutoff-y"@[2] != "--out"@[2]);
    assert("--cutoff-y"@[2] != "--help"@[2]);
    assert("--cutoff-y"@[1] != "-h"@[1]);
    assert("--exposure"@[2] != "--palette"@[2]);
    assert("--exposure"@[2] != "--threads"@[2]);
    assert("--exposure"@[2] != "--quiet"@[2]);
    assert("--exposure"@[2] != "--out"@[2]);
    assert("--exposure"@[2] != "--help"@[2]);
    assert("--exposure"@[1] != "-h"@[1]);
    assert("--palette"@[2] != "--quiet"@[2]);
    assert("--palette"@[2] != "--out"@[2]);
    assert("--palette"@[2] != "--help"@[2]);
    assert("--palette"@[1] != "-h"@[1]);
    assert("--threads"@[2] != "--quiet"@[2]);
    assert("--threads"@[2] != "--out"@[2]);
    assert("--threads"@[2] != "--help"@[2]);
    assert("--threads"@[1] != "-h"@[1]);
    assert("--quiet"@[2] != "--out"@[2]);
    assert("--quiet"@[2] != "--help"@[2]);
    assert("--quiet"@[1] != "-h"@[1]);
    assert("--out"@[2] != "--help"@[2]);
    assert("--out"@[1] != "-h"@[1]);
    assert("--help"@[1] != "-h"@[1]);
    assert("--cutoff-x"@[2] != "--exposure"@[2]);
    assert("--cutoff-y"@[2] != "--exposure"@[2]);
    assert("--palette"@[2] != "--threads"@[2]);
}

/// `--quiet` takes no value: it consumes just itself, and reading
/// `--quiet` followed by `rest` asks for what `rest` alone asks for, with
/// progress reports turned off.
pub proof fn lemma_quiet_takes_no_value(rest: Seq<CliArgView>, flag: bool, default_threads: nat)
    ensures
        config_from_args(
            seq![CliArgView { text: "--quiet"@, parses_as_float: flag }] + rest,
            default_threads,
        ) == quieted(config_from_args(rest, default_threads)),
{
    let p = seq![CliArgView { text: "--quiet"@, parses_as_float: flag }];
    let args = p + rest;
    let d = default_config(default_threads);
    lemma_option_names_distinct();
    assert(args[0] == p[0]);
    lemma_read_args_suffix(p, rest, 0);
    lemma_read_args_progress_apart(rest, 0);
    assert(read_args(args, 0, d) == read_args(args, 1, ConfigView { progress: false, ..d }));
    assert(read_args(args, 1, ConfigView { progress: false, ..d }) == read_args(
        rest,
        0,
        ConfigView { progress: false, ..d },
    ));
}

/// Whether `t` is the text of one of the arguments that read as a
/// floating-point number.
pub open spec fn from_float_arg(args: Seq<CliArgView>, t: Seq<char>) -> bool {
    exists|k: int| 0 <= k < args.len() && #[trigger] args[k].text == t && args[k].parses_as_float
}

/// Whether every floating-point setting of `c` is either its default or the
/// text of an argument that reads as a number.
pub open spec fn floats_read(args: Seq<CliArgView>, c: ConfigView) -> bool {
    &&& (c.cutoff_x == "8.888888"@ || from_float_arg(args, c.cutoff_x))
    &&& (c.cutoff_y == "5.0"@ || from_float_arg(args, c.cutoff_y))
    &&& (c.exposure matches Some(e) ==> from_float_arg(args, e))
}

/// Whether a reading, if it asks for a run, has floating-point settings
/// that read as numbers.
pub open spec fn run_floats_read(args: Seq<CliArgView>, r: Result<CliOutcomeView, Seq<char>>) -> bool {
    r matches Ok(CliOutcomeView::Run(d)) ==> floats_read(args, d)
}

proof fn lemma_read_args_floats_read(args: Seq<CliArgView>, i: int)
    requires
        0 <= i,
    ensures
        forall|c: ConfigView|
            floats_read(args, c) ==> run_floats_read(args, #[trigger] read_args(args, i, c)),
    decreases args.len() - i,
{
    if i < args.len() {
        lemma_read_args_floats_read(args, i + 1);
        if i + 1 < args.len() {
            lemma_read_args_floats_read(args, i + 2);
        }
    }
    assert forall|c: ConfigView|
        floats_read(args, c) implies run_floats_read(args, #[trigger] read_args(args, i, c)) by {
        if i < args.len() {
            let a = args[i].text;
            assert(floats_read(args, ConfigView { progress: false, ..c }));
            assert(run_floats_read(args, read_args(args, i + 1, ConfigView { progress: false, ..c })));
            assert(floats_read(args, ConfigView { out_path: a, ..c }));
            assert(run_floats_read(args, read_args(args, i + 1, ConfigView { out_path: a, ..c })));
            if i + 1 < args.len() {
                let t = args[i + 1].text;
                let n = match unsigned_text_value(t) {
                    Some(n) => n,
                    None => 0,
                };
                assert(floats_read(args, ConfigView { width: n, ..c }));
                assert(run_floats_read(args, read_args(args, i + 2, ConfigView { width: n, ..c })));
                assert(floats_read(args, ConfigView { height: n, ..c }));
                assert(run_floats_read(args, read_args(args, i + 2, ConfigView { height: n, ..c })));
                assert(floats_read(args, ConfigView { iterations: n, ..c }));
                assert(run_floats_read(args, read_args(args, i + 2, ConfigView { iterations: n, ..c })));
                assert(floats_read(args, ConfigView { warmup: n, ..c }));
                assert(run_floats_read(args, read_args(args, i + 2, ConfigView { warmup: n, ..c })));
                assert(floats_read(args, ConfigView { threads: n, ..c }));
                assert(run_floats_read(args, read_args(args, i + 2, ConfigView { threads: n, ..c })));
                assert(floats_read(args, ConfigView { palette: t, ..c }));
                assert(run_floats_read(args, read_args(args, i + 2, ConfigView { palette: t, ..c })));
                assert(floats_read(args, ConfigView { out_path: t, ..c }));
                assert(run_floats_read(args, read_args(args, i + 2, ConfigView { out_path: t, ..c })));
                if args[i + 1].parses_as_float {
                    assert(from_float_arg(args, t));
                    assert(floats_read(args, ConfigView { cutoff_x: t, ..c }));
                    assert(run_floats_read(args, read_args(args, i + 2, ConfigView { cutoff_x: t, ..c })));
                    assert(floats_read(args, ConfigView { cutoff_y: t, ..c }));
                    assert(run_floats_read(args, read_args(args, i + 2, ConfigView { cutoff_y: t, ..c })));
                    assert(floats_read(args, ConfigView { exposure: Some(t), ..c }));
                    assert(run_floats_read(
                        args,
                        read_args(args, i + 2, ConfigView { exposure: Some(t), ..c }),
                    ));
                }
            }
        } else {
            assert(read_args(args, i, c) == checked_config(c));
        }
    }
}

/// Every floating-point setting of a run is either its default or the text
/// of an argument that reads as a number: a value that is not a number is
/// never accepted for `--cutoff-x`, `--cutoff-y` or `--exposure`.
pub proof fn lemma_float_settings_read_as_numbers(args: Seq<CliArgView>, default_threads: nat)
    ensures
        run_floats_read(args, config_from_args(args, default_threads)),
{
    lemma_read_args_floats_read(args, 0);
    assert(floats_read(args, default_config(default_threads)));
}

/// The contents of a result that holds text either way.
pub open spec fn text_result(r: Result<String, String>) -> Result<Seq<char>, Seq<char>> {
    match r {
        Ok(t) => Ok(t@),
        Err(e) => Err(e@),
    }
}

/// The contents of a result that holds a number or a message.
pub open spec fn count_result(r: Result<u64, String>) -> Result<nat, Seq<char>> {
    match r {
        Ok(n) => Ok(n as nat),
        Err(e) => Err(e@),
    }
}

/// The contents of the command line's reading.
pub open spec fn outcome_result(r: Result<CliOutcome, String>) -> Result<
    CliOutcomeView,
    Seq<char>,
> {
    match r {
        Ok(o) => Ok(o@),
        Err(e) => Err(e@),
    }
}

/// The argument after position `i`, if there is one.
fn following_arg(args: &Vec<CliArg>, i: usize) -> (r: Option<String>)
    ensures
        i + 1 < args@.len() ==> (r matches Some(t) && t@ == args@[i + 1].text@),
        i + 1 >= args@.len() ==> r is None,
{
    if i < args.len() && i + 1 < args.len() {
        Some(args[i + 1].text.clone())
    } else {
        None
    }
}

/// The text value of option `--name` at position `i`.
fn take_text(args: &Vec<CliArg>, i: usize, name: &str) -> (r: Result<String, String>)
    ensures
        text_result(r) == text_option(args_view(args@), i as int, name@),
{
    next_arg(following_arg(args, i), name)
}

/// The unsigned value up to `max` of option `--name` at position `i`.
fn take_count(args: &Vec<CliArg>, i: usize, name: &str, max: u64) -> (r: Result<u64, String>)
    ensures
        count_result(r) == count_option(args_view(args@), i as int, name@, max as nat),
{
    match next_arg(following_arg(args, i), name) {
        Ok(v) => parse_value(name, v, max),
        Err(e) => Err(e),
    }
}

/// The floating-point text of option `--name` at position `i`.
fn take_float(args: &Vec<CliArg>, i: usize, name: &str) -> (r: Result<String, String>)
    ensures
        text_result(r) == float_option(args_view(args@), i as int, name@),
{
    let next = following_arg(args, i);
    match next_arg(next, name) {
        Ok(v) => {
            assert(i + 1 < args.len());
            if args[i + 1].parses_as_float {
                Ok(v)
            } else {
                let mut msg = String::from_str("invalid value for --");
                msg.append(name);
                msg.append(": ");
                let quoted = debug_text(v.as_str());
                msg.append(quoted.as_str());
                Err(msg)
            }
        },
        Err(e) => Err(e),
    }
}

/// Reads the command line `args` (the program's name left out) into the
/// renderer's settings, `default_threads` being the number of workers unless
/// `--threads` says otherwise; or says that the usage text is asked for; or
/// gives the message for the first problem met.
pub fn parse_config(args: &Vec<CliArg>, default_threads: usize) -> (r: Result<CliOutcome, String>)
    ensures
        outcome_result(r) == config_from_args(args_view(args@), default_threads as nat),
{
    let ghost av = args_view(args@);
    let mut config = Config {
        width: 15360,
        height: 8640,
        iterations: 1_000_000_000,
        warmup: 1_000,
        cutoff_x: String::from_str("8.888888"),
        cutoff_y: String::from_str("5.0"),
        exposure: None,
        palette: String::from_str("aurora"),
        progress: true,
        threads: default_threads,
        out_path: String::from_str("out/16k.ppm"),
    };
    proof {
        assert(config@ == default_config(default_threads as nat));
    }
    let mut i: usize = 0;
    while i < args.len()
        invariant
            i <= args@.len(),
            av == args_view(args@),
            read_args(av, i as int, config@) == config_from_args(av, default_threads as nat),
        decreases args@.len() - i,
    {
        let a = args[i].text.as_str();
        proof {
            assert(av[i as int].text == a@);
        }
        if same_text(a, "--width") {
            match take_count(args, i, "width", usize::MAX as u64) {
                Ok(n) => {
                    config.width = n as usize;
                    i = i + 2;
                },
                Err(e) => {
                    return Err(e);
                },
            }
        } else if same_text(a, "--height") {
            match take_count(args, i, "height", usize::MAX as u64) {
                Ok(n) => {
                    config.height = n as usize;
                    i = i + 2;
                },
                Err(e) => {
                    return Err(e);
                },
            }
        } else if same_text(a, "--iterations") {
            match take_count(args, i, "iterations", u64::MAX) {
                Ok(n) => {
                    config.iterations = n;
                    i = i + 2;
                },
                Err(e) => {
                    return Err(e);
                },
            }
        } else if same_text(a, "--warmup") {
            match take_count(args, i, "warmup", u64::MAX) {
                Ok(n) => {
                    config.warmup = n;
                    i = i + 2;
                },
                Err(e) => {
                    return Err(e);
                },
            }
        } else if same_text(a, "--cutoff-x") {
            match take_float(args, i, "cutoff-x") {
                Ok(n) => {
                    config.cutoff_x = n;
                    i = i + 2;
                },
                Err(e) => {
                    return Err(e);
                },
            }
        } else if same_text(a, "--cutoff-y") {
            match take_float(args, i, "cutoff-y") {
                Ok(n) => {
                    config.cutoff_y = n;
                    i = i + 2;
                },
                Err(e) => {
                    return Err(e);
                },
            }
        } else if same_text(a, "--exposure") {
            match take_float(args, i, "exposure") {
                Ok(n) => {
                    config.exposure = Some(n);
                    i = i + 2;
                },
                Err(e) => {
                    return Err(e);
                },
            }
        } else if same_text(a, "--palette") {
            match take_text(args, i, "palette") {
                Ok(n) => {
                    config.palette = n;
                    i = i + 2;
                },
                Err(e) => {
                    return Err(e);
                },
            }
        } else if same_text(a, "--threads") {
            match take_count(args, i, "threads", usize::MAX as u64) {
                Ok(n) => {
                    config.threads = n as usize;
                    i = i + 2;
                },
                Err(e) => {
                    return Err(e);
                },
            }
        } else if same_text(a, "--quiet") {
            config.progress = false;
            i = i + 1;
        } else if same_text(a, "--out") {
            match take_text(args, i, "out") {
                Ok(n) => {
                    config.out_path = n;
                    i = i + 2;
                },
                Err(e) => {
                    return Err(e);
                },
            }
        } else if same_text(a, "--help") || same_text(a, "-h") {
            return Ok(CliOutcome::Help);
        } else {
            let chars = chars_of(a);
            if !(chars.len() > 0 && chars[0] == '-') {
                config.out_path = args[i].text.clone();
                i = i + 1;
            } else {
                let mut msg = String::from_str("unknown option ");
                let quoted = debug_text(a);
                msg.append(quoted.as_str());
                return Err(msg);
            }
        }
    }
    if config.width == 0 {
        return Err(String::from_str("--width must be positive"));
    }
    if config.height == 0 {
        return Err(String::from_str("--height must be positive"));
    }
    if config.iterations == 0 {
        return Err(String::from_str("--iterations must be positive"));
    }
    if config.threads == 0 {
        return Err(String::from_str("--threads must be positive"));
    }
    match palette_by_name(config.palette.as_str()) {
        Ok(_) => Ok(CliOutcome::Run(config)),
        Err(e) => Err(e),
    }
}

} // verus!
