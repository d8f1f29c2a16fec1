//! What each command-line option does to the reading, stated as laws: an
//! option that takes a value consumes itself and the next argument and sets
//! its setting; `--help` and `-h` end the reading; a text not starting with
//! `-` is the output path; any other text starting with `-` is refused.

use vstd::prelude::*;
use crate::cli::{
    CliArgView, CliOutcomeView, ConfigView, checked_config, config_from_args,
    invalid_value_message, lemma_option_names_distinct, lemma_read_args_suffix,
    missing_value_message, read_args, unsigned_text_value,
};
use crate::palette::{
    lemma_palette_names_ignore_case, palette_named, same_ignoring_ascii_case,
    unknown_palette_message,
};
use crate::text::debug_quoted;

verus! {

/// `--width` consumes the next argument, which must be an unsigned number
/// no greater than usize::MAX: the reading goes on after it with that
/// width, or stops with the message that the value is invalid.
pub proof fn lemma_width_option(v: CliArgView, rest: Seq<CliArgView>, flag: bool, c: ConfigView)
    ensures
        read_args(seq![CliArgView { text: "--width"@, parses_as_float: flag }, v] + rest, 0, c)
            == match unsigned_text_value(v.text) {
            Some(n) => if n <= usize::MAX as nat {
                read_args(rest, 0, ConfigView { width: n, ..c })
            } else {
                Err(invalid_value_message("width"@, v.text))
            },
            None => Err(invalid_value_message("width"@, v.text)),
        },
{
    let o = CliArgView { text: "--width"@, parses_as_float: flag };
    let p = seq![o, v];
    let args = p + rest;
    lemma_option_names_distinct();
    lemma_read_args_suffix(p, rest, 0);
    assert(args[0] == o);
    assert(args[1] == v);
    if let Some(n) = unsigned_text_value(v.text) {
        assert(read_args(args, 2, ConfigView { width: n, ..c }) == read_args(
            rest,
            0,
            ConfigView { width: n, ..c },
        ));
    }
}

/// `--height` consumes the next argument, which must be an unsigned number
/// no greater than usize::MAX: the reading goes on after it with that
/// height, or stops with the message that the value is invalid.
pub proof fn lemma_height_option(v: CliArgView, rest: Seq<CliArgView>, flag: bool, c: ConfigView)
    ensures
        read_args(seq![CliArgView { text: "--height"@, parses_as_float: flag }, v] + rest, 0, c)
            == match unsigned_text_value(v.text) {
            Some(n) => if n <= usize::MAX as nat {
                read_args(rest, 0, ConfigView { height: n, ..c })
            } else {
                Err(invalid_value_message("height"@, v.text))
            },
            None => Err(invalid_value_message("height"@, v.text)),
        },
{
    let o = CliArgView { text: "--height"@, parses_as_float: flag };
    let p = seq![o, v];
    let args = p + rest;
    lemma_option_names_distinct();
    lemma_read_args_suffix(p, rest, 0);
    assert(args[0] == o);
    assert(args[1] == v);
    if let Some(n) = unsigned_text_value(v.text) {
        assert(read_args(args, 2, ConfigView { height: n, ..c }) == read_args(
            rest,
            0,
            ConfigView { height: n, ..c },
        ));
    }
}

/// `--iterations` consumes the next argument, which must be an unsigned number
/// no greater than u64::MAX: the reading goes on after it with that
/// iterations, or stops with the message that the value is invalid.
pub proof fn lemma_iterations_option(v: CliArgView, rest: Seq<CliArgView>, flag: bool, c: ConfigView)
    ensures
        read_args(seq![CliArgView { text: "--iterations"@, parses_as_float: flag }, v] + rest, 0, c)
            == match unsigned_text_value(v.text) {
            Some(n) => if n <= u64::MAX as nat {
                read_args(rest, 0, ConfigView { iterations: n, ..c })
            } else {
                Err(invalid_value_message("iterations"@, v.text))
            },
            None => Err(invalid_value_message("iterations"@, v.text)),
        },
{
    let o = CliArgView { text: "--iterations"@, parses_as_float: flag };
    let p = seq![o, v];
    let args = p + rest;
    lemma_option_names_distinct();
    lemma_read_args_suffix(p, rest, 0);
    assert(args[0] == o);
    assert(args[1] == v);
    if let Some(n) = unsigned_text_value(v.text) {
        assert(read_args(args, 2, ConfigView { iterations: n, ..c }) == read_args(
            rest,
            0,
            ConfigView { iterations: n, ..c },
        ));
    }
}

/// `--warmup` consumes the next argument, which must be an unsigned number
/// no greater than u64::MAX: the reading goes on after it with that
/// warmup, or stops with the message that the value is invalid.
pub proof fn lemma_warmup_option(v: CliArgView, rest: Seq<CliArgView>, flag: bool, c: ConfigView)
    ensures
        read_args(seq![CliArgView { text: "--warmup"@, parses_as_float: flag }, v] + rest, 0, c)
            == match unsigned_text_value(v.text) {
            Some(n) => if n <= u64::MAX as nat {
                read_args(rest, 0, ConfigView { warmup: n, ..c })
            } else {
                Err(invalid_value_message("warmup"@, v.text))
            },
            None => Err(invalid_value_message("warmup"@, v.text)),
        },
{
    let o = CliArgView { text: "--warmup"@, parses_as_float: flag };
    let p = seq![o, v];
    let args = p + rest;
    lemma_option_names_distinct();
    lemma_read_args_suffix(p, rest, 0);
    assert(args[0] == o);
    assert(args[1] == v);
    if let Some(n) = unsigned_text_value(v.text) {
        assert(read_args(args, 2, ConfigView { warmup: n, ..c }) == read_args(
            rest,
            0,
            ConfigView { warmup: n, ..c },
        ));
    }
}

/// `--threads` consumes the next argument, which must be an unsigned number
/// no greater than usize::MAX: the reading goes on after it with that
/// threads, or stops with the message that the value is invalid.
pub proof fn lemma_threads_option(v: CliArgView, rest: Seq<CliArgView>, flag: bool, c: ConfigView)
    ensures
        read_args(seq![CliArgView { text: "--threads"@, parses_as_float: flag }, v] + rest, 0, c)
            == match unsigned_text_value(v.text) {
            Some(n) => if n <= usize::MAX as nat {
                read_args(rest, 0, ConfigView { threads: n, ..c })
            } else {
                Err(invalid_value_message("threads"@, v.text))
            },
            None => Err(invalid_value_message("threads"@, v.text)),
        },
{
    let o = CliArgView { text: "--threads"@, parses_as_float: flag };
    let p = seq![o, v];
    let args = p + rest;
    lemma_option_names_distinct();
    lemma_read_args_suffix(p, rest, 0);
    assert(args[0] == o);
    assert(args[1] == v);
    if let Some(n) = unsigned_text_value(v.text) {
        assert(read_args(args, 2, ConfigView { threads: n, ..c }) == read_args(
            rest,
            0,
            ConfigView { threads: n, ..c },
        ));
    }
}

/// `--cutoff-x` consumes the next argument, which must read as a
/// floating-point number: the reading goes on after it with that text as the
/// setting, or stops with the message that the value is invalid.
pub proof fn lemma_cutoff_x_option(v: CliArgView, rest: Seq<CliArgView>, flag: bool, c: ConfigView)
    ensures
        read_args(seq![CliArgView { text: "--cutoff-x"@, parses_as_float: flag }, v] + rest, 0, c)
            == if v.parses_as_float {
            read_args(rest, 0, ConfigView { cutoff_x: v.text, ..c })
        } else {
            Err(invalid_value_message("cutoff-x"@, v.text))
        },
{
    let o = CliArgView { text: "--cutoff-x"@, parses_as_float: flag };
    let p = seq![o, v];
    let args = p + rest;
    lemma_option_names_distinct();
    lemma_read_args_suffix(p, rest, 0);
    assert(args[0] == o);
    assert(args[1] == v);
    assert(read_args(args, 2, ConfigView { cutoff_x: v.text, ..c }) == read_args(
        rest,
        0,
        ConfigView { cutoff_x: v.text, ..c },
    ));
}

/// `--cutoff-y` consumes the next argument, which must read as a
/// floating-point number: the reading goes on after it with that text as the
/// setting, or stops with the message that the value is invalid.
pub proof fn lemma_cutoff_y_option(v: CliArgView, rest: Seq<CliArgView>, flag: bool, c: ConfigView)
    ensures
        read_args(seq![CliArgView { text: "--cutoff-y"@, parses_as_float: flag }, v] + rest, 0, c)
            == if v.parses_as_float {
            read_args(rest, 0, ConfigView { cutoff_y: v.text, ..c })
        } else {
            Err(invalid_value_message("cutoff-y"@, v.text))
        },
{
    let o = CliArgView { text: "--cutoff-y"@, parses_as_float: flag };
    let p = seq![o, v];
    let args = p + rest;
    lemma_option_names_distinct();
    lemma_read_args_suffix(p, rest, 0);
    assert(args[0] == o);
    assert(args[1] == v);
    assert(read_args(args, 2, ConfigView { cutoff_y: v.text, ..c }) == read_args(
        rest,
        0,
        ConfigView { cutoff_y: v.text, ..c },
    ));
}

/// `--exposure` consumes the next argument, which must read as a
/// floating-point number: the reading goes on after it with that text as the
/// setting, or stops with the message that the value is invalid.
pub proof fn lemma_exposure_option(v: CliArgView, rest: Seq<CliArgView>, flag: bool, c: ConfigView)
    ensures
        read_args(seq![CliArgView { text: "--exposure"@, parses_as_float: flag }, v] + rest, 0, c)
            == if v.parses_as_float {
            read_args(rest, 0, ConfigView { exposure: Some(v.text), ..c })
        } else {
            Err(invalid_value_message("exposure"@, v.text))
        },
{
    let o = CliArgView { text: "--exposure"@, parses_as_float: flag };
    let p = seq![o, v];
    let args = p + rest;
    lemma_option_names_distinct();
    lemma_read_args_suffix(p, rest, 0);
    assert(args[0] == o);
    assert(args[1] == v);
    assert(read_args(args, 2, ConfigView { exposure: Some(v.text), ..c }) == read_args(
        rest,
        0,
        ConfigView { exposure: Some(v.text), ..c },
    ));
}

/// `--palette` consumes the next argument, whatever it is, and the
/// reading goes on after it with that text as the setting.
pub proof fn lemma_palette_option(v: CliArgView, rest: Seq<CliArgView>, flag: bool, c: ConfigView)
    ensures
        read_args(seq![CliArgView { text: "--palette"@, parses_as_float: flag }, v] + rest, 0, c)
            == read_args(rest, 0, ConfigView { palette: v.text, ..c }),
{
    let o = CliArgView { text: "--palette"@, parses_as_float: flag };
    let p = seq![o, v];
    let args = p + rest;
    lemma_option_names_distinct();
    lemma_read_args_suffix(p, rest, 0);
    assert(args[0] == o);
    assert(args[1] == v);
    assert(read_args(args, 2, ConfigView { palette: v.text, ..c }) == read_args(
        rest,
        0,
        ConfigView { palette: v.text, ..c },
    ));
}

/// `--out` consumes the next argument, whatever it is, and the
/// reading goes on after it with that text as the setting.
pub proof fn lemma_out_option(v: CliArgView, rest: Seq<CliArgView>, flag: bool, c: ConfigView)
    ensures
        read_args(seq![CliArgView { text: "--out"@, parses_as_float: flag }, v] + rest, 0, c)
            == read_args(rest, 0, ConfigView { out_path: v.text, ..c }),
{
    let o = CliArgView { text: "--out"@, parses_as_float: flag };
    let p = seq![o, v];
    let args = p + rest;
    lemma_option_names_distinct();
    lemma_read_args_suffix(p, rest, 0);
    assert(args[0] == o);
    assert(args[1] == v);
    assert(read_args(args, 2, ConfigView { out_path: v.text, ..c }) == read_args(
        rest,
        0,
        ConfigView { out_path: v.text, ..c },
    ));
}

/// An option that takes a value, given last, stops the reading with the
/// message that its value is missing.
pub proof fn lemma_value_missing(flag: bool, c: ConfigView)
    ensures
        read_args(seq![CliArgView { text: "--width"@, parses_as_float: flag }], 0, c) == Err::<
            CliOutcomeView,
            Seq<char>,
        >(missing_value_message("width"@)),
        read_args(seq![CliArgView { text: "--height"@, parses_as_float: flag }], 0, c) == Err::<
            CliOutcomeView,
            Seq<char>,
        >(missing_value_message("height"@)),
        read_args(seq![CliArgView { text: "--iterations"@, parses_as_float: flag }], 0, c) == Err::<
            CliOutcomeView,
            Seq<char>,
        >(missing_value_message("iterations"@)),
        read_args(seq![CliArgView { text: "--warmup"@, parses_as_float: flag }], 0, c) == Err::<
            CliOutcomeView,
            Seq<char>,
        >(missing_value_message("warmup"@)),
        read_args(seq![CliArgView { text: "--cutoff-x"@, parses_as_float: flag }], 0, c) == Err::<
            CliOutcomeView,
            Seq<char>,
        >(missing_value_message("cutoff-x"@)),
        read_args(seq![CliArgView { text: "--cutoff-y"@, parses_as_float: flag }], 0, c) == Err::<
            CliOutcomeView,
            Seq<char>,
        >(missing_value_message("cutoff-y"@)),
        read_args(seq![CliArgView { text: "--exposure"@, parses_as_float: flag }], 0, c) == Err::<
            CliOutcomeView,
            Seq<char>,
        >(missing_value_message("exposure"@)),
        read_args(seq![CliArgView { text: "--palette"@, parses_as_float: flag }], 0, c) == Err::<
            CliOutcomeView,
            Seq<char>,
        >(missing_value_message("palette"@)),
        read_args(seq![CliArgView { text: "--threads"@, parses_as_float: flag }], 0, c) == Err::<
            CliOutcomeView,
            Seq<char>,
        >(missing_value_message("threads"@)),
        read_args(seq![CliArgView { text: "--out"@, parses_as_float: flag }], 0, c) == Err::<
            CliOutcomeView,
            Seq<char>,
        >(missing_value_message("out"@)),
{
    lemma_option_names_distinct();
}

/// `--help` and `-h` end the reading, whatever follows them.
pub proof fn lemma_help_ends_reading(rest: Seq<CliArgView>, flag: bool, c: ConfigView)
    ensures
        read_args(seq![CliArgView { text: "--help"@, parses_as_float: flag }] + rest, 0, c) == Ok::<
            CliOutcomeView,
            Seq<char>,
        >(CliOutcomeView::Help),
        read_args(seq![CliArgView { text: "-h"@, parses_as_float: flag }] + rest, 0, c) == Ok::<
            CliOutcomeView,
            Seq<char>,
        >(CliOutcomeView::Help),
{
    lemma_option_names_distinct();
    let a1 = seq![CliArgView { text: "--help"@, parses_as_float: flag }] + rest;
    let a2 = seq![CliArgView { text: "-h"@, parses_as_float: flag }] + rest;
    assert(a1[0].text == "--help"@);
    assert(a2[0].text == "-h"@);
}

/// Whether `t` is one of the option names.
pub open spec fn is_option_name(t: Seq<char>) -> bool {
    t == "--width"@ || t == "--height"@ || t == "--iterations"@ || t == "--warmup"@ || t
        == "--cutoff-x"@ || t == "--cutoff-y"@ || t == "--exposure"@ || t == "--palette"@ || t
        == "--threads"@ || t == "--quiet"@ || t == "--out"@ || t == "--help"@ || t == "-h"@
}

/// A text that does not start with `-` is the output path: it consumes just
/// itself and the reading goes on with it as the path.
pub proof fn lemma_positional_output_path(a: CliArgView, rest: Seq<CliArgView>, c: ConfigView)
    requires
        a.text.len() == 0 || a.text[0] != '-',
    ensures
        read_args(seq![a] + rest, 0, c) == read_args(rest, 0, ConfigView { out_path: a.text, ..c }),
{
    lemma_option_names_distinct();
    let p = seq![a];
    let args = p + rest;
    lemma_read_args_suffix(p, rest, 0);
    assert(args[0] == a);
    assert(!is_option_name(a.text));
    assert(read_args(args, 1, ConfigView { out_path: a.text, ..c }) == read_args(
        rest,
        0,
        ConfigView { out_path: a.text, ..c },
    ));
}

/// A text that starts with `-` and is no option name is refused: the
/// reading stops with the message naming it.
pub proof fn lemma_unknown_option_refused(a: CliArgView, rest: Seq<CliArgView>, c: ConfigView)
    requires
        a.text.len() > 0,
        a.text[0] == '-',
        !is_option_name(a.text),
    ensures
        read_args(seq![a] + rest, 0, c) == Err::<CliOutcomeView, Seq<char>>(
            "unknown option "@ + debug_quoted(a.text),
        ),
{
    let args = seq![a] + rest;
    assert(args[0] == a);
}

/// With no arguments, a run with the built-in settings is asked for: a 15360
/// by 8640 image, a billion iterations after a thousand of warm-up, the view
/// cut off at 8.888888 by 5.0, no exposure given, the `aurora` palette,
/// progress shown, the given number of workers, written to `out/16k.ppm`.
pub proof fn lemma_no_arguments(default_threads: nat)
    requires
        default_threads > 0,
    ensures
        config_from_args(Seq::<CliArgView>::empty(), default_threads) == Ok::<
            CliOutcomeView,
            Seq<char>,
        >(
            CliOutcomeView::Run(
                ConfigView {
                    width: 15360,
                    height: 8640,
                    iterations: 1_000_000_000,
                    warmup: 1_000,
                    cutoff_x: "8.888888"@,
                    cutoff_y: "5.0"@,
                    exposure: None,
                    palette: "aurora"@,
                    progress: true,
                    threads: default_threads,
                    out_path: "out/16k.ppm"@,
                },
            ),
        ),
{
    reveal_strlit("aurora");
    lemma_palette_names_ignore_case("aurora"@);
    assert(same_ignoring_ascii_case("aurora"@, "aurora"@));
}

/// Once every option is read, the settings are checked in this order, the
/// first failing check giving the error: the width, the height, the
/// iteration count and the number of workers must be positive, and the
/// palette must exist; settings that pass every check give a run.
pub proof fn lemma_final_checks(c: ConfigView)
    ensures
        c.width == 0 ==> checked_config(c) == Err::<CliOutcomeView, Seq<char>>(
            "--width must be positive"@,
        ),
        c.width > 0 && c.height == 0 ==> checked_config(c) == Err::<CliOutcomeView, Seq<char>>(
            "--height must be positive"@,
        ),
        c.width > 0 && c.height > 0 && c.iterations == 0 ==> checked_config(c) == Err::<
            CliOutcomeView,
            Seq<char>,
        >("--iterations must be positive"@),
        c.width > 0 && c.height > 0 && c.iterations > 0 && c.threads == 0 ==> checked_config(c)
            == Err::<CliOutcomeView, Seq<char>>("--threads must be positive"@),
        c.width > 0 && c.height > 0 && c.iterations > 0 && c.threads > 0 && palette_named(c.palette)
            is None ==> checked_config(c) == Err::<CliOutcomeView, Seq<char>>(
            unknown_palette_message(c.palette),
        ),
        c.width > 0 && c.height > 0 && c.iterations > 0 && c.threads > 0 && palette_named(c.palette)
            is Some ==> checked_config(c) == Ok::<CliOutcomeView, Seq<char>>(CliOutcomeView::Run(c)),
{
}

} // verus!
