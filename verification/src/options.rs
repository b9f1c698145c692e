//! What to extract: the chain and the range of times, from the environment and the command
//! line.
use vstd::prelude::*;

use crate::number::{decimal_to_u64, parse_number, NumberError};
use crate::text::same_text;

verus! {

/// What is to be extracted.
#[derive(Debug, PartialEq)]
pub struct Options {
    pub chain: String,
    pub start_ts: u64,
    pub end_ts: u64,
}

/// Why the options do not do.
#[derive(Clone, Copy, Debug, PartialEq, Eq, Structural)]
pub enum OptionsError {
    /// A time on the command line is no number.
    InvalidTimestamp(NumberError),
    /// There is no start.
    MissingStart,
    /// There is no end.
    MissingEnd,
    /// The start is after the end.
    StartAfterEnd,
}

/// What is known of the options so far.
pub struct Settings {
    pub chain: String,
    pub start_ts: Option<u64>,
    pub end_ts: Option<u64>,
}

/// [`Settings`] as mathematics.
pub struct SettingsView {
    pub chain: Seq<char>,
    pub start_ts: Option<u64>,
    pub end_ts: Option<u64>,
}

impl View for Settings {
    type V = SettingsView;

    open spec fn view(&self) -> SettingsView {
        SettingsView { chain: self.chain@, start_ts: self.start_ts, end_ts: self.end_ts }
    }
}

/// The number in an optional text, or nothing.
pub open spec fn optional_number(text: Option<Seq<char>>) -> Option<u64> {
    match text {
        Some(s) => crate::number::number_or_none(s, 10),
        None => None,
    }
}

/// What the environment says: without a chain it is `bnb`, and a time that is no number does
/// not count.
pub open spec fn environment(
    chain: Option<Seq<char>>,
    start: Option<Seq<char>>,
    end: Option<Seq<char>>,
) -> SettingsView {
    SettingsView {
        chain: match chain {
            Some(s) => s,
            None => "bnb"@,
        },
        start_ts: optional_number(start),
        end_ts: optional_number(end),
    }
}

/// What the arguments from the place `i` on make of the settings: an option takes the
/// argument behind it, if there is one, and every other argument is passed over.
pub open spec fn with_arguments(settings: SettingsView, args: Seq<Seq<char>>, i: int) -> Result<
    SettingsView,
    NumberError,
>
    decreases args.len() - i,
{
    if i >= args.len() {
        Ok(settings)
    } else if args[i] == "--chain"@ {
        if i + 1 < args.len() {
            with_arguments(SettingsView { chain: args[i + 1], ..settings }, args, i + 2)
        } else {
            Ok(settings)
        }
    } else if args[i] == "--start-ts"@ {
        if i + 1 < args.len() {
            match crate::number::number_of(args[i + 1], 10) {
                Ok(n) => with_arguments(
                    SettingsView { start_ts: Some(n), ..settings },
                    args,
                    i + 2,
                ),
                Err(e) => Err(e),
            }
        } else {
            Ok(settings)
        }
    } else if args[i] == "--end-ts"@ {
        if i + 1 < args.len() {
            match crate::number::number_of(args[i + 1], 10) {
                Ok(n) => with_arguments(SettingsView { end_ts: Some(n), ..settings }, args, i + 2),
                Err(e) => Err(e),
            }
        } else {
            Ok(settings)
        }
    } else {
        with_arguments(settings, args, i + 1)
    }
}

/// The options that settings make, once all are known.
pub open spec fn checked(settings: SettingsView) -> Result<(Seq<char>, u64, u64), OptionsError> {
    match (settings.start_ts, settings.end_ts) {
        (None, _) => Err(OptionsError::MissingStart),
        (_, None) => Err(OptionsError::MissingEnd),
        (Some(start), Some(end)) => if start > end {
            Err(OptionsError::StartAfterEnd)
        } else {
            Ok((settings.chain, start, end))
        },
    }
}

/// The options that settings and arguments make; the first argument is the program's name.
pub open spec fn options_of(settings: SettingsView, args: Seq<Seq<char>>) -> Result<
    (Seq<char>, u64, u64),
    OptionsError,
> {
    match with_arguments(settings, args, 1) {
        Ok(all) => checked(all),
        Err(e) => Err(OptionsError::InvalidTimestamp(e)),
    }
}

/// The text that names an [`OptionsError`].
pub open spec fn options_error_text(e: OptionsError) -> Seq<char> {
    match e {
        OptionsError::InvalidTimestamp(n) => crate::number::number_error_text(n),
        OptionsError::MissingStart => "Missing start timestamp"@,
        OptionsError::MissingEnd => "Missing end timestamp"@,
        OptionsError::StartAfterEnd => "Start timestamp cannot be greater than end timestamp"@,
    }
}

impl OptionsError {
    /// The error in words.
    pub fn message(&self) -> (text: String)
        ensures
            text@ == options_error_text(*self),
    {
        match self {
            OptionsError::InvalidTimestamp(n) => n.message(),
            OptionsError::MissingStart => "Missing start timestamp".to_owned(),
            OptionsError::MissingEnd => "Missing end timestamp".to_owned(),
            OptionsError::StartAfterEnd =>
            "Start timestamp cannot be greater than end timestamp".to_owned(),
        }
    }
}

/// What the environment says.
pub fn read_environment(chain: Option<&str>, start: Option<&str>, end: Option<&str>) -> (settings:
    Settings)
    ensures
        settings@ == environment(
            crate::endpoints::text_view(chain),
            crate::endpoints::text_view(start),
            crate::endpoints::text_view(end),
        ),
{
    Settings {
        chain: match chain {
            Some(s) => s.to_owned(),
            None => "bnb".to_owned(),
        },
        start_ts: match start {
            Some(s) => decimal_to_u64(s),
            None => None,
        },
        end_ts: match end {
            Some(s) => decimal_to_u64(s),
            None => None,
        },
    }
}

/// The options that settings and arguments make; the first argument is the program's name.
pub fn read_options(settings: Settings, args: &Vec<String>) -> (r: Result<Options, OptionsError>)
    ensures
        match (options_of(settings@, crate::text::texts(args@)), r) {
            (Ok((chain, start, end)), Ok(options)) => options.chain@ == chain && options.start_ts
                == start && options.end_ts == end,
            (Err(a), Err(b)) => a == b,
            _ => false,
        },
        r matches Ok(options) ==> options.start_ts <= options.end_ts,
{
    let mut chain = settings.chain;
    let mut start_ts = settings.start_ts;
    let mut end_ts = settings.end_ts;
    let ghost texts = crate::text::texts(args@);
    let ghost given = settings@;
    let mut index: usize = 1;
    while index < args.len()
        invariant
            texts == crate::text::texts(args@),
            given == settings@,
            with_arguments(given, texts, 1) == with_arguments(
                SettingsView { chain: chain@, start_ts, end_ts },
                texts,
                index as int,
            ),
        ensures
            with_arguments(given, texts, 1) == Ok::<SettingsView, NumberError>(
                SettingsView { chain: chain@, start_ts, end_ts },
            ),
        decreases args.len() - index,
    {
        let arg = args[index].as_str();
        assert(texts[index as int] == arg@);
        let more = index < args.len() - 1;
        assert(more ==> texts[index + 1] == args@[index + 1]@);
        if same_text(arg, "--chain") {
            if !more {
                break ;
            }
            chain = args[index + 1].clone();
            index = index + 2;
        } else if same_text(arg, "--start-ts") {
            if !more {
                break ;
            }
            match parse_number(args[index + 1].as_str(), 10) {
                Ok(n) => {
                    start_ts = Some(n);
                },
                Err(e) => {
                    return Err(OptionsError::InvalidTimestamp(e));
                },
            }
            index = index + 2;
        } else if same_text(arg, "--end-ts") {
            if !more {
                break ;
            }
            match parse_number(args[index + 1].as_str(), 10) {
                Ok(n) => {
                    end_ts = Some(n);
                },
                Err(e) => {
                    return Err(OptionsError::InvalidTimestamp(e));
                },
            }
            index = index + 2;
        } else {
            index = index + 1;
        }
    }
    let start_ts = match start_ts {
        Some(n) => n,
        None => {
            return Err(OptionsError::MissingStart);
        },
    };
    let end_ts = match end_ts {
        Some(n) => n,
        None => {
            return Err(OptionsError::MissingEnd);
        },
    };
    if start_ts > end_ts {
        return Err(OptionsError::StartAfterEnd);
    }
    Ok(Options { chain, start_ts, end_ts })
}

/// Whether an argument is an option.
pub open spec fn is_option(arg: Seq<char>) -> bool {
    arg == "--chain"@ || arg == "--start-ts"@ || arg == "--end-ts"@
}

/// Whether every option from the place `i` on has its argument.
pub open spec fn complete(args: Seq<Seq<char>>, i: int) -> bool
    decreases args.len() - i,
{
    if i >= args.len() {
        i == args.len()
    } else if is_option(args[i]) {
        i + 1 < args.len() && complete(args, i + 2)
    } else {
        complete(args, i + 1)
    }
}

/// What one more option makes of settings.
pub open spec fn with_option(settings: SettingsView, option: Seq<char>, value: Seq<char>) -> Result<
    SettingsView,
    NumberError,
> {
    if option == "--chain"@ {
        Ok(SettingsView { chain: value, ..settings })
    } else {
        match crate::number::number_of(value, 10) {
            Ok(n) => if option == "--start-ts"@ {
                Ok(SettingsView { start_ts: Some(n), ..settings })
            } else {
                Ok(SettingsView { end_ts: Some(n), ..settings })
            },
            Err(e) => Err(e),
        }
    }
}

/// An option overrides the environment and every option before it.
pub proof fn last_option_counts(
    settings: SettingsView,
    args: Seq<Seq<char>>,
    i: int,
    option: Seq<char>,
    value: Seq<char>,
)
    requires
        0 <= i,
        complete(args, i),
        is_option(option),
    ensures
        with_arguments(settings, args + seq![option, value], i) == match with_arguments(
            settings,
            args,
            i,
        ) {
            Ok(before) => with_option(before, option, value),
            Err(e) => Err(e),
        },
    decreases args.len() - i,
{
    let all = args + seq![option, value];
    reveal_strlit("--chain");
    reveal_strlit("--start-ts");
    reveal_strlit("--end-ts");
    assert("--chain"@.len() == 7 && "--start-ts"@.len() == 10 && "--end-ts"@.len() == 8);
    if i == args.len() {
        assert(all[i] == option);
        assert(all[i + 1] == value);
        if let Ok(after) = with_option(settings, option, value) {
            assert(with_arguments(after, all, i + 2) == Ok::<SettingsView, NumberError>(after));
        }
    } else {
        assert(all[i] == args[i]);
        if is_option(args[i]) {
            assert(all[i + 1] == args[i + 1]);
            if args[i] == "--chain"@ {
                last_option_counts(
                    SettingsView { chain: args[i + 1], ..settings },
                    args,
                    i + 2,
                    option,
                    value,
                );
            } else if let Ok(n) = crate::number::number_of(args[i + 1], 10) {
                if args[i] == "--start-ts"@ {
                    last_option_counts(
                        SettingsView { start_ts: Some(n), ..settings },
                        args,
                        i + 2,
                        option,
                        value,
                    );
                } else {
                    last_option_counts(
                        SettingsView { end_ts: Some(n), ..settings },
                        args,
                        i + 2,
                        option,
                        value,
                    );
                }
            }
        } else {
            last_option_counts(settings, args, i + 1, option, value);
        }
    }
}

/// The options are the settings, unchanged: where both times are known and the start is not
/// after the end, the chain and the very times of the settings. Which time is missing is told,
/// and so is a start after the end.
pub proof fn the_options_are_the_settings(settings: SettingsView)
    ensures
        settings.start_ts is None ==> checked(settings) == Err::<
            (Seq<char>, u64, u64),
            OptionsError,
        >(OptionsError::MissingStart),
        settings.start_ts is Some && settings.end_ts is None ==> checked(settings) == Err::<
            (Seq<char>, u64, u64),
            OptionsError,
        >(OptionsError::MissingEnd),
        settings.start_ts matches Some(a) ==> (settings.end_ts matches Some(b) ==> {
            &&& a <= b ==> checked(settings) == Ok::<(Seq<char>, u64, u64), OptionsError>(
                (settings.chain, a, b),
            )
            &&& a > b ==> checked(settings) == Err::<(Seq<char>, u64, u64), OptionsError>(
                OptionsError::StartAfterEnd,
            )
        }),
{
}

/// The arguments from a place on are all that counts.
proof fn lemma_arguments_from(
    settings: SettingsView,
    a: Seq<Seq<char>>,
    i: int,
    b: Seq<Seq<char>>,
    j: int,
)
    requires
        0 <= i,
        0 <= j,
        a.len() - i == b.len() - j,
        forall|k: int| 0 <= k < a.len() - i ==> #[trigger] a[i + k] == b[j + k],
    ensures
        with_arguments(settings, a, i) == with_arguments(settings, b, j),
    decreases a.len() - i,
{
    if i < a.len() {
        assert(a[i + 0] == b[j + 0]);
        assert forall|s: SettingsView, d: int|
            1 <= d <= 2 && i + d <= a.len() implies #[trigger] with_arguments(s, a, i + d)
            == with_arguments(s, b, j + d) by {
            assert forall|k: int| 0 <= k < a.len() - (i + d) implies #[trigger] a[i + d + k] == b[j
                + d + k] by {
                assert(a[i + (d + k)] == b[j + (d + k)]);
            }
            lemma_arguments_from(s, a, i + d, b, j + d);
        }
        if i + 1 < a.len() {
            assert(a[i + 1] == b[j + 1]);
            let s1 = SettingsView { chain: a[i + 1], ..settings };
            assert(with_arguments(s1, a, i + 2) == with_arguments(s1, b, j + 2));
            if let Ok(n) = crate::number::number_of(a[i + 1], 10) {
                let s2 = SettingsView { start_ts: Some(n), ..settings };
                assert(with_arguments(s2, a, i + 2) == with_arguments(s2, b, j + 2));
                let s3 = SettingsView { end_ts: Some(n), ..settings };
                assert(with_arguments(s3, a, i + 2) == with_arguments(s3, b, j + 2));
            }
        }
        assert(with_arguments(settings, a, i + 1) == with_arguments(settings, b, j + 1));
    }
}

/// Without arguments behind the name of the program, or with a single option that has no
/// argument, the options are the settings.
pub proof fn without_arguments_the_settings_count(
    settings: SettingsView,
    program: Seq<char>,
    only: Seq<char>,
)
    requires
        only == "--chain"@ || only == "--start-ts"@ || only == "--end-ts"@,
    ensures
        options_of(settings, Seq::empty()) == checked(settings),
        options_of(settings, seq![program]) == checked(settings),
        options_of(settings, seq![program, only]) == checked(settings),
{
    assert(with_arguments(settings, seq![program, only], 1) == Ok::<SettingsView, NumberError>(
        settings,
    ));
}

/// An option takes the argument behind it: the chain as it is, a time as the decimal number
/// that it says, or the error where it says none. The arguments behind those two count as if
/// they came alone.
pub proof fn an_option_takes_the_argument_behind_it(
    settings: SettingsView,
    program: Seq<char>,
    value: Seq<char>,
    rest: Seq<Seq<char>>,
)
    ensures
        options_of(settings, seq![program, "--chain"@, value] + rest) == options_of(
            SettingsView { chain: value, ..settings },
            seq![program] + rest,
        ),
        options_of(settings, seq![program, "--start-ts"@, value] + rest) == (
        match crate::number::number_of(value, 10) {
            Ok(n) => options_of(
                SettingsView { start_ts: Some(n), ..settings },
                seq![program] + rest,
            ),
            Err(e) => Err(OptionsError::InvalidTimestamp(e)),
        }),
        options_of(settings, seq![program, "--end-ts"@, value] + rest) == (
        match crate::number::number_of(value, 10) {
            Ok(n) => options_of(SettingsView { end_ts: Some(n), ..settings }, seq![program] + rest),
            Err(e) => Err(OptionsError::InvalidTimestamp(e)),
        }),
{
    reveal_strlit("--chain");
    reveal_strlit("--start-ts");
    reveal_strlit("--end-ts");
    assert("--chain"@.len() == 7 && "--start-ts"@.len() == 10 && "--end-ts"@.len() == 8);
    let alone = seq![program] + rest;
    let a = seq![program, "--chain"@, value] + rest;
    let b = seq![program, "--start-ts"@, value] + rest;
    let c = seq![program, "--end-ts"@, value] + rest;
    assert(a[1] == "--chain"@ && a[2] == value);
    assert(b[1] == "--start-ts"@ && b[2] == value);
    assert(c[1] == "--end-ts"@ && c[2] == value);
    lemma_arguments_from(SettingsView { chain: value, ..settings }, a, 3, alone, 1);
    if let Ok(n) = crate::number::number_of(value, 10) {
        lemma_arguments_from(SettingsView { start_ts: Some(n), ..settings }, b, 3, alone, 1);
        lemma_arguments_from(SettingsView { end_ts: Some(n), ..settings }, c, 3, alone, 1);
    }
}

/// An argument that is no option is passed over.
pub proof fn other_arguments_are_passed_over(
    settings: SettingsView,
    program: Seq<char>,
    other: Seq<char>,
    rest: Seq<Seq<char>>,
)
    requires
        other != "--chain"@,
        other != "--start-ts"@,
        other != "--end-ts"@,
    ensures
        options_of(settings, seq![program, other] + rest) == options_of(
            settings,
            seq![program] + rest,
        ),
{
    let all = seq![program, other] + rest;
    assert(all[1] == other);
    lemma_arguments_from(settings, all, 2, seq![program] + rest, 1);
}

/// One more option with its argument keeps every option complete.
proof fn lemma_complete_pushed(
    args: Seq<Seq<char>>,
    i: int,
    option: Seq<char>,
    value: Seq<char>,
)
    requires
        0 <= i,
        complete(args, i),
        is_option(option),
    ensures
        complete(args + seq![option, value], i),
    decreases args.len() - i,
{
    let all = args + seq![option, value];
    if i == args.len() {
        assert(all[i] == option);
        assert(complete(all, i + 2));
    } else {
        assert(all[i] == args[i]);
        if is_option(args[i]) {
            lemma_complete_pushed(args, i + 2, option, value);
        } else {
            lemma_complete_pushed(args, i + 1, option, value);
        }
    }
}

/// Times in decimal at the end of the command line are the times of the options, to the
/// second, whatever the environment and the other arguments say.
pub proof fn times_at_the_end_are_the_times_of_the_options(
    settings: SettingsView,
    args: Seq<Seq<char>>,
    a: u64,
    b: u64,
)
    requires
        args.len() >= 1,
        complete(args, 1),
        with_arguments(settings, args, 1) is Ok,
        a <= b,
    ensures
        options_of(
            settings,
            args + seq![
                "--start-ts"@,
                crate::number::decimal(a as nat),
                "--end-ts"@,
                crate::number::decimal(b as nat),
            ],
        ) matches Ok((chain, start, end)) && start == a && end == b && chain == with_arguments(
            settings,
            args,
            1,
        )->Ok_0.chain,
{
    reveal_strlit("--chain");
    reveal_strlit("--start-ts");
    reveal_strlit("--end-ts");
    assert("--chain"@.len() == 7 && "--start-ts"@.len() == 10 && "--end-ts"@.len() == 8);
    let from = crate::number::decimal(a as nat);
    let to = crate::number::decimal(b as nat);
    crate::number::written_number_reads_back(a, 10);
    crate::number::written_number_reads_back(b, 10);
    let once = args + seq!["--start-ts"@, from];
    last_option_counts(settings, args, 1, "--start-ts"@, from);
    lemma_complete_pushed(args, 1, "--start-ts"@, from);
    last_option_counts(settings, once, 1, "--end-ts"@, to);
    assert(once + seq!["--end-ts"@, to] =~= args + seq!["--start-ts"@, from, "--end-ts"@, to]);
}

/// The environment names the chain, which is `bnb` where it does not, and each time that it
/// says in decimal; a time that is no number counts as none.
pub proof fn the_environment_names_the_chain_and_the_times(
    chain: Option<Seq<char>>,
    start: Option<Seq<char>>,
    end: Option<Seq<char>>,
    time: u64,
)
    ensures
        ({
            let settings = environment(chain, start, end);
            &&& chain matches Some(name) ==> settings.chain == name
            &&& chain is None ==> settings.chain == "bnb"@
            &&& start is None ==> settings.start_ts is None
            &&& end is None ==> settings.end_ts is None
            &&& start matches Some(text) ==> settings.start_ts == crate::number::number_or_none(
                text,
                10,
            )
            &&& end matches Some(text) ==> settings.end_ts == crate::number::number_or_none(
                text,
                10,
            )
            &&& start == Some(crate::number::decimal(time as nat)) ==> settings.start_ts == Some(
                time,
            )
            &&& end == Some(crate::number::decimal(time as nat)) ==> settings.end_ts == Some(time)
        }),
{
    crate::number::written_number_reads_back(time, 10);
}

/// Each error has its own words.
pub proof fn errors_of_options_are_told_in_words(e: NumberError)
    ensures
        options_error_text(OptionsError::MissingStart) == "Missing start timestamp"@,
        options_error_text(OptionsError::MissingEnd) == "Missing end timestamp"@,
        options_error_text(OptionsError::StartAfterEnd)
            == "Start timestamp cannot be greater than end timestamp"@,
        options_error_text(OptionsError::InvalidTimestamp(e)) == crate::number::number_error_text(
            e,
        ),
{
}

/// The settings are taken as they are.
pub proof fn settings_are_taken_as_they_are(settings: Settings)
    ensures
        settings@.chain == settings.chain@,
        settings@.start_ts == settings.start_ts,
        settings@.end_ts == settings.end_ts,
{
}

} // verus!
