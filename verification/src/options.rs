//! The options of a benchmark run, as given on the command line.

use vstd::prelude::*;

use crate::text::{self, joined, parse_count, same_text, CountError};

verus! {

/// The options of a benchmark run.
#[derive(Debug)]
pub struct Options {
    pub fixtures: String,
    pub warmup: usize,
    pub iterations: usize,
    pub only: Option<String>,
    pub json: Option<String>,
    pub virtual_address_space_adjustments: bool,
}

/// The options of a benchmark run, by views.
pub struct OptionsView {
    pub fixtures: Seq<char>,
    pub warmup: usize,
    pub iterations: usize,
    pub only: Option<Seq<char>>,
    pub json: Option<Seq<char>>,
    pub virtual_address_space_adjustments: bool,
}

/// The characters of a text that may be missing.
pub open spec fn optional_text(text: Option<String>) -> Option<Seq<char>> {
    match text {
        Some(text) => Some(text@),
        None => None,
    }
}

impl View for Options {
    type V = OptionsView;

    open spec fn view(&self) -> OptionsView {
        OptionsView {
            fixtures: self.fixtures@,
            warmup: self.warmup,
            iterations: self.iterations,
            only: optional_text(self.only),
            json: optional_text(self.json),
            virtual_address_space_adjustments: self.virtual_address_space_adjustments,
        }
    }
}

/// The options where nothing is given.
pub open spec fn default_options() -> OptionsView {
    OptionsView {
        fixtures: "../fixtures/data"@,
        warmup: 5,
        iterations: 100,
        only: None,
        json: None,
        virtual_address_space_adjustments: false,
    }
}

impl Default for Options {
    fn default() -> (res: Options)
        ensures
            res@ == default_options(),
    {
        Options {
            fixtures: "../fixtures/data".to_owned(),
            warmup: 5,
            iterations: 100,
            only: None,
            json: None,
            virtual_address_space_adjustments: false,
        }
    }
}

/// What the command line asks for.
#[derive(Debug)]
pub enum Invocation {
    /// To print how the program is used.
    Help,
    /// To run the benchmark.
    Run(Options),
}

/// What the command line asks for, by views.
pub enum InvocationView {
    Help,
    Run(OptionsView),
}

impl View for Invocation {
    type V = InvocationView;

    open spec fn view(&self) -> InvocationView {
        match self {
            Invocation::Help => InvocationView::Help,
            Invocation::Run(options) => InvocationView::Run(options@),
        }
    }
}

/// Why a command line is refused.
#[derive(Debug)]
pub enum ArgumentError {
    /// A flag that takes a value is the last argument.
    MissingValue(String),
    /// The value of a flag is not a count.
    InvalidValue(String, CountError),
    /// An argument is no flag.
    Unknown(String),
}

/// Why a command line is refused, by views.
pub enum ArgumentErrorView {
    MissingValue(Seq<char>),
    InvalidValue(Seq<char>, CountError),
    Unknown(Seq<char>),
}

impl View for ArgumentError {
    type V = ArgumentErrorView;

    open spec fn view(&self) -> ArgumentErrorView {
        match self {
            ArgumentError::MissingValue(flag) => ArgumentErrorView::MissingValue(flag@),
            ArgumentError::InvalidValue(flag, reason) => ArgumentErrorView::InvalidValue(
                flag@,
                *reason,
            ),
            ArgumentError::Unknown(argument) => ArgumentErrorView::Unknown(argument@),
        }
    }
}

/// Why a text is no count, as `std` writes it of its own error.
pub open spec fn count_error_text(reason: CountError) -> Seq<char> {
    match reason {
        CountError::Empty => "ParseIntError { kind: Empty }"@,
        CountError::InvalidDigit => "ParseIntError { kind: InvalidDigit }"@,
        CountError::PosOverflow => "ParseIntError { kind: PosOverflow }"@,
    }
}

/// The text of an error.
pub open spec fn argument_error_text(error: ArgumentErrorView) -> Seq<char> {
    match error {
        ArgumentErrorView::MissingValue(flag) => "missing "@ + flag + " value"@,
        ArgumentErrorView::InvalidValue(flag, reason) => "invalid "@ + flag + ": "@
            + count_error_text(reason),
        ArgumentErrorView::Unknown(argument) => "unknown argument "@ + argument,
    }
}

impl ArgumentError {
    /// The text of the error.
    pub fn message(&self) -> (res: String)
        ensures
            res@ == argument_error_text(self@),
    {
        match self {
            ArgumentError::MissingValue(flag) => joined(
                joined("missing ", flag.as_str()).as_str(),
                " value",
            ),
            ArgumentError::InvalidValue(flag, reason) => {
                let reason: &str = match reason {
                    CountError::Empty => "ParseIntError { kind: Empty }",
                    CountError::InvalidDigit => "ParseIntError { kind: InvalidDigit }",
                    CountError::PosOverflow => "ParseIntError { kind: PosOverflow }",
                };
                joined(joined(joined("invalid ", flag.as_str()).as_str(), ": ").as_str(), reason)
            },
            ArgumentError::Unknown(argument) => joined("unknown argument ", argument.as_str()),
        }
    }
}

/// A flag that takes the next argument as its value.
pub open spec fn takes_value(flag: Seq<char>) -> bool {
    ||| flag == "--fixtures"@
    ||| flag == "--warmup"@
    ||| flag == "--iterations"@
    ||| flag == "--only"@
    ||| flag == "--json"@
}

/// What a flag with a value makes of the options.
pub open spec fn with_value(options: OptionsView, flag: Seq<char>, value: Seq<char>) -> Result<
    OptionsView,
    ArgumentErrorView,
>
    recommends
        takes_value(flag),
{
    if flag == "--fixtures"@ {
        Ok(OptionsView { fixtures: value, ..options })
    } else if flag == "--warmup"@ {
        match text::count_value(value) {
            Ok(warmup) => Ok(OptionsView { warmup, ..options }),
            Err(reason) => Err(ArgumentErrorView::InvalidValue(flag, reason)),
        }
    } else if flag == "--iterations"@ {
        match text::count_value(value) {
            Ok(iterations) => Ok(OptionsView { iterations, ..options }),
            Err(reason) => Err(ArgumentErrorView::InvalidValue(flag, reason)),
        }
    } else if flag == "--only"@ {
        Ok(OptionsView { only: Some(value), ..options })
    } else {
        Ok(OptionsView { json: Some(value), ..options })
    }
}

/// What the command line asks for, read from the left. A flag that comes again
/// replaces what it said before; the first error, or the first request for
/// help, ends the reading.
pub open spec fn parsed_from(options: OptionsView, args: Seq<Seq<char>>) -> Result<
    InvocationView,
    ArgumentErrorView,
>
    decreases args.len(),
{
    if args.len() == 0 {
        Ok(InvocationView::Run(options))
    } else if takes_value(args[0]) {
        if args.len() == 1 {
            Err(ArgumentErrorView::MissingValue(args[0]))
        } else {
            match with_value(options, args[0], args[1]) {
                Ok(options) => parsed_from(options, args.skip(2)),
                Err(error) => Err(error),
            }
        }
    } else if args[0] == "--virtual-address-space-adjustments"@ {
        parsed_from(
            OptionsView { virtual_address_space_adjustments: true, ..options },
            args.skip(1),
        )
    } else if args[0] == "--help"@ || args[0] == "-h"@ {
        Ok(InvocationView::Help)
    } else {
        Err(ArgumentErrorView::Unknown(args[0]))
    }
}

/// What reading a command line came to, by views.
pub open spec fn invocation_outcome(res: Result<Invocation, ArgumentError>) -> Result<
    InvocationView,
    ArgumentErrorView,
> {
    match res {
        Ok(invocation) => Ok(invocation@),
        Err(error) => Err(error@),
    }
}

/// What setting an option came to, by views.
pub open spec fn options_outcome(res: Result<Options, ArgumentError>) -> Result<
    OptionsView,
    ArgumentErrorView,
> {
    match res {
        Ok(options) => Ok(options@),
        Err(error) => Err(error@),
    }
}

/// Whether a flag takes a value, see [`takes_value`].
pub fn is_value_flag(flag: &str) -> (res: bool)
    ensures
        res == takes_value(flag@),
{
    same_text(flag, "--fixtures") || same_text(flag, "--warmup") || same_text(flag, "--iterations")
        || same_text(flag, "--only") || same_text(flag, "--json")
}

/// Sets the option of a flag with a value, see [`with_value`].
pub fn set_option(options: Options, flag: &str, value: &str) -> (res: Result<
    Options,
    ArgumentError,
>)
    requires
        takes_value(flag@),
    ensures
        options_outcome(res) == with_value(options@, flag@, value@),
{
    if same_text(flag, "--fixtures") {
        Ok(Options { fixtures: value.to_owned(), ..options })
    } else if same_text(flag, "--warmup") {
        match parse_count(value) {
            Ok(warmup) => Ok(Options { warmup, ..options }),
            Err(reason) => Err(ArgumentError::InvalidValue(flag.to_owned(), reason)),
        }
    } else if same_text(flag, "--iterations") {
        match parse_count(value) {
            Ok(iterations) => Ok(Options { iterations, ..options }),
            Err(reason) => Err(ArgumentError::InvalidValue(flag.to_owned(), reason)),
        }
    } else if same_text(flag, "--only") {
        Ok(Options { only: Some(value.to_owned()), ..options })
    } else {
        Ok(Options { json: Some(value.to_owned()), ..options })
    }
}

/// Reads the command line, without the name of the program, see
/// [`parsed_from`].
pub fn parse_args(args: &Vec<String>) -> (res: Result<Invocation, ArgumentError>)
    ensures
        invocation_outcome(res) == parsed_from(default_options(), text::texts(args@)),
{
    let ghost all = text::texts(args@);
    let mut options: Options = Options::default();
    let mut i: usize = 0;
    proof {
        assert(all.skip(0) =~= all);
    }
    while i < args.len()
        invariant
            0 <= i <= args.len(),
            all == text::texts(args@),
            parsed_from(default_options(), all) == parsed_from(options@, all.skip(i as int)),
        decreases args.len() - i,
    {
        let arg: &str = args[i].as_str();
        proof {
            assert(all[i as int] == args[i as int]@);
            assert(all.skip(i as int)[0] == arg@);
            assert(all.skip(i as int).skip(1) =~= all.skip(i + 1));
        }
        if is_value_flag(arg) {
            if i + 1 >= args.len() {
                return Err(ArgumentError::MissingValue(arg.to_owned()));
            }
            proof {
                assert(all[i + 1] == args[i + 1]@);
                assert(all.skip(i as int)[1] == args[i + 1]@);
                assert(all.skip(i as int).skip(2) =~= all.skip(i + 2));
            }
            match set_option(options, arg, args[i + 1].as_str()) {
                Ok(changed) => {
                    options = changed;
                },
                Err(error) => {
                    return Err(error);
                },
            }
            i = i + 2;
        } else if same_text(arg, "--virtual-address-space-adjustments") {
            options.virtual_address_space_adjustments = true;
            i = i + 1;
        } else if same_text(arg, "--help") || same_text(arg, "-h") {
            return Ok(Invocation::Help);
        } else {
            return Err(ArgumentError::Unknown(arg.to_owned()));
        }
    }
    proof {
        assert(all.skip(i as int) =~= Seq::<Seq<char>>::empty());
    }
    Ok(Invocation::Run(options))
}

/// How the program is used.
pub fn usage() -> (res: String)
    ensures
        res@
            == "usage: runner [--fixtures DIR] [--warmup N] [--iterations N] [--only NAME] [--json PATH]"@,
{
    "usage: runner [--fixtures DIR] [--warmup N] [--iterations N] [--only NAME] [--json PATH]".to_owned()
}

/// Arguments that can be read on their own can be read before others: these
/// start from the options that those lead to.
pub proof fn arguments_add_up(options: OptionsView, args: Seq<Seq<char>>, more: Seq<Seq<char>>)
    requires
        parsed_from(options, args) is Ok,
    ensures
        parsed_from(options, args + more) == (match parsed_from(options, args)->Ok_0 {
            InvocationView::Run(reached) => parsed_from(reached, more),
            InvocationView::Help => parsed_from(options, args),
        }),
    decreases args.len(),
{
    let both = args + more;
    if args.len() == 0 {
        assert(both =~= more);
    } else {
        assert(both[0] == args[0]);
        if takes_value(args[0]) {
            assert(both[1] == args[1]);
            if let Ok(reached) = with_value(options, args[0], args[1]) {
                assert(both.skip(2) =~= args.skip(2) + more);
                arguments_add_up(reached, args.skip(2), more);
            }
        } else if args[0] == "--virtual-address-space-adjustments"@ {
            assert(both.skip(1) =~= args.skip(1) + more);
            arguments_add_up(
                OptionsView { virtual_address_space_adjustments: true, ..options },
                args.skip(1),
                more,
            );
        }
    }
}

/// Of two values that a flag is given one after the other the last one counts.
pub proof fn the_last_value_of_a_flag_counts(
    options: OptionsView,
    flag: Seq<char>,
    first: Seq<char>,
    last: Seq<char>,
    more: Seq<Seq<char>>,
)
    requires
        takes_value(flag),
        with_value(options, flag, first) is Ok,
    ensures
        parsed_from(options, seq![flag, first, flag, last] + more) == parsed_from(
            options,
            seq![flag, last] + more,
        ),
{
    let twice = seq![flag, first, flag, last] + more;
    let once = seq![flag, last] + more;
    assert(twice.skip(2) =~= once);
    assert(once.skip(2) =~= more);
    let between = with_value(options, flag, first)->Ok_0;
    assert(with_value(between, flag, last) == with_value(options, flag, last));
    assert(parsed_from(options, twice) == parsed_from(between, once));
}

/// The address space adjustments stay as they are unless the command line asks
/// for them.
pub proof fn adjustments_stay_off_unless_asked_for(options: OptionsView, args: Seq<Seq<char>>)
    requires
        !args.contains("--virtual-address-space-adjustments"@),
    ensures
        parsed_from(options, args) matches Ok(InvocationView::Run(reached))
            ==> reached.virtual_address_space_adjustments
            == options.virtual_address_space_adjustments,
    decreases args.len(),
{
    if args.len() > 0 {
        assert(args.contains(args[0]));
        if takes_value(args[0]) && args.len() > 1 {
            if let Ok(reached) = with_value(options, args[0], args[1]) {
                let rest = args.skip(2);
                assert(forall|i: int| 0 <= i < rest.len() ==> rest[i] == args[i + 2]);
                assert(!rest.contains("--virtual-address-space-adjustments"@));
                adjustments_stay_off_unless_asked_for(reached, rest);
            }
        }
    }
}

/// A flag with what belongs to it: the value that it takes, which is a count
/// where a count is asked for, or nothing for the one flag that takes none.
pub open spec fn is_setting(group: Seq<Seq<char>>) -> bool {
    ||| group == seq!["--virtual-address-space-adjustments"@]
    ||| {
        &&& group.len() == 2
        &&& takes_value(group[0])
        &&& group[0] == "--warmup"@ || group[0] == "--iterations"@ ==> text::count_value(
            group[1],
        ) is Ok
    }
}

/// How many arguments the first flag takes up, itself among them.
pub open spec fn first_len(args: Seq<Seq<char>>) -> int {
    if takes_value(args[0]) {
        2
    } else {
        1
    }
}

/// Arguments that are settings, one after the other.
pub open spec fn are_settings(args: Seq<Seq<char>>) -> bool
    decreases args.len(),
{
    args.len() == 0 || {
        let n = first_len(args);
        n <= args.len() && is_setting(args.take(n)) && are_settings(args.skip(n))
    }
}

/// The last setting of a flag among settings.
pub open spec fn last_setting(args: Seq<Seq<char>>, flag: Seq<char>) -> Option<Seq<Seq<char>>>
    decreases args.len(),
{
    if args.len() == 0 || first_len(args) > args.len() {
        None
    } else {
        let n = first_len(args);
        match last_setting(args.skip(n), flag) {
            Some(group) => Some(group),
            None => if args[0] == flag {
                Some(args.take(n))
            } else {
                None
            },
        }
    }
}

/// The text that the last setting of a flag gives, or else the one given here.
pub open spec fn last_text(args: Seq<Seq<char>>, flag: Seq<char>, otherwise: Seq<char>) -> Seq<
    char,
> {
    match last_setting(args, flag) {
        Some(group) => group[1],
        None => otherwise,
    }
}

/// The text that the last setting of a flag gives, or else what is given here.
pub open spec fn last_optional(
    args: Seq<Seq<char>>,
    flag: Seq<char>,
    otherwise: Option<Seq<char>>,
) -> Option<Seq<char>> {
    match last_setting(args, flag) {
        Some(group) => Some(group[1]),
        None => otherwise,
    }
}

/// The count that the last setting of a flag gives, or else the one given here.
pub open spec fn last_count(args: Seq<Seq<char>>, flag: Seq<char>, otherwise: usize) -> usize {
    match last_setting(args, flag) {
        Some(group) => text::count_value(group[1])->Ok_0,
        None => otherwise,
    }
}

/// The options with every setting taken in: each has the value of the last
/// setting of its flag, or stays as it is.
pub open spec fn with_settings(options: OptionsView, args: Seq<Seq<char>>) -> OptionsView {
    OptionsView {
        fixtures: last_text(args, "--fixtures"@, options.fixtures),
        warmup: last_count(args, "--warmup"@, options.warmup),
        iterations: last_count(args, "--iterations"@, options.iterations),
        only: last_optional(args, "--only"@, options.only),
        json: last_optional(args, "--json"@, options.json),
        virtual_address_space_adjustments: options.virtual_address_space_adjustments
            || last_setting(args, "--virtual-address-space-adjustments"@) is Some,
    }
}

/// The flags are different texts.
proof fn lemma_flags_differ()
    ensures
        "--fixtures"@ != "--warmup"@,
        "--fixtures"@ != "--iterations"@,
        "--fixtures"@ != "--only"@,
        "--fixtures"@ != "--json"@,
        "--warmup"@ != "--iterations"@,
        "--warmup"@ != "--only"@,
        "--warmup"@ != "--json"@,
        "--iterations"@ != "--only"@,
        "--iterations"@ != "--json"@,
        "--only"@ != "--json"@,
        !takes_value("--virtual-address-space-adjustments"@),
        !takes_value("--help"@),
        !takes_value("-h"@),
        "--virtual-address-space-adjustments"@ != "--help"@,
        "--virtual-address-space-adjustments"@ != "-h"@,
{
    reveal_strlit("--fixtures");
    reveal_strlit("--warmup");
    reveal_strlit("--iterations");
    reveal_strlit("--only");
    reveal_strlit("--json");
    reveal_strlit("--virtual-address-space-adjustments");
    reveal_strlit("--help");
    reveal_strlit("-h");
    assert("--fixtures"@.len() == 10);
    assert("--warmup"@.len() == 8);
    assert("--iterations"@.len() == 12);
    assert("--only"@[2] == 'o');
    assert("--json"@[2] == 'j');
    assert("--help"@[2] == 'h');
    assert("-h"@.len() == 2);
    assert("--virtual-address-space-adjustments"@.len() == 35);
}

/// The command line asks for a run exactly when it is made of settings. Each
/// option then has the value of the last setting of its flag, or the one that
/// it started with; the address space adjustments are on where their flag
/// occurs.
pub proof fn each_option_has_the_last_value_of_its_flag(
    options: OptionsView,
    args: Seq<Seq<char>>,
)
    ensures
        are_settings(args) <==> parsed_from(options, args) matches Ok(InvocationView::Run(_)),
        are_settings(args) ==> parsed_from(options, args) == Result::<
            InvocationView,
            ArgumentErrorView,
        >::Ok(InvocationView::Run(with_settings(options, args))),
    decreases args.len(),
{
    lemma_flags_differ();
    if args.len() > 0 {
        let n = first_len(args);
        if n <= args.len() {
            let group = args.take(n);
            assert(group[0] == args[0]);
            if n == 2 {
                assert(group[1] == args[1]);
                if let Ok(changed) = with_value(options, args[0], args[1]) {
                    assert(is_setting(group));
                    each_option_has_the_last_value_of_its_flag(changed, args.skip(2));
                }
            } else if args[0] == "--virtual-address-space-adjustments"@ {
                assert(group =~= seq!["--virtual-address-space-adjustments"@]);
                each_option_has_the_last_value_of_its_flag(
                    OptionsView { virtual_address_space_adjustments: true, ..options },
                    args.skip(1),
                );
            }
        }
    }
}

/// Without arguments the options are the defaults.
pub proof fn no_arguments_keep_the_defaults()
    ensures
        parsed_from(default_options(), Seq::empty()) == Result::<
            InvocationView,
            ArgumentErrorView,
        >::Ok(InvocationView::Run(default_options())),
{
}

/// What one setting makes of the options.
pub open spec fn with_setting(options: OptionsView, group: Seq<Seq<char>>) -> OptionsView {
    if group.len() == 2 {
        with_value(options, group[0], group[1])->Ok_0
    } else {
        OptionsView { virtual_address_space_adjustments: true, ..options }
    }
}

/// A setting can be read on its own.
proof fn lemma_setting(options: OptionsView, group: Seq<Seq<char>>, more: Seq<Seq<char>>)
    requires
        is_setting(group),
    ensures
        parsed_from(options, group + more) == parsed_from(with_setting(options, group), more),
{
    lemma_flags_differ();
    let all = group + more;
    assert(all[0] == group[0]);
    if group.len() == 2 {
        assert(all[1] == group[1]);
        assert(all.skip(2) =~= more);
    } else {
        assert(all.skip(1) =~= more);
    }
}

/// Two settings of different flags may change places.
pub proof fn settings_of_different_flags_commute(
    options: OptionsView,
    before: Seq<Seq<char>>,
    first: Seq<Seq<char>>,
    second: Seq<Seq<char>>,
    more: Seq<Seq<char>>,
)
    requires
        parsed_from(options, before) is Ok,
        is_setting(first),
        is_setting(second),
        first[0] != second[0],
    ensures
        parsed_from(options, before + (first + (second + more))) == parsed_from(
            options,
            before + (second + (first + more)),
        ),
{
    arguments_add_up(options, before, first + (second + more));
    arguments_add_up(options, before, second + (first + more));
    if let InvocationView::Run(reached) = parsed_from(options, before)->Ok_0 {
        lemma_flags_differ();
        lemma_setting(reached, first, second + more);
        lemma_setting(with_setting(reached, first), second, more);
        lemma_setting(reached, second, first + more);
        lemma_setting(with_setting(reached, second), first, more);
        assert(with_setting(with_setting(reached, first), second) == with_setting(
            with_setting(reached, second),
            first,
        ));
    }
}

/// The views of options, requests and errors hold each of their fields.
pub proof fn option_views_hold_every_field(
    options: Options,
    error: ArgumentError,
    text: Option<String>,
)
    ensures
        options@.fixtures == options.fixtures@,
        options@.warmup == options.warmup,
        options@.iterations == options.iterations,
        options@.only == optional_text(options.only),
        options@.json == optional_text(options.json),
        options@.virtual_address_space_adjustments == options.virtual_address_space_adjustments,
        Invocation::Help@ == InvocationView::Help,
        Invocation::Run(options)@ == InvocationView::Run(options@),
        match error {
            ArgumentError::MissingValue(flag) => error@ == ArgumentErrorView::MissingValue(flag@),
            ArgumentError::InvalidValue(flag, reason) => error@ == ArgumentErrorView::InvalidValue(
                flag@,
                reason,
            ),
            ArgumentError::Unknown(argument) => error@ == ArgumentErrorView::Unknown(argument@),
        },
        match text {
            Some(text) => optional_text(Some(text)) == Some(text@),
            None => optional_text(text) is None,
        },
        invocation_outcome(Result::<Invocation, ArgumentError>::Ok(Invocation::Run(options)))
            == Result::<InvocationView, ArgumentErrorView>::Ok(InvocationView::Run(options@)),
        invocation_outcome(Result::<Invocation, ArgumentError>::Ok(Invocation::Help)) == Result::<
            InvocationView,
            ArgumentErrorView,
        >::Ok(InvocationView::Help),
        invocation_outcome(Result::<Invocation, ArgumentError>::Err(error)) == Result::<
            InvocationView,
            ArgumentErrorView,
        >::Err(error@),
        options_outcome(Result::<Options, ArgumentError>::Ok(options)) == Result::<
            OptionsView,
            ArgumentErrorView,
        >::Ok(options@),
        options_outcome(Result::<Options, ArgumentError>::Err(error)) == Result::<
            OptionsView,
            ArgumentErrorView,
        >::Err(error@),
{
}

/// Exactly five flags take a value.
pub proof fn five_flags_take_a_value(flag: Seq<char>)
    ensures
        takes_value(flag) <==> flag == "--fixtures"@ || flag == "--warmup"@ || flag
            == "--iterations"@ || flag == "--only"@ || flag == "--json"@,
{
}

/// A flag with a value sets its own option to it and no other; a count that
/// cannot be read is refused with the flag and the reason.
pub proof fn a_flag_sets_its_own_option(options: OptionsView, value: Seq<char>)
    ensures
        with_value(options, "--fixtures"@, value) == Result::<OptionsView, ArgumentErrorView>::Ok(
            OptionsView { fixtures: value, ..options },
        ),
        with_value(options, "--only"@, value) == Result::<OptionsView, ArgumentErrorView>::Ok(
            OptionsView { only: Some(value), ..options },
        ),
        with_value(options, "--json"@, value) == Result::<OptionsView, ArgumentErrorView>::Ok(
            OptionsView { json: Some(value), ..options },
        ),
        match text::count_value(value) {
            Ok(count) => {
                &&& with_value(options, "--warmup"@, value) == Result::<
                    OptionsView,
                    ArgumentErrorView,
                >::Ok(OptionsView { warmup: count, ..options })
                &&& with_value(options, "--iterations"@, value) == Result::<
                    OptionsView,
                    ArgumentErrorView,
                >::Ok(OptionsView { iterations: count, ..options })
            },
            Err(reason) => {
                &&& with_value(options, "--warmup"@, value) == Result::<
                    OptionsView,
                    ArgumentErrorView,
                >::Err(ArgumentErrorView::InvalidValue("--warmup"@, reason))
                &&& with_value(options, "--iterations"@, value) == Result::<
                    OptionsView,
                    ArgumentErrorView,
                >::Err(ArgumentErrorView::InvalidValue("--iterations"@, reason))
            },
        },
{
    lemma_flags_differ();
}

/// Each flag at the front of a command line sets its own option, and the rest
/// is read from there on.
pub proof fn the_first_flag_is_taken_in(
    options: OptionsView,
    value: Seq<char>,
    more: Seq<Seq<char>>,
)
    ensures
        parsed_from(options, seq!["--fixtures"@, value] + more) == parsed_from(
            OptionsView { fixtures: value, ..options },
            more,
        ),
        parsed_from(options, seq!["--only"@, value] + more) == parsed_from(
            OptionsView { only: Some(value), ..options },
            more,
        ),
        parsed_from(options, seq!["--json"@, value] + more) == parsed_from(
            OptionsView { json: Some(value), ..options },
            more,
        ),
        match text::count_value(value) {
            Ok(count) => {
                &&& parsed_from(options, seq!["--warmup"@, value] + more) == parsed_from(
                    OptionsView { warmup: count, ..options },
                    more,
                )
                &&& parsed_from(options, seq!["--iterations"@, value] + more) == parsed_from(
                    OptionsView { iterations: count, ..options },
                    more,
                )
            },
            Err(reason) => {
                &&& parsed_from(options, seq!["--warmup"@, value] + more) == Result::<
                    InvocationView,
                    ArgumentErrorView,
                >::Err(ArgumentErrorView::InvalidValue("--warmup"@, reason))
                &&& parsed_from(options, seq!["--iterations"@, value] + more) == Result::<
                    InvocationView,
                    ArgumentErrorView,
                >::Err(ArgumentErrorView::InvalidValue("--iterations"@, reason))
            },
        },
        parsed_from(options, seq!["--virtual-address-space-adjustments"@] + more) == parsed_from(
            OptionsView { virtual_address_space_adjustments: true, ..options },
            more,
        ),
{
    lemma_flags_differ();
    a_flag_sets_its_own_option(options, value);
    lemma_pair("--fixtures"@, value, more);
    lemma_pair("--only"@, value, more);
    lemma_pair("--json"@, value, more);
    lemma_pair("--warmup"@, value, more);
    lemma_pair("--iterations"@, value, more);
    let all = seq!["--virtual-address-space-adjustments"@] + more;
    assert(all[0] == "--virtual-address-space-adjustments"@);
    assert(all.skip(1) =~= more);
}

/// What stands behind a flag and its value.
proof fn lemma_pair(flag: Seq<char>, value: Seq<char>, more: Seq<Seq<char>>)
    ensures
        ({
            let all = seq![flag, value] + more;
            &&& all.len() >= 2
            &&& all[0] == flag
            &&& all[1] == value
            &&& all.skip(2) == more
        }),
{
    assert((seq![flag, value] + more).skip(2) =~= more);
}

/// A flag that takes a value is refused at the end of a command line; a request
/// for help ends the reading; any other argument is refused; and with nothing
/// left to read the options are what they are.
pub proof fn other_arguments_end_the_reading(
    options: OptionsView,
    argument: Seq<char>,
    more: Seq<Seq<char>>,
)
    ensures
        argument == "--fixtures"@ || argument == "--warmup"@ || argument == "--iterations"@
            || argument == "--only"@ || argument == "--json"@ ==> parsed_from(
            options,
            seq![argument],
        ) == Result::<InvocationView, ArgumentErrorView>::Err(
            ArgumentErrorView::MissingValue(argument),
        ),
        argument == "--help"@ || argument == "-h"@ ==> parsed_from(options, seq![argument] + more)
            == Result::<InvocationView, ArgumentErrorView>::Ok(InvocationView::Help),
        argument != "--fixtures"@ && argument != "--warmup"@ && argument != "--iterations"@
            && argument != "--only"@ && argument != "--json"@ && argument
            != "--virtual-address-space-adjustments"@ && argument != "--help"@ && argument != "-h"@
            ==> parsed_from(options, seq![argument] + more) == Result::<
            InvocationView,
            ArgumentErrorView,
        >::Err(ArgumentErrorView::Unknown(argument)),
        parsed_from(options, Seq::empty()) == Result::<InvocationView, ArgumentErrorView>::Ok(
            InvocationView::Run(options),
        ),
{
    lemma_flags_differ();
    assert((seq![argument] + more)[0] == argument);
}

/// The defaults: five runs to warm up, a hundred to be timed, every fixture of
/// `../fixtures/data`, no file to write, and the adjustments off.
pub proof fn the_defaults_are_modest()
    ensures
        default_options().fixtures == "../fixtures/data"@,
        default_options().warmup == 5,
        default_options().iterations == 100,
        default_options().only is None,
        default_options().json is None,
        !default_options().virtual_address_space_adjustments,
{
}

/// An error says which flag lacks its value, which flag has a value that is no
/// count and why, or which argument is unknown.
pub proof fn errors_name_the_argument(argument: Seq<char>)
    ensures
        argument_error_text(ArgumentErrorView::MissingValue(argument)) == "missing "@ + argument
            + " value"@,
        argument_error_text(ArgumentErrorView::Unknown(argument)) == "unknown argument "@
            + argument,
        argument_error_text(ArgumentErrorView::InvalidValue(argument, CountError::Empty))
            == "invalid "@ + argument + ": "@ + "ParseIntError { kind: Empty }"@,
        argument_error_text(ArgumentErrorView::InvalidValue(argument, CountError::InvalidDigit))
            == "invalid "@ + argument + ": "@ + "ParseIntError { kind: InvalidDigit }"@,
        argument_error_text(ArgumentErrorView::InvalidValue(argument, CountError::PosOverflow))
            == "invalid "@ + argument + ": "@ + "ParseIntError { kind: PosOverflow }"@,
{
}

} // verus!
