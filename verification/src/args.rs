//! Command-line arguments.

use vstd::prelude::*;
use vstd::string::*;

verus! {

/// Name of the option that selects the mode of operation.
pub const MODE: &'static str = "mode";

/// Value of `--mode` that starts the planetary projection directly.
pub const PROJECTION: &'static str = "projection";

/// Name of the option that asks for help.
pub const HELP: &'static str = "help";

#[derive(Copy, Clone, PartialEq, Eq, Structural, Debug)]
pub enum GUIMode {
    /// The user picks the mode of operation at start-up.
    Selectable,
    Projection,
}

#[derive(Copy, Clone, PartialEq, Eq, Structural, Debug)]
pub enum Mode {
    GUI(GUIMode),
    PrintHelp,
}

#[derive(Debug)]
pub struct Parameters {
    pub mode: Mode,
}

impl Parameters {
    pub fn mode(&self) -> (mode: &Mode)
        ensures
            *mode == self.mode,
    {
        &self.mode
    }
}

/// The arguments as sequences of characters.
pub open spec fn arg_views(args: Seq<String>) -> Seq<Seq<char>> {
    Seq::new(args.len(), |i: int| args[i]@)
}

/// An argument that begins with two dashes names an option.
pub open spec fn is_option(arg: Seq<char>) -> bool {
    arg.len() >= 2 && arg[0] == '-' && arg[1] == '-'
}

/// The argument `--mode`.
pub open spec fn mode_option() -> Seq<char> {
    "--"@ + MODE@
}

pub open spec fn invalid_option_message(arg: Seq<char>) -> Seq<char> {
    "invalid option: "@ + arg + ", expected: --"@ + MODE@
}

pub open spec fn unrecognized_value_message(arg: Seq<char>) -> Seq<char> {
    "unrecognized value: "@ + arg
}

/// Position of the first argument at or after `from` that is not `--mode`;
/// the number of arguments if there is none.
pub open spec fn first_other_than_mode(args: Seq<Seq<char>>, from: int) -> int
    decreases args.len() - from,
{
    if from < 0 || from >= args.len() {
        args.len() as int
    } else if args[from] == mode_option() {
        first_other_than_mode(args, from + 1)
    } else {
        from
    }
}

/// What the command line asks for. The program's name comes first and is
/// skipped. Any number of `--mode` may follow; the first argument that is
/// anything else decides: the value `projection` after a `--mode` selects the
/// projection, every other argument is an error. Without such an argument the
/// mode is picked at start-up.
pub open spec fn parsed_command_line(args: Seq<Seq<char>>) -> Result<Mode, Seq<char>> {
    let k = first_other_than_mode(args, 1);
    if k >= args.len() {
        Ok(Mode::GUI(GUIMode::Selectable))
    } else if is_option(args[k]) || k == 1 {
        Err(invalid_option_message(args[k]))
    } else if args[k] == PROJECTION@ {
        Ok(Mode::GUI(GUIMode::Projection))
    } else {
        Err(unrecognized_value_message(args[k]))
    }
}

fn starts_with_dashes(arg: &str) -> (yes: bool)
    ensures
        yes == is_option(arg@),
{
    arg.unicode_len() >= 2 && arg.get_char(0) == '-' && arg.get_char(1) == '-'
}

fn invalid_option(arg: &str) -> (message: String)
    ensures
        message@ == invalid_option_message(arg@),
{
    let mut message = String::from_str("invalid option: ");
    message.append(arg);
    message.append(", expected: --");
    message.append(MODE);
    message
}

proof fn lemma_mode_option_is_option()
    ensures
        is_option(mode_option()),
        mode_option() != PROJECTION@,
{
    reveal_strlit("--");
    reveal_strlit("mode");
    reveal_strlit("projection");
    assert(mode_option()[0] == '-');
    assert(mode_option()[1] == '-');
}

/// Reads the mode of operation from the command line.
pub fn parse_command_line(stream: Vec<String>) -> (result: Result<Parameters, String>)
    ensures
        match parsed_command_line(arg_views(stream@)) {
            Ok(mode) => result matches Ok(parameters) && parameters.mode == mode,
            Err(message) => result matches Err(text) && text@ == message,
        },
{
    let ghost args = arg_views(stream@);
    let mut mode_option_text = String::from_str("--");
    mode_option_text.append(MODE);
    let projection_text = String::from_str(PROJECTION);
    let mut i: usize = 1;
    while i < stream.len()
        invariant
            1 <= i,
            args == arg_views(stream@),
            mode_option_text@ == mode_option(),
            projection_text@ == PROJECTION@,
            first_other_than_mode(args, 1) == first_other_than_mode(args, i as int),
        decreases stream.len() - i,
    {
        let arg = &stream[i];
        assert(args[i as int] == arg@);
        proof {
            lemma_mode_option_is_option();
        }
        if starts_with_dashes(arg.as_str()) {
            if *arg == mode_option_text {
                i = i + 1;
            } else {
                return Err(invalid_option(arg.as_str()));
            }
        } else if i > 1 {
            if *arg == projection_text {
                return Ok(Parameters { mode: Mode::GUI(GUIMode::Projection) });
            } else {
                let mut message = String::from_str("unrecognized value: ");
                message.append(arg.as_str());
                return Err(message);
            }
        } else {
            return Err(invalid_option(arg.as_str()));
        }
    }
    Ok(Parameters { mode: Mode::GUI(GUIMode::Selectable) })
}

/// The values given to one option, as sequences of characters.
pub open spec fn value_views(values: Seq<String>) -> Seq<Seq<char>> {
    Seq::new(values.len(), |i: int| values[i]@)
}

/// The options with their values, as sequences of characters.
pub open spec fn option_views(options: Seq<(String, Vec<String>)>) -> Seq<
    (Seq<char>, Seq<Seq<char>>),
> {
    Seq::new(options.len(), |i: int| (options[i].0@, value_views(options[i].1@)))
}

/// Position of the option `name` among `options`; their number if it is not
/// among them.
pub open spec fn position_of(options: Seq<(Seq<char>, Seq<Seq<char>>)>, name: Seq<char>) -> int
    decreases options.len(),
{
    if options.len() == 0 {
        0
    } else if options[0].0 == name {
        0
    } else {
        1 + position_of(options.drop_first(), name)
    }
}

/// The name of the option that the argument `arg` stands for.
pub open spec fn option_name(arg: Seq<char>) -> Seq<char> {
    arg.subrange(2, arg.len() as int)
}

pub open spec fn unknown_option_message(name: Seq<char>) -> Seq<char> {
    "unknown option: "@ + name
}

pub open spec fn unexpected_value_message(arg: Seq<char>) -> Seq<char> {
    "unexpected value: "@ + arg
}

/// What has been collected from a run of arguments: the options seen, each
/// with its values, and the position of the option last named.
pub struct Collected {
    pub options: Seq<(Seq<char>, Seq<Seq<char>>)>,
    pub current: Option<int>,
}

/// The options and values among the first `count` of `args`. An argument
/// that begins with two dashes names an option, which must be one of
/// `allowed`; any other argument is a value of the option last named. The
/// options are kept in the order in which they are first named, and an
/// option that is named again gets its further values added.
pub open spec fn collected(args: Seq<Seq<char>>, allowed: Seq<Seq<char>>, count: int) -> Result<
    Collected,
    Seq<char>,
>
    decreases count,
{
    if count <= 0 {
        Ok(Collected { options: Seq::empty(), current: None })
    } else {
        match collected(args, allowed, count - 1) {
            Err(message) => Err(message),
            Ok(before) => {
                let arg = args[count - 1];
                if is_option(arg) {
                    let name = option_name(arg);
                    let at = position_of(before.options, name);
                    if !allowed.contains(name) {
                        Err(unknown_option_message(name))
                    } else if at < before.options.len() {
                        Ok(Collected { options: before.options, current: Some(at) })
                    } else {
                        Ok(
                            Collected {
                                options: before.options.push((name, Seq::empty())),
                                current: Some(at),
                            },
                        )
                    }
                } else {
                    match before.current {
                        None => Err(unexpected_value_message(arg)),
                        Some(at) => Ok(
                            Collected {
                                options: before.options.update(
                                    at,
                                    (before.options[at].0, before.options[at].1.push(arg)),
                                ),
                                current: before.current,
                            },
                        ),
                    }
                }
            },
        }
    }
}

/// The position of an option that is among the options is that of its first
/// occurrence, and nothing before it has its name.
pub proof fn lemma_position_of(options: Seq<(Seq<char>, Seq<Seq<char>>)>, name: Seq<char>)
    ensures
        0 <= position_of(options, name) <= options.len(),
        position_of(options, name) < options.len() ==> options[position_of(options, name)].0
            == name,
        forall|i: int| 0 <= i < position_of(options, name) ==> (#[trigger] options[i]).0 != name,
    decreases options.len(),
{
    if options.len() > 0 && options[0].0 != name {
        let rest = options.drop_first();
        lemma_position_of(rest, name);
        assert forall|i: int| 0 <= i < position_of(options, name) implies (
        #[trigger] options[i]).0 != name by {
            if i > 0 {
                assert(rest[i - 1] == options[i]);
            }
        }
    }
}

/// Whether no two of `options` have the same name.
pub open spec fn names_differ(options: Seq<(Seq<char>, Seq<Seq<char>>)>) -> bool {
    forall|i: int, j: int|
        0 <= i < j < options.len() ==> (#[trigger] options[i]).0 != (#[trigger] options[j]).0
}

/// Collecting keeps one entry for each option, however often it is named,
/// and the option last named is one of them.
pub proof fn lemma_collected_names_differ(
    args: Seq<Seq<char>>,
    allowed: Seq<Seq<char>>,
    count: int,
)
    ensures
        collected(args, allowed, count) matches Ok(all) ==> {
            &&& names_differ(all.options)
            &&& all.current matches Some(at) ==> 0 <= at < all.options.len()
        },
    decreases count,
{
    if count > 0 {
        lemma_collected_names_differ(args, allowed, count - 1);
        match collected(args, allowed, count - 1) {
            Ok(before) => {
                let arg = args[count - 1];
                if is_option(arg) {
                    lemma_position_of(before.options, option_name(arg));
                }
            },
            Err(_) => {},
        }
    }
}

/// Finds the option `name` among `options`.
fn find_option(options: &Vec<(String, Vec<String>)>, name: &str) -> (at: usize)
    ensures
        at == position_of(option_views(options@), name@),
        at <= options@.len(),
{
    let ghost views = option_views(options@);
    let mut i: usize = 0;
    proof {
        lemma_position_of(views, name@);
    }
    while i < options.len()
        invariant
            i <= options.len(),
            views == option_views(options@),
            i <= position_of(views, name@) <= views.len(),
            forall|j: int| 0 <= j < position_of(views, name@) ==> (#[trigger] views[j]).0 != name@,
            position_of(views, name@) < views.len() ==> views[position_of(views, name@)].0 == name@,
        decreases options.len() - i,
    {
        let candidate = options[i].0.as_str();
        assert(views[i as int].0 == candidate@);
        if str_equal(candidate, name) {
            return i;
        }
        i = i + 1;
    }
    i
}

/// Whether two strings hold the same characters.
fn str_equal(a: &str, b: &str) -> (equal: bool)
    ensures
        equal == (a@ == b@),
{
    let a_owned = String::from_str(a);
    let b_owned = String::from_str(b);
    a_owned == b_owned
}

/// Whether `name` is one of `allowed`.
fn is_allowed(allowed: &Vec<String>, name: &str) -> (yes: bool)
    ensures
        yes == value_views(allowed@).contains(name@),
{
    let mut i: usize = 0;
    while i < allowed.len()
        invariant
            i <= allowed.len(),
            forall|j: int| 0 <= j < i ==> value_views(allowed@)[j] != name@,
        decreases allowed.len() - i,
    {
        assert(value_views(allowed@)[i as int] == allowed@[i as int]@);
        if str_equal(allowed[i].as_str(), name) {
            return true;
        }
        i = i + 1;
    }
    false
}

/// Returns the options named in `stream`, each with its values.
pub fn collect_options(stream: Vec<String>, allowed_options: &Vec<String>) -> (result: Result<
    Vec<(String, Vec<String>)>,
    String,
>)
    ensures
        match collected(arg_views(stream@), value_views(allowed_options@), stream@.len() as int) {
            Ok(all) => result matches Ok(options) && option_views(options@) == all.options,
            Err(message) => result matches Err(text) && text@ == message,
        },
        result matches Ok(options) ==> names_differ(option_views(options@)),
{
    let ghost args = arg_views(stream@);
    let ghost allowed = value_views(allowed_options@);
    let mut options: Vec<(String, Vec<String>)> = Vec::new();
    let mut current: Option<usize> = None;
    let mut i: usize = 0;
    proof {
        assert(option_views(options@) =~= Seq::<(Seq<char>, Seq<Seq<char>>)>::empty());
    }
    while i < stream.len()
        invariant
            i <= stream.len(),
            args == arg_views(stream@),
            allowed == value_views(allowed_options@),
            collected(args, allowed, i as int) == Ok::<Collected, Seq<char>>(
                Collected {
                    options: option_views(options@),
                    current: match current {
                        Some(at) => Some(at as int),
                        None => None,
                    },
                },
            ),
            current matches Some(at) ==> at < options@.len(),
        decreases stream.len() - i,
    {
        let arg = stream[i].clone();
        assert(args[i as int] == arg@);
        let ghost before = option_views(options@);
        if starts_with_dashes(arg.as_str()) {
            let len = arg.as_str().unicode_len();
            let name = arg.as_str().substring_char(2, len);
            assert(name@ == option_name(arg@));
            if !is_allowed(allowed_options, name) {
                let mut message = String::from_str("unknown option: ");
                message.append(name);
                proof {
                    lemma_collected_error(args, allowed, i as int + 1, stream@.len() as int);
                }
                return Err(message);
            }
            let at = find_option(&options, name);
            if at == options.len() {
                options.push((String::from_str(name), Vec::new()));
                proof {
                    assert(value_views(Seq::<String>::empty()) =~= Seq::<Seq<char>>::empty());
                    assert(option_views(options@) =~= before.push((name@, Seq::empty())));
                }
            }
            current = Some(at);
        } else {
            match current {
                None => {
                    let mut message = String::from_str("unexpected value: ");
                    message.append(arg.as_str());
                    proof {
                        lemma_collected_error(args, allowed, i as int + 1, stream@.len() as int);
                    }
                    return Err(message);
                },
                Some(at) => {
                    let ghost old_values = options@[at as int].1@;
                    let ghost name = options@[at as int].0;
                    add_value(&mut options, at, arg);
                    proof {
                        assert(value_views(old_values.push(arg)) =~= value_views(old_values).push(
                            arg@,
                        ));
                        assert(option_views(options@) =~= before.update(
                            at as int,
                            (before[at as int].0, before[at as int].1.push(arg@)),
                        ));
                    }
                },
            }
        }
        i = i + 1;
    }
    proof {
        lemma_collected_names_differ(args, allowed, stream@.len() as int);
    }
    Ok(options)
}

/// Adds `value` to the values of the option at position `at`.
fn add_value(options: &mut Vec<(String, Vec<String>)>, at: usize, value: String)
    requires
        at < old(options)@.len(),
    ensures
        final(options)@.len() == old(options)@.len(),
        final(options)@[at as int].0 == old(options)@[at as int].0,
        final(options)@[at as int].1@ == old(options)@[at as int].1@.push(value),
        forall|i: int|
            0 <= i < old(options)@.len() && i != at ==> final(options)@[i] == old(options)@[i],
{
    options[at].1.push(value);
}

/// Once collecting has failed, it has failed for good, with the same
/// message.
pub proof fn lemma_collected_error(
    args: Seq<Seq<char>>,
    allowed: Seq<Seq<char>>,
    failed_at: int,
    count: int,
)
    requires
        failed_at <= count,
        collected(args, allowed, failed_at) is Err,
    ensures
        collected(args, allowed, count) == collected(args, allowed, failed_at),
    decreases count - failed_at,
{
    if failed_at < count {
        lemma_collected_error(args, allowed, failed_at, count - 1);
    }
}

pub open spec fn missing_option_message(option: Seq<char>) -> Seq<char> {
    "missing option "@ + option
}

pub open spec fn value_missing_message(option: Seq<char>) -> Seq<char> {
    "value missing for option "@ + option
}

pub open spec fn too_many_values_message(option: Seq<char>) -> Seq<char> {
    "too many values for option "@ + option
}

pub open spec fn too_few_values_message(option: Seq<char>) -> Seq<char> {
    "too few values for option "@ + option
}

pub open spec fn invalid_value_message(option: Seq<char>, value: Seq<char>) -> Seq<char> {
    "invalid value for option "@ + option + ": "@ + value
}

/// Why the values of `option` cannot be handed out before any of them is
/// read, if they cannot: the option is required and missing, or it does not
/// have exactly `num_values` values.
pub open spec fn values_refused(
    option: Seq<char>,
    options: Seq<(Seq<char>, Seq<Seq<char>>)>,
    num_values: int,
    required: bool,
) -> Option<Seq<char>> {
    let at = position_of(options, option);
    if at >= options.len() {
        if required {
            Some(missing_option_message(option))
        } else {
            None
        }
    } else if options[at].1.len() == 0 {
        Some(value_missing_message(option))
    } else if options[at].1.len() > num_values {
        Some(too_many_values_message(option))
    } else if options[at].1.len() < num_values {
        Some(too_few_values_message(option))
    } else {
        None
    }
}

/// The values of `option` that are to be read.
pub open spec fn values_to_read(option: Seq<char>, options: Seq<(String, Vec<String>)>) -> Seq<
    String,
> {
    let at = position_of(option_views(options), option);
    if at >= options.len() {
        Seq::empty()
    } else {
        options[at].1@
    }
}

/// Returns the values of the option `option`, each read by `parse`, which
/// returns `None` for a value that it cannot read.
pub fn get_option_value<T, F: Fn(&String) -> Option<T>>(
    option: &str,
    option_values: &Vec<(String, Vec<String>)>,
    num_values: usize,
    required: bool,
    parse: F,
) -> (result: Result<Vec<T>, String>)
    requires
        forall|value: &String| call_requires(parse, (value,)),
    ensures
        match values_refused(option@, option_views(option_values@), num_values as int, required) {
            Some(message) => result matches Err(text) && text@ == message,
            None => {
                let values = values_to_read(option@, option_values@);
                match result {
                    Ok(parsed) => {
                        &&& parsed@.len() == values.len()
                        &&& forall|i: int|
                            0 <= i < values.len() ==> call_ensures(
                                parse,
                                (&values[i],),
                                Some(#[trigger] parsed@[i]),
                            )
                    },
                    Err(text) => exists|i: int|
                        0 <= i < values.len() && call_ensures(
                            parse,
                            (&#[trigger] values[i],),
                            None::<T>,
                        ) && text@ == invalid_value_message(option@, values[i]@),
                }
            },
        },
{
    let ghost views = option_views(option_values@);
    let at = find_option(option_values, option);
    if at == option_values.len() {
        if required {
            let mut message = String::from_str("missing option ");
            message.append(option);
            return Err(message);
        } else {
            return Ok(Vec::new());
        }
    }
    let values = &option_values[at].1;
    assert(views[at as int].1 == value_views(values@));
    if values.len() == 0 {
        let mut message = String::from_str("value missing for option ");
        message.append(option);
        Err(message)
    } else if values.len() > num_values {
        let mut message = String::from_str("too many values for option ");
        message.append(option);
        Err(message)
    } else if values.len() < num_values {
        let mut message = String::from_str("too few values for option ");
        message.append(option);
        Err(message)
    } else {
        let mut parsed_vals: Vec<T> = Vec::new();
        let mut i: usize = 0;
        while i < values.len()
            invariant
                i <= values.len(),
                parsed_vals@.len() == i,
                forall|value: &String| call_requires(parse, (value,)),
                values_refused(option@, option_views(option_values@), num_values as int, required)
                    is None,
                values@ == values_to_read(option@, option_values@),
                forall|j: int|
                    0 <= j < i ==> call_ensures(
                        parse,
                        (&values@[j],),
                        Some(#[trigger] parsed_vals@[j]),
                    ),
            decreases values.len() - i,
        {
            let value = &values[i];
            match parse(value) {
                Some(parsed) => {
                    parsed_vals.push(parsed);
                },
                None => {
                    let mut message = String::from_str("invalid value for option ");
                    message.append(option);
                    message.append(": ");
                    message.append(value.as_str());
                    assert(values@[i as int] == *value);
                    return Err(message);
                },
            }
            i = i + 1;
        }
        Ok(parsed_vals)
    }
}

} // verus!
