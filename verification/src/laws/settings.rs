//! What the environment and the command line set.
use crate::config::{optional_view, text_setting, Config, ConfigError, EnvVars, NumberVar};
use crate::laws::numbers::written_numbers_are_read_back;
use crate::numeral::{decimal_text, unsigned_value};
use crate::startup::{asks_version, first_unsupported, unsupported_text};
use vstd::prelude::*;
use vstd::string::*;

verus! {

/// What is not set has its default.
pub proof fn unset_variables_have_their_defaults(vars: EnvVars, default: Seq<char>)
    ensures
        vars.history_size is None ==> vars.number(NumberVar::HistorySize) == Some(5000u64),
        vars.collector_listen_port is None ==> vars.number(NumberVar::CollectorListenPort) == Some(
            28881u64,
        ),
        vars.collector_web_workers is None ==> vars.number(NumberVar::CollectorWebWorkers) == Some(
            4u64,
        ),
        text_setting(None, default) == default,
{
}

/// What is set is what is taken: a text as it is, and a number that is positive and in range.
pub proof fn set_variables_are_taken(vars: EnvVars, n: u64, text: String, default: Seq<char>)
    requires
        n > 0,
    ensures
        vars.history_size is Some && vars.history_size->0@ == decimal_text(n as nat) && n
            <= usize::MAX ==> vars.number(NumberVar::HistorySize) == Some(n),
        vars.collector_listen_port is Some && vars.collector_listen_port->0@ == decimal_text(
            n as nat,
        ) && n <= 65535 ==> vars.number(NumberVar::CollectorListenPort) == Some(n),
        vars.collector_web_workers is Some && vars.collector_web_workers->0@ == decimal_text(
            n as nat,
        ) && n <= usize::MAX ==> vars.number(NumberVar::CollectorWebWorkers) == Some(n),
        text_setting(Some(text@), default) == text@,
        optional_view(Some(text)) == Some(text@),
        optional_view(None) is None,
{
    written_numbers_are_read_back(n as nat);
}

/// A number variable that is set is refused exactly where it is no number, zero, or out of its
/// range.
pub proof fn refused_numbers_are_zero_or_out_of_range(vars: EnvVars)
    ensures
        vars.history_size is Some ==> (vars.number(NumberVar::HistorySize) is None
            <==> unsigned_value(vars.history_size->0@) is None || unsigned_value(
            vars.history_size->0@,
        )->0 == 0 || unsigned_value(vars.history_size->0@)->0 > usize::MAX),
        vars.collector_listen_port is Some ==> (vars.number(NumberVar::CollectorListenPort) is None
            <==> unsigned_value(vars.collector_listen_port->0@) is None || unsigned_value(
            vars.collector_listen_port->0@,
        )->0 == 0 || unsigned_value(vars.collector_listen_port->0@)->0 > 65535),
        vars.collector_web_workers is Some ==> (vars.number(NumberVar::CollectorWebWorkers) is None
            <==> unsigned_value(vars.collector_web_workers->0@) is None || unsigned_value(
            vars.collector_web_workers->0@,
        )->0 == 0 || unsigned_value(vars.collector_web_workers->0@)->0 > usize::MAX),
{
}

/// The configuration is an error exactly where a variable is refused. The variable that is
/// named is a refused one, and none before it is.
pub proof fn refused_variable_is_named(vars: EnvVars, variable: NumberVar)
    ensures
        vars.number(variable) is None ==> vars.first_invalid() is Some,
        vars.first_invalid() == Some(variable) ==> vars.number(variable) is None,
        vars.first_invalid() == Some(NumberVar::CollectorListenPort) ==> vars.number(
            NumberVar::HistorySize,
        ) is Some,
        vars.first_invalid() == Some(NumberVar::CollectorWebWorkers) ==> vars.number(
            NumberVar::HistorySize,
        ) is Some && vars.number(NumberVar::CollectorListenPort) is Some,
        vars.raw(NumberVar::HistorySize) == optional_view(vars.history_size),
        vars.raw(NumberVar::CollectorListenPort) == optional_view(vars.collector_listen_port),
        vars.raw(NumberVar::CollectorWebWorkers) == optional_view(vars.collector_web_workers),
{
}

/// The message of a configuration error begins with the name of the variable and ends with
/// what it was set to.
pub proof fn message_names_variable_and_value(error: ConfigError)
    ensures
        exists|between: Seq<char>| error.text() == #[trigger] message_around(error, between),
        NumberVar::HistorySize.spec_name() == "HISTORY_SIZE"@,
        NumberVar::CollectorListenPort.spec_name() == "COLLECTOR_LISTEN_PORT"@,
        NumberVar::CollectorWebWorkers.spec_name() == "COLLECTOR_WEB_WORKERS"@,
{
    let between = " must be a positive integer up to "@ + decimal_text(
        error.variable.spec_max() as nat,
    ) + ", not '"@;
    assert(error.text() =~= message_around(error, between));
}

/// The name of a variable, something, its value, and a quote.
pub open spec fn message_around(error: ConfigError, between: Seq<char>) -> Seq<char> {
    error.variable.spec_name() + between + error.value@ + "'"@
}

/// A configuration is well formed where its numbers are positive.
pub proof fn configured_numbers_are_positive(config: &Config)
    ensures
        config.wf() <==> config.history_size >= 1 && config.listen_port >= 1 && config.web_workers
            >= 1,
{
}

/// Two arguments ask for the version, and no other does.
pub proof fn two_arguments_ask_for_the_version(arg: Seq<char>)
    ensures
        asks_version("-v"@),
        asks_version("--version"@),
        asks_version(arg) ==> arg == "-v"@ || arg == "--version"@,
{
}

/// The first argument that is not supported is the only one that is so, and there is one
/// unless every argument asks for the version.
pub proof fn first_unsupported_argument_is_one(args: Seq<String>, at: int, other: int)
    ensures
        first_unsupported(args, at) && first_unsupported(args, other) ==> at == other,
        first_unsupported(args, at) ==> 0 <= at < args.len() && args[at]@ != "-v"@ && args[at]@
            != "--version"@,
        (exists|i: int| 0 <= i < args.len() && !asks_version(#[trigger] args[i]@)) ==> exists|
            i: int,
        | #[trigger] first_unsupported(args, i),
{
    if exists|i: int| 0 <= i < args.len() && !asks_version(#[trigger] args[i]@) {
        let i = choose|i: int| 0 <= i < args.len() && !asks_version(#[trigger] args[i]@);
        lemma_first_unsupported(args, i);
    }
}

/// Among the arguments up to one that is not supported, there is a first.
proof fn lemma_first_unsupported(args: Seq<String>, at: int)
    requires
        0 <= at < args.len(),
        !asks_version(args[at]@),
    ensures
        exists|i: int| #[trigger] first_unsupported(args, i),
    decreases at,
{
    if exists|i: int| 0 <= i < at && !asks_version(#[trigger] args[i]@) {
        let i = choose|i: int| 0 <= i < at && !asks_version(#[trigger] args[i]@);
        lemma_first_unsupported(args, i);
    } else {
        assert(first_unsupported(args, at));
    }
}

/// What is said of an argument that is not supported quotes it and points to the environment.
pub proof fn refusal_of_an_argument_quotes_it(arg: Seq<char>)
    ensures
        exists|rest: Seq<char>|
            unsupported_text(arg) == #[trigger] (("unsupported command-line argument: "@ + arg)
                + rest),
{
    let rest = ". Use environment variables to configure op-batcher-collector; command-line arguments are not supported."@;
    assert(unsupported_text(arg) == ("unsupported command-line argument: "@ + arg) + rest);
}

} // verus!
