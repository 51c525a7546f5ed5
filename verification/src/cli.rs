//! The command line, and the mode of operation that it asks for.
use vstd::prelude::*;

use crate::mqtt_client::optional_text;

verus! {

/// What both sides are told: the node, and how to reach and log in to the broker.
#[derive(Debug, Clone, PartialEq, Eq)]
pub struct CommonConfig {
    /// The node whose topics are used.
    pub node_id: String,
    /// The path of the file that the program's own log goes to.
    pub log: Option<String>,
    pub broker: Option<String>,
    pub username: Option<String>,
    pub password: Option<String>,
}

/// What the user side is told.
#[derive(Debug, Clone, PartialEq, Eq)]
pub struct UserConfig {
    pub common: CommonConfig,
}

/// What the work side is told.
#[derive(Debug, Clone, PartialEq, Eq)]
pub struct WorkConfig {
    pub common: CommonConfig,
    /// The command that every session runs, by way of the system's shell.
    pub command: String,
}

/// The settings that a configuration file may hold.
#[derive(Debug, Clone, PartialEq, Eq)]
pub struct YamlConfig {
    pub broker: Option<String>,
    pub username: Option<String>,
    pub password: Option<String>,
}

/// The command line.
#[derive(Debug, Clone, PartialEq, Eq)]
pub struct Cli {
    pub common: CommonConfig,
    pub serve: bool,
    pub command: Option<String>,
}

/// The side to run.
#[derive(Debug, Clone, PartialEq, Eq)]
pub enum Mode {
    User(UserConfig),
    Work(WorkConfig),
}

/// Why a command line asks for neither side.
#[derive(Debug, Clone, Copy, PartialEq, Eq, Structural)]
pub enum ModeError {
    CommandRequired,
    CommandWithoutServe,
}

impl ModeError {
    /// The text that is shown for the error.
    pub fn message(&self) -> (text: String)
        ensures
            text@ == match self {
                ModeError::CommandRequired => "--command is required when --serve is set"@,
                ModeError::CommandWithoutServe =>
                    "--command can only be used together with --serve"@,
            },
    {
        match self {
            ModeError::CommandRequired => "--command is required when --serve is set".to_owned(),
            ModeError::CommandWithoutServe =>
                "--command can only be used together with --serve".to_owned(),
        }
    }
}

impl Cli {
    /// The side that a command line asks for: work with `--serve`, which then needs a command, and
    /// user without, which must have none.
    pub open spec fn spec_mode(self) -> Result<Mode, ModeError> {
        match (self.serve, self.command) {
            (true, Some(command)) => Ok(Mode::Work(WorkConfig { common: self.common, command })),
            (true, None) => Err(ModeError::CommandRequired),
            (false, Some(_)) => Err(ModeError::CommandWithoutServe),
            (false, None) => Ok(Mode::User(UserConfig { common: self.common })),
        }
    }

    /// The side to run, with its configuration.
    pub fn mode(self) -> (r: Result<Mode, ModeError>)
        ensures
            r == self.spec_mode(),
            match r {
                Ok(Mode::Work(config)) => self.serve && self.command == Some(config.command)
                    && config.common == self.common,
                Ok(Mode::User(config)) => !self.serve && self.command is None && config.common
                    == self.common,
                Err(ModeError::CommandRequired) => self.serve && self.command is None,
                Err(ModeError::CommandWithoutServe) => !self.serve && self.command is Some,
            },
    {
        if self.serve {
            return match self.command {
                Some(command) => Ok(Mode::Work(WorkConfig { common: self.common, command })),
                None => Err(ModeError::CommandRequired),
            };
        }
        if self.command.is_some() {
            return Err(ModeError::CommandWithoutServe);
        }
        Ok(Mode::User(UserConfig { common: self.common }))
    }
}

/// What an argument of the command line takes.
#[derive(Debug, Clone, Copy, PartialEq, Eq, Structural)]
pub enum ArgumentKind {
    /// Nothing: it is given or not.
    Flag,
    /// A text.
    Text,
    /// A text that is not empty.
    NonEmptyText,
}

/// An argument of the command line.
#[derive(Debug, Clone, Copy)]
pub struct Argument {
    pub id: &'static str,
    /// The name after the two dashes; an argument without one goes by its position.
    pub long: Option<&'static str>,
    pub kind: ArgumentKind,
    pub required: bool,
    /// Another argument that has to be given if this one is.
    pub needs: Option<&'static str>,
    /// What the value is called in the help.
    pub value_name: Option<&'static str>,
    pub help: &'static str,
}

/// An [`Argument`] with its texts as characters.
pub struct ArgumentView {
    pub id: Seq<char>,
    pub long: Option<Seq<char>>,
    pub kind: ArgumentKind,
    pub required: bool,
    pub needs: Option<Seq<char>>,
    pub value_name: Option<Seq<char>>,
    pub help: Seq<char>,
}

impl View for Argument {
    type V = ArgumentView;

    open spec fn view(&self) -> ArgumentView {
        ArgumentView {
            id: self.id@,
            long: match self.long {
                Some(long) => Some(long@),
                None => None,
            },
            kind: self.kind,
            required: self.required,
            needs: match self.needs {
                Some(id) => Some(id@),
                None => None,
            },
            value_name: match self.value_name {
                Some(name) => Some(name@),
                None => None,
            },
            help: self.help@,
        }
    }
}

/// An argument that goes by its position and has to be given.
pub open spec fn positional(
    id: Seq<char>,
    value_name: Option<Seq<char>>,
    help: Seq<char>,
) -> ArgumentView {
    ArgumentView {
        id,
        long: None,
        kind: ArgumentKind::Text,
        required: true,
        needs: None,
        value_name,
        help,
    }
}

/// An argument that is given by its name, which is also its id.
pub open spec fn option(
    id: Seq<char>,
    kind: ArgumentKind,
    value_name: Option<Seq<char>>,
    help: Seq<char>,
) -> ArgumentView {
    ArgumentView { id, long: Some(id), kind, required: false, needs: None, value_name, help }
}

/// The arguments of the program.
pub open spec fn program_arguments() -> Seq<ArgumentView> {
    seq![
        positional(
            "node_id"@,
            Some("NODE_ID"@),
            "Logical node identifier used to derive MQTT topics"@,
        ),
        option(
            "log"@,
            ArgumentKind::NonEmptyText,
            Some("LOG"@),
            "Write amr internal logs to the given file path"@,
        ),
        option(
            "broker"@,
            ArgumentKind::Text,
            Some("BROKER"@),
            "MQTT broker url, for example mqtt://localhost:1883"@,
        ),
        option("username"@, ArgumentKind::Text, Some("USERNAME"@), "MQTT username"@),
        option("password"@, ArgumentKind::Text, Some("PASSWORD"@), "MQTT password"@),
        option(
            "serve"@,
            ArgumentKind::Flag,
            None,
            "Run in serve mode and bridge MQTT to a child process"@,
        ),
        ArgumentView {
            needs: Some("serve"@),
            ..option(
                "command"@,
                ArgumentKind::Text,
                Some("COMMAND"@),
                "Agent launch command, executed via the system shell"@,
            )
        },
    ]
}

/// What a command is called in its texts, its version, and what it says about itself.
pub struct HeaderView {
    pub name: Seq<char>,
    pub version: Seq<char>,
    pub about: Seq<char>,
}

/// The header of the program.
pub open spec fn program_header() -> HeaderView {
    HeaderView { name: "amr"@, version: "0.1.0"@, about: "ACP-over-MQTT relay"@ }
}

/// The type that describes a command line to `clap`.
#[verifier::external_type_specification]
#[verifier::external_body]
pub struct ExCommand(clap::Command);

/// The type of the arguments that `clap` has found.
#[verifier::external_type_specification]
#[verifier::external_body]
pub struct ExArgMatches(clap::ArgMatches);

/// A command line that does not lead to a run: it was refused, or it asked for help or for the
/// version.
#[derive(Debug, Clone, PartialEq, Eq)]
pub struct UsageError {
    /// What to show.
    pub text: String,
    /// The same with the escapes that style it on a terminal.
    pub styled: String,
    /// The status to exit with. The text belongs on standard error unless this is zero.
    pub exit_code: i32,
}

impl UsageError {
    /// Whether these are the texts to show.
    pub open spec fn shows(&self, texts: UsageTexts) -> bool {
        (self.text@, self.styled@) == texts
    }
}

/// The arguments that a `clap::Command` has been given, in order.
pub uninterp spec fn declared_arguments(command: clap::Command) -> Seq<ArgumentView>;

/// What a `clap::Command` has been told about itself.
pub uninterp spec fn declared_header(command: clap::Command) -> HeaderView;

/// The arguments of the command that the matches come from.
pub uninterp spec fn matched_arguments(matches: clap::ArgMatches) -> Seq<ArgumentView>;

/// The values that were found, by the id of their argument. A flag that was given has an entry.
pub uninterp spec fn matched_values(matches: clap::ArgMatches) -> Map<Seq<char>, Seq<char>>;

/// What comes of a command line: the values of the arguments, or the status to exit with.
pub type LineOutcome = Result<Map<Seq<char>, Seq<char>>, i32>;

/// What a command line with the program's name in front holds for the given arguments.
pub uninterp spec fn parsed_arguments(
    arguments: Seq<ArgumentView>,
    line: Seq<Seq<char>>,
) -> LineOutcome;

/// A text, plain and with the escapes that style it on a terminal.
pub type UsageTexts = (Seq<char>, Seq<char>);

/// What is shown for a command line with the program's name in front that does not lead to a run.
pub uninterp spec fn usage_texts(
    header: HeaderView,
    arguments: Seq<ArgumentView>,
    line: Seq<Seq<char>>,
) -> UsageTexts;

/// Whether the program's name holds nothing that a system may take for a separator or a prefix of a
/// path: no slash, no backslash and no colon.
pub open spec fn names_file_plainly(line: Seq<Seq<char>>) -> bool {
    line.len() > 0 ==> !line[0].contains('/') && !line[0].contains('\\') && !line[0].contains(':')
}

/// `clap::Command::new`, with `version` and `about`, which only show in texts. The command has no
/// argument yet, but for those for help and version that `clap` adds by itself.
#[verifier::external_body]
fn new_command(
    name: &'static str,
    version: &'static str,
    about: &'static str,
) -> (command: clap::Command)
    ensures
        declared_arguments(command) == Seq::<ArgumentView>::empty(),
        declared_header(command) == (HeaderView { name: name@, version: version@, about: about@ }),
{
    clap::Command::new(name).version(version).about(about)
}

/// `clap::Command::arg`, on an argument made with `Arg::new` and the methods named after the
/// fields; what it needs goes to `requires_ifs`, for whenever it is present. The command has the
/// argument after those it had.
#[verifier::external_body]
fn with_argument(command: clap::Command, argument: Argument) -> (extended: clap::Command)
    ensures
        declared_arguments(extended) == declared_arguments(command).push(argument@),
        declared_header(extended) == declared_header(command),
{
    let (action, parser) = match argument.kind {
        ArgumentKind::Flag => (clap::ArgAction::SetTrue, None),
        ArgumentKind::Text => (clap::ArgAction::Set, Some(clap::builder::ValueParser::string())),
        ArgumentKind::NonEmptyText => (
            clap::ArgAction::Set,
            Some(clap::builder::NonEmptyStringValueParser::new().into()),
        ),
    };
    let needs = argument.needs.map(|id| (clap::builder::ArgPredicate::IsPresent, id));
    let arg = clap::Arg::new(argument.id).long(argument.long).action(action).value_parser(parser);
    let arg = arg.required(argument.required).requires_ifs(needs).value_name(argument.value_name);
    command.arg(arg.help(argument.help))
}

/// `clap::Command::try_get_matches_from`; of an error, `render` and `exit_code`. Values and status
/// are a function of the arguments and the line. In a line that is accepted every required argument
/// has a value, and so has every argument that one with a value needs. A line that is not is left
/// with the status two, or zero where it asks for help or the version. Its texts are a function of
/// header, arguments and line too, but for the program's name: of that they show the part that
/// `std::path::Path::file_name` gives, and where the name holds a slash, a backslash or a colon that
/// depends on how the system reads paths, so nothing is said of the texts there. The call panics on a
/// command whose arguments contradict each other, so it is stated for the program's own only.
#[verifier::external_body]
fn match_line(command: clap::Command, line: &[&str]) -> (r: Result<clap::ArgMatches, UsageError>)
    requires
        declared_arguments(command) == program_arguments(),
    ensures
        match r {
            Ok(matches) => parsed_arguments(declared_arguments(command), line_view(line@))
                == LineOutcome::Ok(matched_values(matches)),
            Err(e) => parsed_arguments(declared_arguments(command), line_view(line@))
                == LineOutcome::Err(e.exit_code),
        },
        r is Ok ==> matched_arguments(r->Ok_0) == declared_arguments(command),
        r is Ok ==> needs_met(matched_arguments(r->Ok_0), matched_values(r->Ok_0)),
        r is Err ==> r->Err_0.exit_code == 0 || r->Err_0.exit_code == 2,
        r is Err && names_file_plainly(line_view(line@)) ==> r->Err_0.shows(
            usage_texts(declared_header(command), declared_arguments(command), line_view(line@)),
        ),
{
    match command.try_get_matches_from(line) {
        Ok(matches) => Ok(matches),
        Err(e) => Err(
            UsageError {
                text: e.render().to_string(),
                styled: e.render().ansi().to_string(),
                exit_code: e.exit_code(),
            },
        ),
    }
}

/// Whether every required argument has a value, and every argument that one with a value needs.
pub open spec fn needs_met(
    arguments: Seq<ArgumentView>,
    values: Map<Seq<char>, Seq<char>>,
) -> bool {
    forall|i: int|
        0 <= i < arguments.len() ==> {
            let argument = #[trigger] arguments[i];
            &&& argument.required ==> values.contains_key(argument.id)
            &&& argument.needs is Some && values.contains_key(argument.id) ==> values.contains_key(
                argument.needs->0,
            )
        }
}

/// Whether there is an argument of the given id, and of the given kinds.
pub open spec fn has_argument(
    arguments: Seq<ArgumentView>,
    id: Seq<char>,
    kinds: Set<ArgumentKind>,
) -> bool {
    exists|i: int|
        0 <= i < arguments.len() && (#[trigger] arguments[i]).id == id && kinds.contains(
            arguments[i].kind,
        )
}

/// `clap::ArgMatches::get_one`, for a `String`. It gives the value that was found for the argument,
/// if any. The call panics on an id of no argument and on an argument of another type.
#[verifier::external_body]
fn matched_text(matches: &clap::ArgMatches, id: &str) -> (value: Option<String>)
    requires
        has_argument(
            matched_arguments(*matches),
            id@,
            set![ArgumentKind::Text, ArgumentKind::NonEmptyText],
        ),
    ensures
        optional_text(value) == if matched_values(*matches).contains_key(id@) {
            Some(matched_values(*matches)[id@])
        } else {
            None
        },
{
    matches.get_one::<String>(id).cloned()
}

/// `clap::ArgMatches::get_flag`. It tells whether the flag was given. The call panics on an id that
/// is not the one of a flag.
#[verifier::external_body]
fn matched_flag(matches: &clap::ArgMatches, id: &str) -> (given: bool)
    requires
        has_argument(matched_arguments(*matches), id@, set![ArgumentKind::Flag]),
    ensures
        given == matched_values(*matches).contains_key(id@),
{
    matches.get_flag(id)
}

/// The words of a command line as characters.
pub open spec fn line_view(line: Seq<&str>) -> Seq<Seq<char>> {
    line.map_values(|word: &str| word@)
}

/// The entry of an argument among the values that were found.
pub open spec fn value_of(values: Map<Seq<char>, Seq<char>>, id: Seq<char>) -> Option<Seq<char>> {
    if values.contains_key(id) {
        Some(values[id])
    } else {
        None
    }
}

impl Cli {
    /// Whether the command line holds exactly the given values.
    pub open spec fn holds(&self, values: Map<Seq<char>, Seq<char>>) -> bool {
        &&& value_of(values, "node_id"@) == Some(self.common.node_id@)
        &&& value_of(values, "log"@) == optional_text(self.common.log)
        &&& value_of(values, "broker"@) == optional_text(self.common.broker)
        &&& value_of(values, "username"@) == optional_text(self.common.username)
        &&& value_of(values, "password"@) == optional_text(self.common.password)
        &&& values.contains_key("serve"@) == self.serve
        &&& value_of(values, "command"@) == optional_text(self.command)
    }

    /// The description of the command line, with the texts for its help.
    fn command() -> (command: clap::Command)
        ensures
            declared_arguments(command) == program_arguments(),
            declared_header(command) == program_header(),
    {
        let command = new_command("amr", "0.1.0", "ACP-over-MQTT relay");
        let command = with_argument(
            command,
            Argument {
                id: "node_id",
                long: None,
                kind: ArgumentKind::Text,
                required: true,
                needs: None,
                value_name: Some("NODE_ID"),
                help: "Logical node identifier used to derive MQTT topics",
            },
        );
        let command = with_argument(
            command,
            Argument {
                id: "log",
                long: Some("log"),
                kind: ArgumentKind::NonEmptyText,
                required: false,
                needs: None,
                value_name: Some("LOG"),
                help: "Write amr internal logs to the given file path",
            },
        );
        let command = with_argument(
            command,
            Argument {
                id: "broker",
                long: Some("broker"),
                kind: ArgumentKind::Text,
                required: false,
                needs: None,
                value_name: Some("BROKER"),
                help: "MQTT broker url, for example mqtt://localhost:1883",
            },
        );
        let command = with_argument(
            command,
            Argument {
                id: "username",
                long: Some("username"),
                kind: ArgumentKind::Text,
                required: false,
                needs: None,
                value_name: Some("USERNAME"),
                help: "MQTT username",
            },
        );
        let command = with_argument(
            command,
            Argument {
                id: "password",
                long: Some("password"),
                kind: ArgumentKind::Text,
                required: false,
                needs: None,
                value_name: Some("PASSWORD"),
                help: "MQTT password",
            },
        );
        let command = with_argument(
            command,
            Argument {
                id: "serve",
                long: Some("serve"),
                kind: ArgumentKind::Flag,
                required: false,
                needs: None,
                value_name: None,
                help: "Run in serve mode and bridge MQTT to a child process",
            },
        );
        let command = with_argument(
            command,
            Argument {
                id: "command",
                long: Some("command"),
                kind: ArgumentKind::Text,
                required: false,
                needs: Some("serve"),
                value_name: Some("COMMAND"),
                help: "Agent launch command, executed via the system shell",
            },
        );
        assert(declared_arguments(command) =~= program_arguments());
        command
    }

    /// Reads a command line, which starts with the name of the program.
    pub fn try_parse_from(line: &[&str]) -> (r: Result<Cli, UsageError>)
        ensures
            match (r, parsed_arguments(program_arguments(), line_view(line@))) {
                (Ok(cli), Ok(values)) => cli.holds(values),
                (Err(e), Err(exit_code)) => e.exit_code == exit_code && (exit_code == 0 || exit_code
                    == 2),
                _ => false,
            },
            r is Err && names_file_plainly(line_view(line@)) ==> r->Err_0.shows(
                usage_texts(program_header(), program_arguments(), line_view(line@)),
            ),
            r is Ok ==> r->Ok_0.spec_mode() != Err::<Mode, ModeError>(
                ModeError::CommandWithoutServe,
            ),
    {
        let matches = match match_line(Cli::command(), line) {
            Ok(matches) => matches,
            Err(e) => {
                return Err(e);
            },
        };
        let ghost arguments = program_arguments();
        assert(arguments[0].id == "node_id"@ && arguments[0].required);
        assert(arguments[1].id == "log"@);
        assert(arguments[2].id == "broker"@);
        assert(arguments[3].id == "username"@);
        assert(arguments[4].id == "password"@);
        assert(arguments[5].id == "serve"@);
        assert(arguments[6].id == "command"@ && arguments[6].needs == Some("serve"@));
        let node_id = matched_text(&matches, "node_id").unwrap();
        let log = matched_text(&matches, "log");
        let broker = matched_text(&matches, "broker");
        let username = matched_text(&matches, "username");
        let password = matched_text(&matches, "password");
        let serve = matched_flag(&matches, "serve");
        let command = matched_text(&matches, "command");
        Ok(
            Cli {
                common: CommonConfig { node_id, log, broker, username, password },
                serve,
                command,
            },
        )
    }
}

/// The flag `--serve` decides the side, and a command is needed on the work side and refused on the
/// user side; either side is given what the command line says, unchanged.
pub proof fn law_serve_decides_the_side(cli: Cli)
    ensures
        cli.spec_mode() is Ok <==> (cli.serve <==> cli.command is Some),
        cli.spec_mode() is Ok && cli.serve ==> cli.spec_mode()->Ok_0 is Work
            && cli.spec_mode()->Ok_0->Work_0.common == cli.common && Some(
            cli.spec_mode()->Ok_0->Work_0.command,
        ) == cli.command,
        cli.spec_mode() is Ok && !cli.serve ==> cli.spec_mode()->Ok_0 is User
            && cli.spec_mode()->Ok_0->User_0.common == cli.common,
        cli.spec_mode() is Err ==> (cli.spec_mode()->Err_0 == ModeError::CommandRequired
            <==> cli.serve),
{
}

/// Each part of the command line is the value of the argument of its name, and is there exactly
/// where the value is.
pub proof fn law_parts_are_the_values_given(cli: Cli, values: Map<Seq<char>, Seq<char>>)
    requires
        cli.holds(values),
    ensures
        values.contains_key("node_id"@) && values["node_id"@] == cli.common.node_id@,
        values.contains_key("serve"@) <==> cli.serve,
        match cli.common.log {
            Some(text) => values.contains_key("log"@) && values["log"@] == text@,
            None => !values.contains_key("log"@),
        },
        match cli.common.broker {
            Some(text) => values.contains_key("broker"@) && values["broker"@] == text@,
            None => !values.contains_key("broker"@),
        },
        match cli.common.username {
            Some(text) => values.contains_key("username"@) && values["username"@] == text@,
            None => !values.contains_key("username"@),
        },
        match cli.common.password {
            Some(text) => values.contains_key("password"@) && values["password"@] == text@,
            None => !values.contains_key("password"@),
        },
        match cli.command {
            Some(text) => values.contains_key("command"@) && values["command"@] == text@,
            None => !values.contains_key("command"@),
        },
{
}

/// The program takes one argument by its position, which has to be given, and the rest by names that
/// are their ids; `serve` is the one that takes no value, `log` the one whose value must not be
/// empty, and `command` the one that needs another, `serve`. Each has its own place and its own help.
pub proof fn law_arguments_of_the_program()
    ensures
        ({
            let arguments = program_arguments();
            &&& arguments.len() == 7
            &&& arguments[0].id == "node_id"@
            &&& arguments[1].id == "log"@
            &&& arguments[2].id == "broker"@
            &&& arguments[3].id == "username"@
            &&& arguments[4].id == "password"@
            &&& arguments[5].id == "serve"@
            &&& arguments[6].id == "command"@
            &&& arguments[0].value_name == Some("NODE_ID"@)
            &&& arguments[1].value_name == Some("LOG"@)
            &&& arguments[2].value_name == Some("BROKER"@)
            &&& arguments[3].value_name == Some("USERNAME"@)
            &&& arguments[4].value_name == Some("PASSWORD"@)
            &&& arguments[6].value_name == Some("COMMAND"@)
            &&& arguments[0].help == "Logical node identifier used to derive MQTT topics"@
            &&& arguments[1].help == "Write amr internal logs to the given file path"@
            &&& arguments[2].help == "MQTT broker url, for example mqtt://localhost:1883"@
            &&& arguments[3].help == "MQTT username"@
            &&& arguments[4].help == "MQTT password"@
            &&& arguments[5].help == "Run in serve mode and bridge MQTT to a child process"@
            &&& arguments[6].help == "Agent launch command, executed via the system shell"@
            &&& program_header().name == "amr"@
            &&& program_header().about == "ACP-over-MQTT relay"@
            &&& forall|i: int|
                0 <= i < arguments.len() ==> {
                    let argument = #[trigger] arguments[i];
                    &&& argument.required <==> argument.id == "node_id"@
                    &&& argument.long == if argument.id == "node_id"@ {
                        None
                    } else {
                        Some(argument.id)
                    }
                    &&& argument.kind == ArgumentKind::Flag <==> argument.id == "serve"@
                    &&& argument.kind == ArgumentKind::NonEmptyText <==> argument.id == "log"@
                    &&& argument.needs == if argument.id == "command"@ {
                        Some("serve"@)
                    } else {
                        None
                    }
                    &&& argument.value_name is None <==> argument.kind == ArgumentKind::Flag
                }
        }),
{
    reveal_strlit("node_id");
    reveal_strlit("log");
    reveal_strlit("broker");
    reveal_strlit("username");
    reveal_strlit("password");
    reveal_strlit("serve");
    reveal_strlit("command");
    let arguments = program_arguments();
    assert("node_id"@.len() == 7 && "log"@.len() == 3 && "broker"@.len() == 6 && "username"@.len()
        == 8 && "password"@.len() == 8 && "serve"@.len() == 5 && "command"@.len() == 7);
    assert("node_id"@[0] == 'n' && "command"@[0] == 'c');
    assert forall|i: int| 0 <= i < arguments.len() implies {
        let argument = #[trigger] arguments[i];
        &&& argument.required <==> argument.id == "node_id"@
        &&& argument.long == if argument.id == "node_id"@ {
            None
        } else {
            Some(argument.id)
        }
        &&& argument.kind == ArgumentKind::Flag <==> argument.id == "serve"@
        &&& argument.kind == ArgumentKind::NonEmptyText <==> argument.id == "log"@
        &&& argument.needs == if argument.id == "command"@ {
            Some("serve"@)
        } else {
            None
        }
        &&& argument.value_name is None <==> argument.kind == ArgumentKind::Flag
    } by {
        assert(i == 0 || i == 1 || i == 2 || i == 3 || i == 4 || i == 5 || i == 6);
    }
}

} // verus!
