//! The command line, and where the bot finds SRB2's message files.
use vstd::prelude::*;
use crate::text::{contains, occurs_at};

verus! {

/// What the command line asks for.
#[derive(Debug, Clone, Copy, PartialEq, Eq, Structural)]
pub enum Command {
    /// Print the help text.
    Help,
    /// Print the program's name and version.
    Version,
    /// Read SRB2's parameters from the command line (not available yet).
    Params,
    /// Read SRB2's parameters from a config file (not available yet).
    Config,
    /// Start the bot.
    Run,
}

/// The command for the arguments `args` (the program's own path first): no argument asks
/// for help; otherwise the first argument decides, and one that is not known asks for help.
pub open spec fn command_of(args: Seq<Seq<char>>) -> Command {
    if args.len() <= 1 {
        Command::Help
    } else {
        let a = args[1];
        if a == "-h"@ || a == "--help"@ {
            Command::Help
        } else if a == "-v"@ || a == "--version"@ {
            Command::Version
        } else if a == "-p"@ || a == "--params"@ {
            Command::Params
        } else if a == "-c"@ || a == "--config"@ {
            Command::Config
        } else if a == "-r"@ || a == "--run"@ {
            Command::Run
        } else {
            Command::Help
        }
    }
}

/// Whether the string `a` is the text `lit`.
fn is_text(a: &String, lit: &str) -> (r: bool)
    ensures
        r == (a@ == lit@),
{
    let l = String::from_str(lit);
    *a == l
}

/// The command that the program's arguments ask for.
pub fn parse_command(args: &Vec<String>) -> (r: Command)
    requires
        args.len() >= 1,
    ensures
        r == command_of(args.deep_view()),
{
    if args.len() == 1 {
        return Command::Help;
    }
    let a = &args[1];
    assert(args.deep_view()[1] == a@);
    if is_text(a, "-h") || is_text(a, "--help") {
        Command::Help
    } else if is_text(a, "-v") || is_text(a, "--version") {
        Command::Version
    } else if is_text(a, "-p") || is_text(a, "--params") {
        Command::Params
    } else if is_text(a, "-c") || is_text(a, "--config") {
        Command::Config
    } else if is_text(a, "-r") || is_text(a, "--run") {
        Command::Run
    } else {
        Command::Help
    }
}

/// The file, under the home directory `home`, where the bot writes Discord messages for SRB2.
pub fn discord_message_path(home: &str) -> (r: String)
    ensures
        r@ == home@ + "/.srb2/luafiles/client/DiscordBot/discordmessage.txt"@,
{
    let mut p = String::from_str(home);
    p.append("/.srb2/luafiles/client/DiscordBot/discordmessage.txt");
    p
}

/// The file, under the home directory `home`, where SRB2 writes its chat for Discord.
pub fn server_message_path(home: &str) -> (r: String)
    ensures
        r@ == home@ + "/.srb2/luafiles/client/DiscordBot/Messages.txt"@,
{
    let mut p = String::from_str(home);
    p.append("/.srb2/luafiles/client/DiscordBot/Messages.txt");
    p
}


/// The program's name and version, as `--version` prints them.
pub open spec fn version_text_of(name: Seq<char>, version: Seq<char>) -> Seq<char> {
    name + " v"@ + version
}

/// The start of the help text: the version line, the author, the description, and how to
/// get the help text again, up to the `USAGE:` heading.
pub open spec fn help_intro(name: Seq<char>, version: Seq<char>, author: Seq<char>, description: Seq<char>) -> Seq<char> {
    version_text_of(name, version)
        + "
AUTHOR: "@
        + author
        + "

DESCRIPTION: "@
        + description
        + "

To print this message again, you can either call "@
        + name
        + " with no arguments, or call it with the `-h` or `--help` arguments.

USAGE:
"@
}

/// One usage line of the help text: the program `name` followed by `options`.
pub open spec fn usage_line(name: Seq<char>, options: Seq<char>) -> Seq<char> {
    "\t"@ + name + options + "\n"@
}

/// The help text after the usage lines: the work in progress, the arguments and the options.
pub open spec fn help_details(name: Seq<char>) -> Seq<char> {
    "
WIP:
\t"@
        + name
        + " -r, --run [CLI ARGS]
\t"@
        + name
        + " -p, --params (TODO)
\t"@
        + name
        + " -c, --config (TODO)
    
ARGS:
\t<CLI ARGS>
\t\tA list of arguments that SRB2 can process before the game starts. This can be one argument or many. It's advised to visit the SRB2 wiki (https://wiki.srb2.org/wiki/Command_line_parameters) to look at what commandline arguments you can provide to SRB2.

\t\tFor example, to start a dedicated server on port 5029 and have your server show up in the standard rooms, execute the program like so:
\t\t  `"@
        + name
        + " --params -dedicated -port 5029 -room 38`


OPTIONS:
\t-p, --params
\t\tThis option is used to indicate that everything following this option will be parameters to give to SRB2 before it starts.
\t\tNote that this on its own will not run the program, as `-r | --run` are required to do that.

\t-c, --config
\t\tIf specified on its own, it opens the config at the default path and directly reads the arguments from there. If one doesn't already exist, it will be created. 
\t\tIf you have a config at a specific path, then you may specify this path (e.g. -c /path/to/my/file.sh ).
\t\tNote that this on its own will not run the program, as `-r | --run` are required to do that.

\t-r, --run
\t\tIf specified on its own, immediately starts the program with the default parameters. That is to say, it will look for a default config and read for any potential arguments before starting.
\t\tThis is primarily stacked with the above parameters (e.g. config/parameters)
\t\tThere are some extra parameters you can provide here, and they are as follows:
\t\t\tNOCONFIG: This will tell the program to just start without reading from any default config. (e.g. --start NOCONFIG )
\t\t\tRUNSRB2 : This will tell the program to run the program, but to also run SRB2. You can have more control over SRB2 this way.
\t\t\t\tHere you can also specify a path to your SRB2 executable. (e.g. --start RUNSRB2 /path/to/srb2)

\t-h, --help
\t\tShow the help message.

\t-v, --version
\t\tShow program version.
"@
}

/// The help text for the program `name`, at `version`, by `author`, described as `description`.
pub open spec fn help_text_of(name: Seq<char>, version: Seq<char>, author: Seq<char>, description: Seq<char>) -> Seq<char> {
    help_intro(name, version, author, description)
        + usage_line(name, " -r, --run"@)
        + usage_line(name, " -h, --help"@)
        + usage_line(name, " -v, --version"@)
        + help_details(name)
}

/// The line that `--version` prints: `name vversion`.
pub fn version_text(name: &str, version: &str) -> (r: String)
    ensures
        r@ == version_text_of(name@, version@),
{
    let mut s = String::from_str(name);
    s.append(" v");
    s.append(version);
    s
}

/// Appends the usage line of `name` with `options`.
fn push_usage_line(s: &mut String, name: &str, options: &str)
    ensures
        final(s)@ == old(s)@ + usage_line(name@, options@),
{
    s.append("\t");
    s.append(name);
    s.append(options);
    s.append("\n");
    assert(s@ =~= old(s)@ + usage_line(name@, options@));
}

/// The help text that `--help` prints, the command-line options listed with their use.
pub fn help_text(name: &str, version: &str, author: &str, description: &str) -> (r: String)
    ensures
        r@ == help_text_of(name@, version@, author@, description@),
{
    let mut s = String::new();
    s.append(name);
    s.append(" v");
    s.append(version);
    s.append("
AUTHOR: ");
    s.append(author);
    s.append("

DESCRIPTION: ");
    s.append(description);
    s.append("

To print this message again, you can either call ");
    s.append(name);
    s.append(" with no arguments, or call it with the `-h` or `--help` arguments.

USAGE:
");
    assert(s@ =~= help_intro(name@, version@, author@, description@));
    push_usage_line(&mut s, name, " -r, --run");
    push_usage_line(&mut s, name, " -h, --help");
    push_usage_line(&mut s, name, " -v, --version");
    let ghost before = s@;
    s.append("
WIP:
\t");
    s.append(name);
    s.append(" -r, --run [CLI ARGS]
\t");
    s.append(name);
    s.append(" -p, --params (TODO)
\t");
    s.append(name);
    s.append(" -c, --config (TODO)
    
ARGS:
\t<CLI ARGS>
\t\tA list of arguments that SRB2 can process before the game starts. This can be one argument or many. It's advised to visit the SRB2 wiki (https://wiki.srb2.org/wiki/Command_line_parameters) to look at what commandline arguments you can provide to SRB2.

\t\tFor example, to start a dedicated server on port 5029 and have your server show up in the standard rooms, execute the program like so:
\t\t  `");
    s.append(name);
    s.append(" --params -dedicated -port 5029 -room 38`


OPTIONS:
\t-p, --params
\t\tThis option is used to indicate that everything following this option will be parameters to give to SRB2 before it starts.
\t\tNote that this on its own will not run the program, as `-r | --run` are required to do that.

\t-c, --config
\t\tIf specified on its own, it opens the config at the default path and directly reads the arguments from there. If one doesn't already exist, it will be created. 
\t\tIf you have a config at a specific path, then you may specify this path (e.g. -c /path/to/my/file.sh ).
\t\tNote that this on its own will not run the program, as `-r | --run` are required to do that.

\t-r, --run
\t\tIf specified on its own, immediately starts the program with the default parameters. That is to say, it will look for a default config and read for any potential arguments before starting.
\t\tThis is primarily stacked with the above parameters (e.g. config/parameters)
\t\tThere are some extra parameters you can provide here, and they are as follows:
\t\t\tNOCONFIG: This will tell the program to just start without reading from any default config. (e.g. --start NOCONFIG )
\t\t\tRUNSRB2 : This will tell the program to run the program, but to also run SRB2. You can have more control over SRB2 this way.
\t\t\t\tHere you can also specify a path to your SRB2 executable. (e.g. --start RUNSRB2 /path/to/srb2)

\t-h, --help
\t\tShow the help message.

\t-v, --version
\t\tShow program version.
");
    assert(s@ =~= before + help_details(name@));
    s
}

/// The help text starts with the version line that `--version` prints, followed by the
/// author, and lists the usages `-r, --run`, `-h, --help` and `-v, --version`.
pub proof fn law_help_text_layout(name: Seq<char>, version: Seq<char>, author: Seq<char>, description: Seq<char>)
    ensures
        ({
            let head = version_text_of(name, version) + "\nAUTHOR: "@ + author;
            help_text_of(name, version, author, description).take(head.len() as int) == head
        }),
        contains(help_text_of(name, version, author, description), name + " -r, --run"@),
        contains(help_text_of(name, version, author, description), name + " -h, --help"@),
        contains(help_text_of(name, version, author, description), name + " -v, --version"@),
{
    let h = help_text_of(name, version, author, description);
    let head = version_text_of(name, version) + "\nAUTHOR: "@ + author;
    let intro = help_intro(name, version, author, description);
    assert(h.take(head.len() as int) =~= head);
    reveal_strlit("\t");
    let u1 = usage_line(name, " -r, --run"@);
    let u2 = usage_line(name, " -h, --help"@);
    let u3 = usage_line(name, " -v, --version"@);
    let x1 = name + " -r, --run"@;
    let x2 = name + " -h, --help"@;
    let x3 = name + " -v, --version"@;
    let i1: int = intro.len() as int + 1;
    let i2: int = intro.len() as int + u1.len() as int + 1;
    let i3: int = intro.len() as int + u1.len() as int + u2.len() as int + 1;
    assert(h.subrange(i1, i1 + x1.len()) =~= x1);
    assert(occurs_at(h, x1, i1));
    assert(h.subrange(i2, i2 + x2.len()) =~= x2);
    assert(occurs_at(h, x2, i2));
    assert(h.subrange(i3, i3 + x3.len()) =~= x3);
    assert(occurs_at(h, x3, i3));
}


/// Only the first argument decides the command: arguments after it change nothing.
pub proof fn law_first_argument_decides(args: Seq<Seq<char>>, extra: Seq<Seq<char>>)
    requires
        args.len() >= 2,
    ensures
        command_of(args + extra) == command_of(args.take(2)),
        command_of(args.take(2) + extra) == command_of(args.take(2)),
{
    assert((args + extra)[1] == args[1]);
    assert(args.take(2)[1] == args[1]);
    assert((args.take(2) + extra)[1] == args[1]);
}

/// `-r` and `--run` start the bot, whatever arguments follow them.
pub proof fn law_run_with_any_parameters(program: Seq<char>, extra: Seq<Seq<char>>)
    ensures
        command_of(seq![program, "--run"@] + extra) == Command::Run,
        command_of(seq![program, "-r"@] + extra) == Command::Run,
{
    reveal_strlit("-r");
    reveal_strlit("--run");
    reveal_strlit("-h");
    reveal_strlit("--help");
    reveal_strlit("-v");
    reveal_strlit("--version");
    reveal_strlit("-p");
    reveal_strlit("--params");
    reveal_strlit("-c");
    reveal_strlit("--config");
    assert((seq![program, "--run"@] + extra)[1] == "--run"@);
    assert((seq![program, "-r"@] + extra)[1] == "-r"@);
    assert("--run"@ != "-h"@ && "--run"@ != "--help"@ && "--run"@ != "-v"@ && "--run"@ != "--version"@);
    assert("--run"@ != "-p"@ && "--run"@ != "--params"@ && "--run"@ != "-c"@ && "--run"@ != "--config"@);
    assert("-r"@[1] == 'r' && "-h"@[1] == 'h' && "-v"@[1] == 'v' && "-p"@[1] == 'p' && "-c"@[1] == 'c');
    assert("-r"@ != "-h"@ && "-r"@ != "--help"@ && "-r"@ != "-v"@ && "-r"@ != "--version"@);
    assert("-r"@ != "-p"@ && "-r"@ != "--params"@ && "-r"@ != "-c"@ && "-r"@ != "--config"@);
}

/// The help text tells how to print it again with exactly the arguments that ask for help:
/// it says to call the program with `-h` or `--help`, and those arguments give the help.
pub proof fn law_help_names_help_arguments(
    name: Seq<char>,
    version: Seq<char>,
    author: Seq<char>,
    description: Seq<char>,
    program: Seq<char>,
)
    ensures
        contains(
            help_text_of(name, version, author, description),
            "call it with the `-h` or `--help` arguments"@,
        ),
        command_of(seq![program, "-h"@]) == Command::Help,
        command_of(seq![program, "--help"@]) == Command::Help,
{
    let phrase = "call it with the `-h` or `--help` arguments"@;
    let tail = " with no arguments, or call it with the `-h` or `--help` arguments.

USAGE:
"@;
    reveal_strlit(" with no arguments, or call it with the `-h` or `--help` arguments.

USAGE:
");
    reveal_strlit("call it with the `-h` or `--help` arguments");
    reveal_strlit(" with no arguments, or ");
    reveal_strlit(".\n\nUSAGE:\n");
    assert(tail =~= " with no arguments, or "@ + phrase + ".\n\nUSAGE:\n"@);
    let pre = version_text_of(name, version) + "\nAUTHOR: "@ + author + "\n\nDESCRIPTION: "@ + description
        + "\n\nTo print this message again, you can either call "@ + name;
    let intro = help_intro(name, version, author, description);
    assert(intro == pre + tail);
    let h = help_text_of(name, version, author, description);
    let i: int = pre.len() as int + 23;
    assert(h.subrange(i, i + phrase.len()) =~= phrase);
    assert(occurs_at(h, phrase, i));
}

} // verus!
