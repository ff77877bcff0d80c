use srb2_relay::cli::{discord_message_path, help_text, parse_command, server_message_path, version_text, Command};

fn cmd(args: &[&str]) -> Command {
    parse_command(&args.iter().map(|s| s.to_string()).collect())
}

#[test]
fn commands() {
    assert_eq!(cmd(&["bot"]), Command::Help);
    assert_eq!(cmd(&["bot", "-h"]), Command::Help);
    assert_eq!(cmd(&["bot", "--help"]), Command::Help);
    assert_eq!(cmd(&["bot", "-v"]), Command::Version);
    assert_eq!(cmd(&["bot", "--version", "x"]), Command::Version);
    assert_eq!(cmd(&["bot", "-p"]), Command::Params);
    assert_eq!(cmd(&["bot", "--params"]), Command::Params);
    assert_eq!(cmd(&["bot", "-c"]), Command::Config);
    assert_eq!(cmd(&["bot", "--config"]), Command::Config);
    assert_eq!(cmd(&["bot", "-r"]), Command::Run);
    assert_eq!(cmd(&["bot", "--run"]), Command::Run);
    assert_eq!(cmd(&["bot", "--start"]), Command::Help);
}

#[test]
fn message_paths() {
    assert_eq!(discord_message_path("/home/u"), "/home/u/.srb2/luafiles/client/DiscordBot/discordmessage.txt");
    assert_eq!(server_message_path("/home/u"), "/home/u/.srb2/luafiles/client/DiscordBot/Messages.txt");
}

#[test]
fn texts() {
    assert_eq!(version_text("bot", "1.2"), "bot v1.2");
    let h = help_text("bot", "1.2", "me", "relay");
    assert!(h.starts_with("bot v1.2\nAUTHOR: me\n\nDESCRIPTION: relay\n\n"));
    assert!(h.contains("\tbot -r, --run\n\tbot -h, --help\n\tbot -v, --version\n"));
    assert!(h.contains("`bot --params -dedicated -port 5029 -room 38`"));
    assert!(h.contains("(https://wiki.srb2.org/wiki/Command_line_parameters)"));
    assert!(h.ends_with("\t\tShow program version.\n"));
}
