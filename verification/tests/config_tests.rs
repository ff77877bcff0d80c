use srb2_relay::config::{
    load_bot_config, load_bot_token, load_relay_filter, should_relay, ConfigError, ConfigField,
    RelayFilter,
};

#[test]
fn bot_config_read() {
    let c = load_bot_config(r#"{"bot_token":"T0K","guild_id":"11","channel_id":"+22"}"#).ok().unwrap();
    assert_eq!(c.token, "T0K");
    assert_eq!(c.guild_id, 11);
    assert_eq!(c.channel_id, 22);
}

#[test]
fn bot_config_errors() {
    let err = |t: &str| load_bot_config(t).err().unwrap();
    assert_eq!(err("not json"), ConfigError::BadJson);
    assert_eq!(err(r#"{"guild_id":"1","channel_id":"2"}"#), ConfigError::Missing(ConfigField::BotToken));
    assert_eq!(err(r#"{"bot_token":"t","guild_id":1,"channel_id":"2"}"#), ConfigError::Missing(ConfigField::GuildId));
    assert_eq!(err(r#"{"bot_token":"t","guild_id":"1"}"#), ConfigError::Missing(ConfigField::ChannelId));
    assert_eq!(err(r#"{"bot_token":"t","guild_id":"x","channel_id":"y"}"#), ConfigError::NotANumber(ConfigField::ChannelId));
    assert_eq!(err(r#"{"bot_token":"t","guild_id":"x","channel_id":"2"}"#), ConfigError::NotANumber(ConfigField::GuildId));
    assert_eq!(err("[1, 2]"), ConfigError::Missing(ConfigField::BotToken));
}

#[test]
fn bot_token_read() {
    assert_eq!(load_bot_token(r#"{"bot_token":"abc"}"#), Ok("abc".to_string()));
    assert_eq!(load_bot_token("{"), Err(ConfigError::BadJson));
    assert_eq!(load_bot_token(r#"{"bot_token":null}"#), Err(ConfigError::Missing(ConfigField::BotToken)));
}

#[test]
fn relay_filter_read() {
    let f = load_relay_filter(r#"{"channel_id":"10","bot_id":"5"}"#).ok().unwrap();
    assert_eq!(f.channel_id, "10");
    assert_eq!(f.bot_id, "5");
    assert_eq!(load_relay_filter(r#"{"bot_id":"5"}"#).err(), Some(ConfigError::Missing(ConfigField::ChannelId)));
    assert_eq!(load_relay_filter(r#"{"channel_id":"1"}"#).err(), Some(ConfigError::Missing(ConfigField::BotId)));
    assert_eq!(load_relay_filter("").err(), Some(ConfigError::BadJson));
}

fn filter(channel: &str, bot: &str) -> RelayFilter {
    RelayFilter { channel_id: channel.to_string(), bot_id: bot.to_string() }
}

#[test]
fn relay_decisions() {
    let f = filter("10", "5");
    assert_eq!(should_relay(&f, 10, 5), Ok(false));
    assert_eq!(should_relay(&f, 10, 6), Ok(true));
    assert_eq!(should_relay(&f, 11, 6), Ok(false));
    // the channel is compared as text
    assert_eq!(should_relay(&filter("010", "5"), 10, 6), Ok(false));
    // the bot id is read only for the configured channel
    assert_eq!(should_relay(&filter("10", "x"), 10, 6), Err(ConfigError::NotANumber(ConfigField::BotId)));
    assert_eq!(should_relay(&filter("10", "x"), 11, 6), Ok(false));
}
