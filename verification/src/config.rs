//! The bot's settings, read from its JSON secret file, and which Discord messages it relays.
use vstd::prelude::*;
use crate::number::{decimal, parse_u64, parsed_u64, u64_to_decimal};
use crate::text::{chars_equal, chars_of};

verus! {

/// What `serde_json` finds in the JSON text `text` at the member `key`: `None` when the text is
/// not JSON, `Some(None)` when the member is absent or not a string, else the string.
pub uninterp spec fn json_string_member(text: Seq<char>, key: Seq<char>) -> Option<Option<Seq<char>>>;

/// Trusted: parses `text` with `serde_json::from_str` into a `serde_json::Value`, indexes it
/// by `key` (which `serde_json` documents as giving `null` for a missing member or a
/// non-object) and reads the member with `Value::as_str`. Nothing is stated of JSON syntax
/// itself: the result is only named, as a function of `text` and `key`.
#[verifier::external_body]
fn json_str_member(text: &str, key: &str) -> (r: Option<Option<String>>)
    ensures
        r.deep_view() == json_string_member(text@, key@),
{
    match serde_json::from_str::<serde_json::Value>(text) {
        Ok(v) => Some(v[key].as_str().map(String::from)),
        Err(_) => None,
    }
}

/// A setting of the secret file.
#[derive(Debug, Clone, Copy, PartialEq, Eq, Structural)]
pub enum ConfigField {
    BotToken,
    GuildId,
    ChannelId,
    BotId,
}

/// Why the secret file's settings cannot be used.
#[derive(Debug, Clone, Copy, PartialEq, Eq, Structural)]
pub enum ConfigError {
    /// The file is not JSON.
    BadJson,
    /// The setting is missing or is not a string.
    Missing(ConfigField),
    /// The setting is not a number as `str::parse::<u64>` reads one.
    NotANumber(ConfigField),
}

/// The settings the bot starts with.
pub struct BotConfig {
    pub token: String,
    pub guild_id: u64,
    pub channel_id: u64,
}

/// The settings that decide which messages are relayed, as the secret file writes them.
pub struct RelayFilter {
    pub channel_id: String,
    pub bot_id: String,
}

/// The error, if any, of starting the bot with the members `bot_token`, `guild_id` and
/// `channel_id` of the secret file (each as `json_string_member` gives it). The checks come
/// in this order: JSON syntax, the three members present in that order, then the channel
/// id and the guild id as numbers.
pub open spec fn bot_config_error(
    token: Option<Option<Seq<char>>>,
    guild: Option<Option<Seq<char>>>,
    channel: Option<Option<Seq<char>>>,
) -> Option<ConfigError> {
    if token is None || guild is None || channel is None {
        Some(ConfigError::BadJson)
    } else if token->0 is None {
        Some(ConfigError::Missing(ConfigField::BotToken))
    } else if guild->0 is None {
        Some(ConfigError::Missing(ConfigField::GuildId))
    } else if channel->0 is None {
        Some(ConfigError::Missing(ConfigField::ChannelId))
    } else if parsed_u64(channel->0->0) is None {
        Some(ConfigError::NotANumber(ConfigField::ChannelId))
    } else if parsed_u64(guild->0->0) is None {
        Some(ConfigError::NotANumber(ConfigField::GuildId))
    } else {
        None
    }
}

/// The bot's settings from the members of its secret file, each as the JSON lookup gave it.
pub fn bot_config_from_members(
    token: Option<Option<String>>,
    guild: Option<Option<String>>,
    channel: Option<Option<String>>,
) -> (r: Result<BotConfig, ConfigError>)
    ensures
        match r {
            Ok(cfg) => {
                &&& bot_config_error(token.deep_view(), guild.deep_view(), channel.deep_view()) is None
                &&& Some(cfg.token@) == token.deep_view()->0
                &&& Some(cfg.guild_id) == parsed_u64(guild.deep_view()->0->0)
                &&& Some(cfg.channel_id) == parsed_u64(channel.deep_view()->0->0)
            },
            Err(e) => bot_config_error(token.deep_view(), guild.deep_view(), channel.deep_view())
                == Some(e),
        },
{
    let (token, guild, channel) = match (token, guild, channel) {
        (Some(t), Some(g), Some(c)) => (t, g, c),
        _ => return Err(ConfigError::BadJson),
    };
    let token = match token {
        Some(t) => t,
        None => return Err(ConfigError::Missing(ConfigField::BotToken)),
    };
    let guild = match guild {
        Some(g) => g,
        None => return Err(ConfigError::Missing(ConfigField::GuildId)),
    };
    let channel = match channel {
        Some(c) => c,
        None => return Err(ConfigError::Missing(ConfigField::ChannelId)),
    };
    let channel_id = match parse_u64(&chars_of(channel.as_str())) {
        Some(v) => v,
        None => return Err(ConfigError::NotANumber(ConfigField::ChannelId)),
    };
    let guild_id = match parse_u64(&chars_of(guild.as_str())) {
        Some(v) => v,
        None => return Err(ConfigError::NotANumber(ConfigField::GuildId)),
    };
    Ok(BotConfig { token, guild_id, channel_id })
}

/// The bot's settings from the text of its secret file.
pub fn load_bot_config(text: &str) -> (r: Result<BotConfig, ConfigError>)
    ensures
        ({
            let token = json_string_member(text@, "bot_token"@);
            let guild = json_string_member(text@, "guild_id"@);
            let channel = json_string_member(text@, "channel_id"@);
            match r {
                Ok(cfg) => {
                    &&& bot_config_error(token, guild, channel) is None
                    &&& Some(cfg.token@) == token->0
                    &&& Some(cfg.guild_id) == parsed_u64(guild->0->0)
                    &&& Some(cfg.channel_id) == parsed_u64(channel->0->0)
                },
                Err(e) => bot_config_error(token, guild, channel) == Some(e),
            }
        }),
{
    let token = json_str_member(text, "bot_token");
    let guild = json_str_member(text, "guild_id");
    let channel = json_str_member(text, "channel_id");
    bot_config_from_members(token, guild, channel)
}

/// The bot's token from the member `bot_token` of its secret file, as the JSON lookup gave it.
pub fn bot_token_from_member(token: Option<Option<String>>) -> (r: Result<String, ConfigError>)
    ensures
        match token.deep_view() {
            None => r == Err::<String, ConfigError>(ConfigError::BadJson),
            Some(None) => r == Err::<String, ConfigError>(ConfigError::Missing(ConfigField::BotToken)),
            Some(Some(t)) => r matches Ok(s) && s@ == t,
        },
{
    match token {
        None => Err(ConfigError::BadJson),
        Some(None) => Err(ConfigError::Missing(ConfigField::BotToken)),
        Some(Some(t)) => Ok(t),
    }
}

/// The bot's token from the text of its secret file.
pub fn load_bot_token(text: &str) -> (r: Result<String, ConfigError>)
    ensures
        match json_string_member(text@, "bot_token"@) {
            None => r == Err::<String, ConfigError>(ConfigError::BadJson),
            Some(None) => r == Err::<String, ConfigError>(ConfigError::Missing(ConfigField::BotToken)),
            Some(Some(t)) => r matches Ok(s) && s@ == t,
        },
{
    bot_token_from_member(json_str_member(text, "bot_token"))
}

/// The error, if any, of reading the relay settings `channel_id` then `bot_id`.
pub open spec fn relay_filter_error(
    channel: Option<Option<Seq<char>>>,
    bot: Option<Option<Seq<char>>>,
) -> Option<ConfigError> {
    if channel is None || bot is None {
        Some(ConfigError::BadJson)
    } else if channel->0 is None {
        Some(ConfigError::Missing(ConfigField::ChannelId))
    } else if bot->0 is None {
        Some(ConfigError::Missing(ConfigField::BotId))
    } else {
        None
    }
}

/// The relay settings from the members `channel_id` and `bot_id`, as the JSON lookup gave them.
pub fn relay_filter_from_members(channel: Option<Option<String>>, bot: Option<Option<String>>) -> (r:
    Result<RelayFilter, ConfigError>)
    ensures
        match r {
            Ok(f) => {
                &&& relay_filter_error(channel.deep_view(), bot.deep_view()) is None
                &&& Some(f.channel_id@) == channel.deep_view()->0
                &&& Some(f.bot_id@) == bot.deep_view()->0
            },
            Err(e) => relay_filter_error(channel.deep_view(), bot.deep_view()) == Some(e),
        },
{
    let (channel, bot) = match (channel, bot) {
        (Some(c), Some(b)) => (c, b),
        _ => return Err(ConfigError::BadJson),
    };
    let channel_id = match channel {
        Some(c) => c,
        None => return Err(ConfigError::Missing(ConfigField::ChannelId)),
    };
    let bot_id = match bot {
        Some(b) => b,
        None => return Err(ConfigError::Missing(ConfigField::BotId)),
    };
    Ok(RelayFilter { channel_id, bot_id })
}

/// The relay settings from the text of the secret file.
pub fn load_relay_filter(text: &str) -> (r: Result<RelayFilter, ConfigError>)
    ensures
        ({
            let channel = json_string_member(text@, "channel_id"@);
            let bot = json_string_member(text@, "bot_id"@);
            match r {
                Ok(f) => {
                    &&& relay_filter_error(channel, bot) is None
                    &&& Some(f.channel_id@) == channel->0
                    &&& Some(f.bot_id@) == bot->0
                },
                Err(e) => relay_filter_error(channel, bot) == Some(e),
            }
        }),
{
    let channel = json_str_member(text, "channel_id");
    let bot = json_str_member(text, "bot_id");
    relay_filter_from_members(channel, bot)
}

/// Whether a message from `author_id` in channel `channel_id` is relayed, for the settings
/// `channel_text` and `bot_text`: only messages of the configured channel, and not those of
/// the bot itself. The bot id is read as a number only for messages of that channel.
pub open spec fn relay_decision(channel_text: Seq<char>, bot_text: Seq<char>, channel_id: u64, author_id: u64) -> Result<
    bool,
    ConfigError,
> {
    if decimal(channel_id as nat) != channel_text {
        Ok(false)
    } else {
        match parsed_u64(bot_text) {
            Some(bot) => Ok(author_id != bot),
            None => Err(ConfigError::NotANumber(ConfigField::BotId)),
        }
    }
}

/// Whether the message from `author_id` in channel `channel_id` is relayed to SRB2.
pub fn should_relay(filter: &RelayFilter, channel_id: u64, author_id: u64) -> (r: Result<bool, ConfigError>)
    ensures
        r == relay_decision(filter.channel_id@, filter.bot_id@, channel_id, author_id),
{
    let shown = u64_to_decimal(channel_id);
    if !chars_equal(&shown, &chars_of(filter.channel_id.as_str())) {
        return Ok(false);
    }
    match parse_u64(&chars_of(filter.bot_id.as_str())) {
        Some(bot) => Ok(author_id != bot),
        None => Err(ConfigError::NotANumber(ConfigField::BotId)),
    }
}

/// The bot never relays its own messages, so nothing it writes comes back to it.
pub proof fn law_bot_not_relayed(channel_text: Seq<char>, bot_text: Seq<char>, channel_id: u64, author_id: u64)
    requires
        parsed_u64(bot_text) == Some(author_id),
    ensures
        relay_decision(channel_text, bot_text, channel_id, author_id) != Ok::<bool, ConfigError>(true),
{
}

/// Messages of other channels than the configured one are never relayed.
pub proof fn law_other_channels_ignored(channel_text: Seq<char>, bot_text: Seq<char>, channel_id: u64, author_id: u64)
    requires
        decimal(channel_id as nat) != channel_text,
    ensures
        relay_decision(channel_text, bot_text, channel_id, author_id) == Ok::<bool, ConfigError>(false),
{
}

/// A message of the configured channel from anyone but the bot is relayed.
pub proof fn law_channel_messages_relayed(channel_id: u64, bot_text: Seq<char>, author_id: u64)
    requires
        parsed_u64(bot_text) matches Some(bot) && bot != author_id,
    ensures
        relay_decision(decimal(channel_id as nat), bot_text, channel_id, author_id) == Ok::<bool, ConfigError>(true),
{
}

} // verus!
