//! The Telegram reporter: alerts go out as messages of a bot to one chat.
use vstd::prelude::*;

use teloxide::Bot;

verus! {

/// `teloxide::Bot`, a Telegram bot client; opaque to the proofs here.
#[verifier::external_type_specification]
#[verifier::external_body]
pub struct ExBot(Bot);

/// The token that a bot client authenticates with (what `Bot::token`
/// returns).
pub uninterp spec fn bot_token(bot: Bot) -> Seq<char>;

/// Builds a bot client for `token`: teloxide's default HTTP client settings
/// (`teloxide::net::default_reqwest_settings().build()`), then
/// `Bot::with_client`, which stores the token as given. Gives `None` where no
/// HTTP client can be built on this machine (`Bot::new` would panic there);
/// whether one can is not claimed.
#[verifier::external_body]
fn new_bot(token: String) -> (bot: Option<Bot>)
    ensures
        bot matches Some(b) ==> bot_token(b) == token@,
{
    match teloxide::net::default_reqwest_settings().build() {
        Ok(client) => Some(Bot::with_client(token, client)),
        Err(_) => None,
    }
}

/// The bot's token and the chat that it writes to.
#[derive(Debug, Clone)]
pub struct Configuration {
    pub api: String,
    pub chat_id: i64,
}

/// That no HTTP client for a bot could be built on this machine. Only
/// [`Telegram::new`] makes one, and only where building the client failed,
/// so an error that holds one stems from that failure.
#[derive(Debug, Clone, Copy, PartialEq, Eq, Structural)]
pub struct HttpClientUnavailable {
    unavailable: bool,
}

/// A Telegram reporter.
#[derive(Debug)]
pub struct Telegram {
    bot: Bot,
    chat_id: i64,
}

impl Telegram {
    /// The chat that the reporter writes to.
    pub closed spec fn spec_chat_id(&self) -> i64 {
        self.chat_id
    }

    /// The bot client that the reporter sends through.
    pub closed spec fn spec_bot(&self) -> Bot {
        self.bot
    }

    /// The reporter that writes to the configured chat through `bot`.
    pub fn from_bot(configuration: &Configuration, bot: Bot) -> (telegram: Self)
        ensures
            telegram.spec_chat_id() == configuration.chat_id,
            telegram.spec_bot() == bot,
    {
        Telegram { bot, chat_id: configuration.chat_id }
    }

    /// Builds the reporter of a configuration: a bot for its token, writing
    /// to its chat. Fails where no HTTP client can be built on this machine;
    /// that is the one failure, and whether it happens is not the
    /// configuration's doing.
    pub fn new(configuration: Configuration) -> (telegram: Result<Self, HttpClientUnavailable>)
        ensures
            telegram matches Ok(t) ==> t.spec_chat_id() == configuration.chat_id && bot_token(
                t.spec_bot(),
            ) == configuration.api@,
    {
        let chat = Configuration { api: String::new(), chat_id: configuration.chat_id };
        match new_bot(configuration.api) {
            Some(bot) => Ok(Telegram::from_bot(&chat, bot)),
            None => Err(HttpClientUnavailable { unavailable: true }),
        }
    }

    /// The bot client.
    pub fn bot(&self) -> (bot: &Bot)
        ensures
            *bot == self.spec_bot(),
    {
        &self.bot
    }

    /// The chat that the reporter writes to.
    pub fn chat_id(&self) -> (chat_id: i64)
        ensures
            chat_id == self.spec_chat_id(),
    {
        self.chat_id
    }
}

} // verus!
