//! What the honeypot does with a recognised packet: record it in the database
//! and report it.

use vstd::prelude::*;
use crate::config::Config;
use crate::database::Database;
use crate::packet::{LoginPacket, PossiblePacket};
use crate::webhook::{ConWebhook, SummaryWebhook};

verus! {

/// What a recognised packet asks the honeypot to record.
#[derive(Debug, PartialEq, Eq)]
pub enum ConnectAction {
    /// A login start: record a login under this name.
    Login { username: String },
    /// A handshake: record a ping for this host name.
    Ping { target: String },
    /// Any other login packet: nothing to record.
    Ignore,
}

/// Decides what to record for a recognised packet: a login for a login start,
/// a ping for a handshake, nothing for the other login packets.
pub fn connect_action(packet: PossiblePacket) -> (r: ConnectAction)
    ensures
        r == match packet {
            PossiblePacket::LoginStart { packet: LoginPacket::Hello { username } } => {
                ConnectAction::Login { username }
            },
            PossiblePacket::LoginStart { packet: _ } => ConnectAction::Ignore,
            PossiblePacket::Status { packet } => ConnectAction::Ping { target: packet.hostname },
        },
{
    match packet {
        PossiblePacket::LoginStart { packet } => match packet {
            LoginPacket::Hello { username } => ConnectAction::Login { username },
            LoginPacket::Key => ConnectAction::Ignore,
            LoginPacket::CustomQuery => ConnectAction::Ignore,
        },
        PossiblePacket::Status { packet } => ConnectAction::Ping { target: packet.hostname },
    }
}

/// The honeypot's state: the database, the settings and where they are
/// stored, and the two webhooks.
#[derive(Debug)]
pub struct Logger {
    pub database: Database,
    pub config: Config,
    pub config_path: String,
    pub summary_webhook: SummaryWebhook,
    pub webhook: ConWebhook,
}

impl Logger {
    /// Puts the honeypot's state together.
    pub fn new(
        database: Database,
        config: Config,
        config_path: String,
        summary_webhook: SummaryWebhook,
        webhook: ConWebhook,
    ) -> (r: Logger)
        ensures
            r.database == database,
            r.config == config,
            r.config_path == config_path,
            r.summary_webhook == summary_webhook,
            r.webhook == webhook,
    {
        Logger { database, config, config_path, summary_webhook, webhook }
    }

    /// Copies the summary webhook's message ids into the settings, to be
    /// saved with them.
    pub fn sync_message_ids(&mut self)
        ensures
            final(self).config.summary_message_ids@ == old(self).summary_webhook.message_ids@,
            final(self).config.webhook_url == old(self).config.webhook_url,
            final(self).config.summary_webhook_url == old(self).config.summary_webhook_url,
            final(self).config.summary_message_id == old(self).config.summary_message_id,
            final(self).config.bind == old(self).config.bind,
            final(self).config.server == old(self).config.server,
            final(self).config.database == old(self).config.database,
            final(self).config.ipinfo_token == old(self).config.ipinfo_token,
            final(self).database == old(self).database,
            final(self).config_path == old(self).config_path,
            final(self).summary_webhook == old(self).summary_webhook,
            final(self).webhook == old(self).webhook,
    {
        let ids = self.summary_webhook.message_ids.clone();
        self.config.summary_message_ids = ids;
    }
}

} // verus!
