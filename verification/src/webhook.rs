//! The Discord reports: one message per connection, and a summary of all
//! clients kept up to date in messages that are created once and then edited.

use vstd::prelude::*;
use crate::database::{
    Client,
    ClientRecord,
    Database,
    Login,
    LoginRecord,
    Ping,
    PingRecord,
    Timestamp,
    instant,
    is_later,
    lemma_later_is_chronological,
    well_formed_time,
};
use crate::text::{
    decimal,
    parse_u64,
    push_decimal,
    push_signed_decimal,
    signed_decimal,
    trim_end_slashes,
    trim_trailing_slashes,
    u64_text_value,
};

verus! {

/// How many clients one summary message adds.
pub const CLIENTS_PER_MESSAGE: usize = 25;

/// One field of a summary embed.
#[derive(Debug)]
pub struct EmbedField {
    pub name: String,
    pub value: String,
    pub inline: bool,
}

/// One summary message: an embed with an optional title and its fields.
#[derive(Debug)]
pub struct SummaryMessage {
    pub title: Option<String>,
    pub fields: Vec<EmbedField>,
}

/// An embed field as a value.
pub struct FieldRecord {
    pub name: Seq<char>,
    pub value: Seq<char>,
    pub inline: bool,
}

/// A summary message as a value.
pub struct MessageRecord {
    pub title: Option<Seq<char>>,
    pub fields: Seq<FieldRecord>,
}

impl View for EmbedField {
    type V = FieldRecord;

    open spec fn view(&self) -> FieldRecord {
        FieldRecord { name: self.name@, value: self.value@, inline: self.inline }
    }
}

impl View for SummaryMessage {
    type V = MessageRecord;

    open spec fn view(&self) -> MessageRecord {
        MessageRecord {
            title: match self.title {
                Some(t) => Some(t@),
                None => None,
            },
            fields: self.fields@.map_values(|f: EmbedField| f@),
        }
    }
}

/// A Markdown link to the lookup page of an address, showing the address.
pub open spec fn pretty_ip_text(ip: Seq<char>) -> Seq<char> {
    "[`"@ + ip + "`](https://ipinfo.io/"@ + ip + ")"@
}

/// Shows an address as a link to its lookup page.
pub fn pretty_ip(ip: &str) -> (r: String)
    ensures
        r@ == pretty_ip_text(ip@),
{
    let mut s = String::from_str("[`");
    s.append(ip);
    s.append("`](https://ipinfo.io/");
    s.append(ip);
    s.append(")");
    s
}

/// The earliest of some times; of equal times, the first (what `reduce` with
/// "keep `b` when `a` is later" gives).
pub open spec fn earliest(times: Seq<Timestamp>) -> Timestamp
    recommends
        times.len() > 0,
    decreases times.len(),
{
    if times.len() <= 1 {
        times[0]
    } else {
        let a = earliest(times.drop_last());
        if is_later(a, times.last()) {
            times.last()
        } else {
            a
        }
    }
}

/// The times of some pings.
pub open spec fn ping_times(pings: Seq<PingRecord>) -> Seq<Timestamp> {
    pings.map_values(|p: PingRecord| p.time)
}

/// The times of some logins.
pub open spec fn login_times(logins: Seq<LoginRecord>) -> Seq<Timestamp> {
    logins.map_values(|l: LoginRecord| l.time)
}

/// `N/A` for no times, else a Discord relative timestamp of the earliest.
pub open spec fn seen_text(times: Seq<Timestamp>) -> Seq<char> {
    if times.len() == 0 {
        "N/A"@
    } else {
        "<t:"@ + signed_decimal(earliest(times).seconds as int) + ":R>"@
    }
}

/// The summary field of one client: its address as name; its ping and login
/// counts with the earliest of each, and its description, as value.
pub open spec fn client_field(c: ClientRecord) -> FieldRecord {
    FieldRecord {
        name: "`"@ + c.ip + "`"@,
        value: "Pings: `"@ + decimal(c.pings.len()) + "` (Last: "@ + seen_text(ping_times(c.pings))
            + "), Logins: `"@ + decimal(c.logins.len()) + "` (Last: "@ + seen_text(
            login_times(c.logins),
        ) + "), Con: "@ + c.ipinfo,
        inline: true,
    }
}

/// The number of fields of summary message `k` for `n` clients: the first
/// `25 * k + n % 25` clients.
pub open spec fn message_field_count(n: nat, k: nat) -> nat {
    25 * k + n % 25
}

/// The summary messages for some clients: `n / 25 + 1` messages, the first
/// titled `Clients`; message `k` lists the first `message_field_count(n, k)`
/// clients, so that the last one lists them all.
pub open spec fn summary(clients: Seq<ClientRecord>) -> Seq<MessageRecord> {
    Seq::new(
        clients.len() / 25 + 1,
        |k: int|
            MessageRecord {
                title: if k == 0 {
                    Some("Clients"@)
                } else {
                    None
                },
                fields: Seq::new(
                    message_field_count(clients.len(), k as nat),
                    |j: int| client_field(clients[j]),
                ),
            },
    )
}

fn earliest_time(times: &Vec<Timestamp>) -> (r: Timestamp)
    requires
        times.len() > 0,
    ensures
        r == earliest(times@),
{
    let mut acc = times[0];
    let mut i: usize = 1;
    assert(times@.subrange(0, 1) =~= seq![times@[0]]);
    while i < times.len()
        invariant
            1 <= i <= times.len(),
            acc == earliest(times@.subrange(0, i as int)),
        decreases times.len() - i,
    {
        assert(times@.subrange(0, i + 1).drop_last() =~= times@.subrange(0, i as int));
        if acc.later_than(&times[i]) {
            acc = times[i];
        }
        i = i + 1;
    }
    assert(times@.subrange(0, i as int) =~= times@);
    acc
}

fn push_seen(s: &mut String, times: &Vec<Timestamp>)
    ensures
        final(s)@ == old(s)@ + seen_text(times@),
{
    if times.len() == 0 {
        s.append("N/A");
    } else {
        let t = earliest_time(times);
        s.append("<t:");
        push_signed_decimal(s, t.seconds);
        s.append(":R>");
    }
}

fn ping_time_list(pings: &Vec<Ping>) -> (r: Vec<Timestamp>)
    ensures
        r@ == ping_times(pings@.map_values(|p: Ping| p@)),
{
    let mut r: Vec<Timestamp> = Vec::new();
    for i in 0..pings.len()
        invariant
            r@ == ping_times(pings@.subrange(0, i as int).map_values(|p: Ping| p@)),
    {
        r.push(pings[i].time);
        assert(r@ =~= ping_times(pings@.subrange(0, i + 1).map_values(|p: Ping| p@)));
    }
    assert(pings@.subrange(0, pings@.len() as int) =~= pings@);
    r
}

fn login_time_list(logins: &Vec<Login>) -> (r: Vec<Timestamp>)
    ensures
        r@ == login_times(logins@.map_values(|l: Login| l@)),
{
    let mut r: Vec<Timestamp> = Vec::new();
    for i in 0..logins.len()
        invariant
            r@ == login_times(logins@.subrange(0, i as int).map_values(|l: Login| l@)),
    {
        r.push(logins[i].time);
        assert(r@ =~= login_times(logins@.subrange(0, i + 1).map_values(|l: Login| l@)));
    }
    assert(logins@.subrange(0, logins@.len() as int) =~= logins@);
    r
}

/// The summary field of one client.
pub fn summary_field(client: &Client) -> (r: EmbedField)
    ensures
        r@ == client_field(client@),
{
    let mut name = String::from_str("`");
    name.append(client.ip.as_str());
    name.append("`");
    let mut value = String::from_str("Pings: `");
    push_decimal(&mut value, client.pings.len() as u64);
    value.append("` (Last: ");
    push_seen(&mut value, &ping_time_list(&client.pings));
    value.append("), Logins: `");
    push_decimal(&mut value, client.logins.len() as u64);
    value.append("` (Last: ");
    push_seen(&mut value, &login_time_list(&client.logins));
    value.append("), Con: ");
    value.append(client.ipinfo.as_str());
    EmbedField { name, value, inline: true }
}

/// Builds the summary messages of the database's clients.
///
/// There are `n / 25 + 1` messages for `n` clients; only the first has the
/// title `Clients`, and message `k` lists the first `25 * k + n % 25`
/// clients, the last message therefore all of them.
///
/// A Discord embed holds at most 25 fields, and the webhook crate that sends
/// these messages refuses (panics on) a 26th; with more than 25 clients, the
/// later messages exceed that.
pub fn gen_summmary_messages(database: &Database) -> (r: Vec<SummaryMessage>)
    ensures
        r@.map_values(|m: SummaryMessage| m@) == summary(database@),
{
    let n = database.data.len();
    let ghost clients = database@;
    let mut messages: Vec<SummaryMessage> = Vec::new();
    let count = n / CLIENTS_PER_MESSAGE + 1;
    for k in 0..count
        invariant
            n == database.data@.len(),
            clients == database@,
            count == n / 25 + 1,
            messages@.len() == k,
            forall|m: int| 0 <= m < k ==> #[trigger] messages@[m]@ == summary(clients)[m],
    {
        let end = CLIENTS_PER_MESSAGE * k + n % CLIENTS_PER_MESSAGE;
        assert(end <= n) by (nonlinear_arith)
            requires
                k < n / 25 + 1,
                end == 25 * k + n % 25,
        ;
        let mut embed: Vec<EmbedField> = Vec::new();
        for j in 0..end
            invariant
                end <= n,
                n == database.data@.len(),
                clients == database@,
                embed@.len() == j,
                forall|i: int| 0 <= i < j ==> #[trigger] embed@[i]@ == client_field(clients[i]),
        {
            let f = summary_field(&database.data[j]);
            embed.push(f);
        }
        let title = if k == 0 {
            Some(String::from_str("Clients"))
        } else {
            None
        };
        let message = SummaryMessage { title, fields: embed };
        assert(message@.fields =~= summary(clients)[k as int].fields);
        messages.push(message);
    }
    assert(messages@.map_values(|m: SummaryMessage| m@) =~= summary(clients));
    messages
}

/// The webhook that posts one message per connection.
#[derive(Clone, Debug)]
pub struct ConWebhook {
    pub url: String,
}

/// The message announcing a login.
pub open spec fn login_text(client: ClientRecord, login: LoginRecord) -> Seq<char> {
    "`"@ + login.username + "` joined the server\n"@ + pretty_ip_text(client.ip) + " | "@
        + client.ipinfo + "\n"@ + if client.logins.len() == 1 {
        "**First Login**"@
    } else {
        "Previous logins: `"@ + decimal(client.logins.len()) + "`"@
    }
}

/// The message announcing a ping.
pub open spec fn ping_text(client: ClientRecord, ping: PingRecord) -> Seq<char> {
    "Ping from "@ + pretty_ip_text(client.ip) + ", Con: "@ + client.ipinfo + ", Target: "@
        + ping.target
}

impl ConWebhook {
    /// A webhook posting to `url`.
    pub fn new(url: String) -> (r: ConWebhook)
        ensures
            r.url == url,
    {
        ConWebhook { url }
    }

    /// The text posted for a login: who joined, from where, and whether it is
    /// the address's first login.
    ///
    /// The text starts with a backtick and ends with `*` or a backtick, so it
    /// is already what trimming leaves of it.
    pub fn login_content(client: &Client, login: &Login) -> (r: String)
        ensures
            r@ == login_text(client@, login@),
    {
        let mut s = String::from_str("`");
        s.append(login.username.as_str());
        s.append("` joined the server\n");
        let link = pretty_ip(client.ip.as_str());
        s.append(link.as_str());
        s.append(" | ");
        s.append(client.ipinfo.as_str());
        s.append("\n");
        if client.logins.len() == 1 {
            s.append("**First Login**");
        } else {
            s.append("Previous logins: `");
            push_decimal(&mut s, client.logins.len() as u64);
            s.append("`");
        }
        s
    }

    /// The text posted for a ping: from where, and which host it asked for.
    pub fn ping_content(client: &Client, ping: &Ping) -> (r: String)
        ensures
            r@ == ping_text(client@, ping@),
    {
        let mut s = String::from_str("Ping from ");
        let link = pretty_ip(client.ip.as_str());
        s.append(link.as_str());
        s.append(", Con: ");
        s.append(client.ipinfo.as_str());
        s.append(", Target: ");
        s.append(ping.target.as_str());
        s
    }
}

/// The webhook that keeps the summary: its URL and the ids of the messages it
/// has created, message `i` holding summary message `i`.
#[derive(Clone, Debug)]
pub struct SummaryWebhook {
    pub url: String,
    pub message_ids: Vec<u64>,
}

/// Why the answer to a message creation gave no usable id.
#[derive(Debug, PartialEq, Eq, Structural)]
pub enum MessageIdError {
    /// The answer had no `id` string.
    MissingId,
    /// The `id` was no number.
    NotANumber,
}

impl SummaryWebhook {
    /// A summary webhook posting to `url` that already owns `message_ids`.
    pub fn new(url: String, message_ids: Vec<u64>) -> (r: SummaryWebhook)
        ensures
            r.url == url,
            r.message_ids == message_ids,
    {
        SummaryWebhook { url, message_ids }
    }

    /// Where new summary messages are created: the URL without trailing
    /// slashes, asking Discord to wait for the message.
    pub fn creation_url(&self) -> (r: String)
        ensures
            r@ == trim_trailing_slashes(self.url@) + "?wait=true"@,
    {
        let mut s = trim_end_slashes(self.url.as_str());
        s.append("?wait=true");
        s
    }

    /// The index of the next summary message to create when there are
    /// `count` of them: the first one without an id, if any.
    pub fn next_to_create(&self, count: usize) -> (r: Option<usize>)
        ensures
            r == (if self.message_ids@.len() < count {
                Some(self.message_ids@.len() as usize)
            } else {
                None::<usize>
            }),
    {
        if self.message_ids.len() < count {
            Some(self.message_ids.len())
        } else {
            None
        }
    }

    /// Takes the `id` of a created message from Discord's answer and keeps it.
    pub fn record_message_id(&mut self, id: Option<&str>) -> (r: Result<u64, MessageIdError>)
        ensures
            match id {
                None => r == Err::<u64, MessageIdError>(MessageIdError::MissingId)
                    && final(self).message_ids@ == old(self).message_ids@,
                Some(text) => match u64_text_value(text@) {
                    Some(v) => r == Ok::<u64, MessageIdError>(v) && final(self).message_ids@
                        == old(self).message_ids@.push(v),
                    None => r == Err::<u64, MessageIdError>(MessageIdError::NotANumber)
                        && final(self).message_ids@ == old(self).message_ids@,
                },
            },
            final(self).url == old(self).url,
    {
        match id {
            None => Err(MessageIdError::MissingId),
            Some(text) => match parse_u64(text) {
                Some(v) => {
                    self.message_ids.push(v);
                    Ok(v)
                },
                None => Err(MessageIdError::NotANumber),
            },
        }
    }

    /// Where summary message `index` is edited.
    pub fn edit_url(&self, index: usize) -> (r: String)
        requires
            index < self.message_ids@.len(),
        ensures
            r@ == self.url@ + "/messages/"@ + decimal(self.message_ids@[index as int] as nat),
    {
        let mut s = self.url.clone();
        s.append("/messages/");
        push_decimal(&mut s, self.message_ids[index]);
        s
    }
}

/// The summary's shape: `n / 25 + 1` messages, only the first titled, each
/// listing the clients of the one before and then some, the last listing all
/// clients, in order.
pub proof fn lemma_summary_shape(clients: Seq<ClientRecord>)
    ensures
        summary(clients).len() == clients.len() / 25 + 1,
        summary(clients)[0].title == Some("Clients"@),
        forall|k: int| 0 < k < summary(clients).len() ==> (#[trigger] summary(clients)[k]).title
            is None,
        forall|k: int|
            0 <= k < summary(clients).len() - 1 ==> (#[trigger] summary(clients)[k]).fields
                == summary(clients)[k + 1].fields.subrange(0, summary(clients)[k].fields.len() as int),
        summary(clients).last().fields == clients.map_values(|c: ClientRecord| client_field(c)),
{
    let n = clients.len();
    let s = summary(clients);
    let last = (n / 25) as int;
    assert(message_field_count(n, last as nat) == n) by (nonlinear_arith)
        requires
            last == n / 25,
    {
    }
    assert(s.last().fields =~= clients.map_values(|c: ClientRecord| client_field(c)));
    assert forall|k: int| 0 <= k < s.len() - 1 implies (#[trigger] s[k]).fields
        == s[k + 1].fields.subrange(0, s[k].fields.len() as int) by {
        assert(s[k].fields =~= s[k + 1].fields.subrange(0, s[k].fields.len() as int));
    }
}

/// The earliest time is one of the times, no time is before it, and no time
/// before it in the list is as early (for well-formed times).
pub proof fn lemma_earliest_is_first_minimum(times: Seq<Timestamp>)
    requires
        times.len() > 0,
        forall|j: int| 0 <= j < times.len() ==> well_formed_time(#[trigger] times[j]),
    ensures
        exists|k: int|
            0 <= k < times.len() && earliest(times) == times[k] && (forall|j: int|
                0 <= j < k ==> instant(#[trigger] times[j]) > instant(times[k])),
        forall|j: int|
            0 <= j < times.len() ==> instant(earliest(times)) <= instant(#[trigger] times[j]),
    decreases times.len(),
{
    if times.len() == 1 {
        assert(earliest(times) == times[0]);
    } else {
        let rest = times.drop_last();
        lemma_earliest_is_first_minimum(rest);
        let a = earliest(rest);
        let b = times.last();
        let k0 = choose|k: int|
            0 <= k < rest.len() && earliest(rest) == rest[k] && (forall|j: int|
                0 <= j < k ==> instant(#[trigger] rest[j]) > instant(rest[k]));
        assert(well_formed_time(rest[k0]));
        assert(well_formed_time(b));
        lemma_later_is_chronological(a, b);
        if is_later(a, b) {
            assert(earliest(times) == b);
            assert forall|j: int| 0 <= j < times.len() - 1 implies instant(#[trigger] times[j])
                > instant(times[times.len() - 1]) by {
                assert(times[j] == rest[j]);
            }
        } else {
            assert(earliest(times) == a);
            assert(times[k0] == rest[k0]);
            assert forall|j: int| 0 <= j < k0 implies instant(#[trigger] times[j]) > instant(
                times[k0],
            ) by {
                assert(times[j] == rest[j]);
            }
        }
        assert forall|j: int| 0 <= j < times.len() implies instant(earliest(times)) <= instant(
            #[trigger] times[j],
        ) by {
            if j < times.len() - 1 {
                assert(times[j] == rest[j]);
            }
        }
    }
}

/// The ping times are the times of all pings, in order; so a client's pings
/// show `N/A` exactly when it has none.
pub proof fn lemma_ping_times_are_all_pings(pings: Seq<PingRecord>)
    ensures
        ping_times(pings).len() == pings.len(),
        forall|k: int| 0 <= k < pings.len() ==> (#[trigger] ping_times(pings)[k]) == pings[k].time,
        ping_times(pings).len() == 0 <==> pings.len() == 0,
        pings.len() == 0 ==> seen_text(ping_times(pings)) == "N/A"@,
{
}

/// The login times are the times of all logins, in order.
pub proof fn lemma_login_times_are_all_logins(logins: Seq<LoginRecord>)
    ensures
        login_times(logins).len() == logins.len(),
        forall|k: int|
            0 <= k < logins.len() ==> (#[trigger] login_times(logins)[k]) == logins[k].time,
        logins.len() == 0 ==> seen_text(login_times(logins)) == "N/A"@,
{
}

/// A client with pings shows, as its pings' time, the whole seconds of the
/// first of its earliest pings.
pub proof fn lemma_seen_pings_is_earliest(pings: Seq<PingRecord>)
    requires
        pings.len() > 0,
        forall|j: int| 0 <= j < pings.len() ==> well_formed_time(#[trigger] pings[j].time),
    ensures
        exists|k: int|
            0 <= k < pings.len() && seen_text(ping_times(pings)) == "<t:"@ + signed_decimal(
                pings[k].time.seconds as int,
            ) + ":R>"@ && (forall|j: int|
                0 <= j < pings.len() ==> instant(pings[k].time) <= instant(#[trigger] pings[j].time))
                && (forall|j: int|
                0 <= j < k ==> instant(#[trigger] pings[j].time) > instant(pings[k].time)),
{
    let times = ping_times(pings);
    assert forall|j: int| 0 <= j < times.len() implies well_formed_time(#[trigger] times[j]) by {
        assert(times[j] == pings[j].time);
    }
    lemma_earliest_is_first_minimum(times);
    let k = choose|k: int|
        0 <= k < times.len() && earliest(times) == times[k] && (forall|j: int|
            0 <= j < k ==> instant(#[trigger] times[j]) > instant(times[k]));
    assert(times[k] == pings[k].time);
    assert forall|j: int| 0 <= j < pings.len() implies instant(pings[k].time) <= instant(
        #[trigger] pings[j].time,
    ) by {
        assert(times[j] == pings[j].time);
    }
    assert forall|j: int| 0 <= j < k implies instant(#[trigger] pings[j].time) > instant(
        pings[k].time,
    ) by {
        assert(times[j] == pings[j].time);
    }
}

/// The login report does not depend on the client's pings: two clients that
/// differ only in their pings get the same report.
pub proof fn lemma_login_text_ignores_pings(
    client: ClientRecord,
    other_pings: Seq<PingRecord>,
    login: LoginRecord,
)
    ensures
        login_text(client, login) == login_text(
            ClientRecord { pings: other_pings, ..client },
            login,
        ),
{
}

/// The login report names the player, links the address, gives its
/// description, and ends with `**First Login**` exactly when the address has
/// one login, else with the number of its logins.
pub proof fn lemma_login_text_shape(client: ClientRecord, login: LoginRecord)
    ensures
        ({
            let head = "`"@ + login.username + "` joined the server\n"@ + pretty_ip_text(client.ip)
                + " | "@ + client.ipinfo + "\n"@;
            &&& client.logins.len() == 1 ==> login_text(client, login) == head
                + "**First Login**"@
            &&& client.logins.len() != 1 ==> login_text(client, login) == head
                + "Previous logins: `"@ + decimal(client.logins.len()) + "`"@
        }),
{
}

} // verus!
