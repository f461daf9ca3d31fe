use mc_honeypot::config::{Cli, Config};
use mc_honeypot::logger::Logger;
use mc_honeypot::database::{Client, Database, Login, Ping, Timestamp};
use mc_honeypot::logger::{connect_action, ConnectAction};
use mc_honeypot::packet::{ConnectionIntent, HandshakePacket, LoginPacket, PossiblePacket};
use mc_honeypot::text::{before_colon, parse_u64, push_decimal, push_signed_decimal, trim_end_slashes};
use mc_honeypot::webhook::{
    gen_summmary_messages, pretty_ip, summary_field, ConWebhook, MessageIdError, SummaryWebhook,
};

fn t(seconds: i64) -> Timestamp {
    Timestamp { seconds, nanos: 0 }
}

fn client(ip: &str) -> Client {
    Client { logins: vec![], pings: vec![], ip: ip.to_string(), ipinfo: "info".to_string() }
}

#[test]
fn pretty_ip_links_to_lookup() {
    assert_eq!(pretty_ip("1.2.3.4"), "[`1.2.3.4`](https://ipinfo.io/1.2.3.4)");
}

#[test]
fn con_webhook_keeps_url() {
    assert_eq!(ConWebhook::new("https://hook".to_string()).url, "https://hook");
}

#[test]
fn login_message_text() {
    let mut c = client("1.2.3.4");
    let login = Login { username: "Steve".to_string(), uuid: None, time: t(0) };
    c.logins.push(login.copy());
    assert_eq!(
        ConWebhook::login_content(&c, &login),
        "`Steve` joined the server\n[`1.2.3.4`](https://ipinfo.io/1.2.3.4) | info\n**First Login**"
    );
    c.logins.push(login.copy());
    assert_eq!(
        ConWebhook::login_content(&c, &login),
        "`Steve` joined the server\n[`1.2.3.4`](https://ipinfo.io/1.2.3.4) | info\nPrevious logins: `2`"
    );
}

#[test]
fn ping_message_text() {
    let c = client("1.2.3.4");
    let p = Ping { time: t(0), target: "mc.example".to_string() };
    assert_eq!(
        ConWebhook::ping_content(&c, &p),
        "Ping from [`1.2.3.4`](https://ipinfo.io/1.2.3.4), Con: info, Target: mc.example"
    );
}

#[test]
fn summary_field_uses_earliest_times() {
    let mut c = client("5.5.5.5");
    c.pings.push(Ping { time: Timestamp { seconds: 300, nanos: 5 }, target: String::new() });
    c.pings.push(Ping { time: Timestamp { seconds: 100, nanos: 9 }, target: String::new() });
    c.pings.push(Ping { time: Timestamp { seconds: 100, nanos: 1 }, target: String::new() });
    let f = summary_field(&c);
    assert_eq!(f.name, "`5.5.5.5`");
    assert_eq!(f.value, "Pings: `3` (Last: <t:100:R>), Logins: `0` (Last: N/A), Con: info");
    assert!(f.inline);
}

#[test]
fn summary_field_negative_time() {
    let mut c = client("a");
    c.logins.push(Login { username: "x".to_string(), uuid: None, time: t(-42) });
    assert_eq!(summary_field(&c).value, "Pings: `0` (Last: N/A), Logins: `1` (Last: <t:-42:R>), Con: info");
}

fn db_with(n: usize) -> Database {
    Database::new("p".to_string(), (0..n).map(|i| client(&format!("10.0.0.{}", i))).collect())
}

#[test]
fn summary_of_empty_database() {
    let m = gen_summmary_messages(&db_with(0));
    assert_eq!(m.len(), 1);
    assert_eq!(m[0].title.as_deref(), Some("Clients"));
    assert!(m[0].fields.is_empty());
}

#[test]
fn summary_messages_grow() {
    let m = gen_summmary_messages(&db_with(30));
    assert_eq!(m.len(), 2);
    assert_eq!(m[0].title.as_deref(), Some("Clients"));
    assert_eq!(m[1].title, None);
    assert_eq!(m[0].fields.len(), 5);
    assert_eq!(m[1].fields.len(), 30);
    assert_eq!(m[1].fields[29].name, "`10.0.0.29`");
    let m = gen_summmary_messages(&db_with(25));
    assert_eq!(m.len(), 2);
    assert_eq!(m[0].fields.len(), 0);
    assert_eq!(m[1].fields.len(), 25);
    let m = gen_summmary_messages(&db_with(7));
    assert_eq!(m.len(), 1);
    assert_eq!(m[0].fields.len(), 7);
}

#[test]
fn summary_webhook_ids() {
    let mut hook = SummaryWebhook::new("https://discord/api/webhooks/1/abc//".to_string(), vec![]);
    assert_eq!(hook.creation_url(), "https://discord/api/webhooks/1/abc?wait=true");
    assert_eq!(hook.next_to_create(2), Some(0));
    assert_eq!(hook.record_message_id(Some("1234567890123")), Ok(1234567890123));
    assert_eq!(hook.next_to_create(2), Some(1));
    assert_eq!(hook.record_message_id(None), Err(MessageIdError::MissingId));
    assert_eq!(hook.record_message_id(Some("12a")), Err(MessageIdError::NotANumber));
    assert_eq!(hook.record_message_id(Some("+5")), Ok(5));
    assert_eq!(hook.next_to_create(2), None);
    assert_eq!(hook.message_ids, vec![1234567890123, 5]);
    assert_eq!(hook.edit_url(0), "https://discord/api/webhooks/1/abc///messages/1234567890123");
}

#[test]
fn decimal_text() {
    let mut s = String::from("n=");
    push_decimal(&mut s, 0);
    push_decimal(&mut s, 18446744073709551615);
    assert_eq!(s, "n=018446744073709551615");
    let mut s = String::new();
    push_signed_decimal(&mut s, i64::MIN);
    assert_eq!(s, "-9223372036854775808");
}

#[test]
fn parse_u64_like_std() {
    for text in ["0", "42", "+42", "007", "18446744073709551615", "18446744073709551616", "", "+", "-1", " 1", "1 ", "++1", "12a"] {
        assert_eq!(parse_u64(text), text.parse::<u64>().ok(), "{:?}", text);
    }
}

#[test]
fn trims_and_splits() {
    assert_eq!(trim_end_slashes("a/b//"), "a/b");
    assert_eq!(trim_end_slashes("///"), "");
    assert_eq!(trim_end_slashes("é/"), "é");
    assert_eq!(before_colon("127.0.0.1:5555"), "127.0.0.1");
    assert_eq!(before_colon("nohost"), "nohost");
    assert_eq!(before_colon(":1"), "");
}

#[test]
fn actions_for_packets() {
    let hello = PossiblePacket::LoginStart { packet: LoginPacket::Hello { username: "Steve".to_string() } };
    assert_eq!(connect_action(hello), ConnectAction::Login { username: "Steve".to_string() });
    assert_eq!(connect_action(PossiblePacket::LoginStart { packet: LoginPacket::Key }), ConnectAction::Ignore);
    assert_eq!(connect_action(PossiblePacket::LoginStart { packet: LoginPacket::CustomQuery }), ConnectAction::Ignore);
    let h = HandshakePacket { protocol_version: 758, hostname: "localhost".to_string(), port: 25565, intention: ConnectionIntent::Login };
    assert_eq!(connect_action(PossiblePacket::Status { packet: h }), ConnectAction::Ping { target: "localhost".to_string() });
}

#[test]
fn cli_keeps_path() {
    assert_eq!(Cli::new("config.toml".to_string()).config, "config.toml");
}

#[test]
fn logger_syncs_message_ids() {
    let config = Config {
        webhook_url: "w".to_string(),
        summary_webhook_url: "s".to_string(),
        summary_message_id: None,
        summary_message_ids: vec![1],
        bind: "0.0.0.0:25565".to_string(),
        server: "127.0.0.1:25566".to_string(),
        database: "db.json".to_string(),
        ipinfo_token: "SECRET".to_string(),
    };
    let mut logger = Logger::new(
        Database::default(),
        config,
        "config.toml".to_string(),
        SummaryWebhook::new("s".to_string(), vec![4, 5]),
        ConWebhook::new("w".to_string()),
    );
    logger.sync_message_ids();
    assert_eq!(logger.config.summary_message_ids, vec![4, 5]);
    assert_eq!(logger.config.bind, "0.0.0.0:25565");
}

#[test]
fn decimal_text_parses_back() {
    for v in [0u64, 9, 10, 99, 1234567890123, u64::MAX] {
        let mut s = String::new();
        push_decimal(&mut s, v);
        assert_eq!(parse_u64(&s), Some(v));
    }
}
