use mc_honeypot::database::{
    database_source, format_ipinfo, resolve_login, Client, Database, Login, LoginError, Ping,
    ProfileLookup, Timestamp,
};

fn t(seconds: i64, nanos: u32) -> Timestamp {
    Timestamp { seconds, nanos }
}

fn empty_db() -> Database {
    Database::new("db.json".to_string(), vec![])
}

#[test]
fn default_database() {
    let db = Database::default();
    assert_eq!(db.path(), "./database.json");
    assert!(db.data.is_empty());
}

#[test]
fn first_ping_creates_client() {
    let mut db = empty_db();
    let (client, ping) = db.handle_ping("1.2.3.4", "mc.example".to_string(), t(10, 0), "info".to_string());
    assert_eq!(db.data.len(), 1);
    assert_eq!(client.ip, "1.2.3.4");
    assert_eq!(client.ipinfo, "info");
    assert_eq!(client.pings.len(), 1);
    assert_eq!(client.logins.len(), 0);
    assert_eq!(ping.target, "mc.example");
    assert_eq!(ping.time, t(10, 0));
    assert_eq!(db.data[0].pings[0].target, "mc.example");
}

#[test]
fn known_client_keeps_its_description() {
    let mut db = empty_db();
    db.handle_ping("1.2.3.4", "a".to_string(), t(1, 0), "first".to_string());
    db.handle_ping("5.6.7.8", "b".to_string(), t(2, 0), "other".to_string());
    let (client, _) = db.handle_ping("1.2.3.4", "c".to_string(), t(3, 0), "ignored".to_string());
    assert_eq!(db.data.len(), 2);
    assert_eq!(client.ipinfo, "first");
    assert_eq!(client.pings.len(), 2);
    assert_eq!(client.pings[1].target, "c");
    assert_eq!(db.data[1].pings.len(), 1);
    assert_eq!(db.path(), "db.json");
}

#[test]
fn logins_are_counted_as_reconnects() {
    let mut db = empty_db();
    assert_eq!(db.reconnects("9.9.9.9"), 0);
    let (client, login) = db.handle_login("9.9.9.9", "Steve".to_string(), Some(7), t(5, 1), "x".to_string());
    assert_eq!(login.username, "Steve");
    assert_eq!(login.uuid, Some(7));
    assert_eq!(client.logins.len(), 1);
    db.handle_login("9.9.9.9", "Alex".to_string(), None, t(6, 0), "x".to_string());
    assert_eq!(db.reconnects("9.9.9.9"), 2);
    assert_eq!(db.reconnects("1.1.1.1"), 0);
    assert_eq!(db.find_client("9.9.9.9"), Some(0));
    assert_eq!(db.find_client("1.1.1.1"), None);
}

#[test]
fn first_match_is_used() {
    let c = |ip: &str, info: &str| Client { logins: vec![], pings: vec![], ip: ip.to_string(), ipinfo: info.to_string() };
    let mut db = Database::new("p".to_string(), vec![c("a", "1"), c("b", "2"), c("a", "3")]);
    assert_eq!(db.find_client("a"), Some(0));
    let (client, _) = db.handle_ping("a", "t".to_string(), t(0, 0), String::new());
    assert_eq!(client.ipinfo, "1");
    assert_eq!(db.data[2].pings.len(), 0);
}

#[test]
fn copies_are_equal() {
    let p = Ping { time: t(3, 4), target: "x".to_string() };
    let q = p.copy();
    assert_eq!(q.target, "x");
    assert_eq!(q.time, t(3, 4));
    let l = Login { username: "u".to_string(), uuid: None, time: t(1, 2) };
    assert_eq!(l.copy().username, "u");
    let c = Client { logins: vec![l], pings: vec![p], ip: "i".to_string(), ipinfo: "j".to_string() };
    let d = c.copy();
    assert_eq!(d.logins.len(), 1);
    assert_eq!(d.pings[0].target, "x");
}

#[test]
fn timestamps_order_by_seconds_then_nanos() {
    assert!(t(2, 0).later_than(&t(1, 999)));
    assert!(t(1, 5).later_than(&t(1, 4)));
    assert!(!t(1, 4).later_than(&t(1, 4)));
    assert!(!t(-1, 0).later_than(&t(0, 0)));
}

#[test]
fn cracked_accounts() {
    assert_eq!(resolve_login("Steve".to_string(), ProfileLookup::NotFound), Ok(("Steve [Cracked]".to_string(), None)));
    assert_eq!(resolve_login("Steve".to_string(), ProfileLookup::Found { id: None }), Ok(("Steve [Cracked]".to_string(), None)));
}

#[test]
fn premium_accounts() {
    let r = resolve_login(
        "Notch".to_string(),
        ProfileLookup::Found { id: Some("069a79f444e94726a5befca90e38aaf5".to_string()) },
    );
    assert_eq!(r, Ok(("Notch".to_string(), Some(0x069a79f444e94726a5befca90e38aaf5))));
    let r = resolve_login(
        "Notch".to_string(),
        ProfileLookup::Found { id: Some("069A79F4-44E9-4726-A5BE-FCA90E38AAF5".to_string()) },
    );
    assert_eq!(r, Ok(("Notch".to_string(), Some(0x069a79f444e94726a5befca90e38aaf5))));
    let r = resolve_login(
        "Notch".to_string(),
        ProfileLookup::Found { id: Some("URN:uuid:069a79f4-44e9-4726-a5be-fca90e38aaf5".to_string()) },
    );
    assert_eq!(r, Ok(("Notch".to_string(), Some(0x069a79f444e94726a5befca90e38aaf5))));
    let r = resolve_login(
        "Notch".to_string(),
        ProfileLookup::Found { id: Some("{069a79f4-44e9-4726-a5be-fca90e38aaf5}".to_string()) },
    );
    assert_eq!(r, Ok(("Notch".to_string(), Some(0x069a79f444e94726a5befca90e38aaf5))));
}

#[test]
fn invalid_account_id() {
    for bad in ["", "xyz", "069a79f444e94726a5befca90e38aaf", "069a79f444e94726a5befca90e38aaf5a", "069a79f4-44e94726-a5be-fca90e38aaf5"] {
        let r = resolve_login("Notch".to_string(), ProfileLookup::Found { id: Some(bad.to_string()) });
        assert_eq!(r, Err(LoginError::InvalidUuid), "{}", bad);
    }
}

#[test]
fn test_get_ipinfo_format() {
    let info = format_ipinfo(
        Some("M247 LTD New York Infrastructure".to_string()),
        Some("New York".to_string()),
        Some("US".to_string()),
    );
    assert_eq!(info, "Company: M247 LTD New York Infrastructure, Location: New York, US".to_string());
    assert_eq!(format_ipinfo(None, None, None), "Company: Unknown, Location: Unknown, Unknown");
}

#[test]
fn empty_database_file() {
    assert_eq!(database_source(String::new()), "[]");
    assert_eq!(database_source("[{}]".to_string()), "[{}]");
    assert_eq!(database_source(" ".to_string()), " ");
}

#[test]
fn addresses_stay_unique() {
    let mut db = empty_db();
    for (i, ip) in ["a", "b", "a", "c", "b", "a"].iter().enumerate() {
        if i % 2 == 0 {
            db.handle_ping(ip, "t".to_string(), t(i as i64, 0), String::new());
        } else {
            db.handle_login(ip, "u".to_string(), None, t(i as i64, 0), String::new());
        }
    }
    let ips: Vec<&str> = db.data.iter().map(|c| c.ip.as_str()).collect();
    assert_eq!(ips, vec!["a", "b", "c"]);
    assert_eq!(db.data[0].pings.len(), 2);
    assert_eq!(db.data[0].logins.len(), 1);
}
