//! The record of everyone who pinged the honeypot or tried to log in: one
//! entry per IP address, with that address's pings and logins in the order
//! they came.

use vstd::prelude::*;

verus! {

/// A point in time: whole seconds since the Unix epoch (rounded down) and the
/// nanoseconds past them, below `1_000_000_000`.
#[derive(Clone, Copy, Debug, PartialEq, Eq, Structural)]
pub struct Timestamp {
    pub seconds: i64,
    pub nanos: u32,
}

/// Whether `a` comes after `b`.
pub open spec fn is_later(a: Timestamp, b: Timestamp) -> bool {
    a.seconds > b.seconds || (a.seconds == b.seconds && a.nanos > b.nanos)
}

impl Timestamp {
    /// Whether `self` comes after `other`.
    pub fn later_than(&self, other: &Timestamp) -> (b: bool)
        ensures
            b == is_later(*self, *other),
    {
        self.seconds > other.seconds || (self.seconds == other.seconds && self.nanos > other.nanos)
    }
}

/// A status ping: when it came and which host name the client asked for.
#[derive(Debug)]
pub struct Ping {
    pub time: Timestamp,
    pub target: String,
}

/// A login attempt: the name (marked ` [Cracked]` when it is no paid account),
/// the account's UUID when there is one, and when it came.
#[derive(Debug)]
pub struct Login {
    pub username: String,
    pub uuid: Option<u128>,
    pub time: Timestamp,
}

/// Everything known of one IP address.
#[derive(Debug)]
pub struct Client {
    pub logins: Vec<Login>,
    pub pings: Vec<Ping>,
    pub ip: String,
    pub ipinfo: String,
}

/// The database: where it is stored and its clients.
#[derive(Debug)]
pub struct Database {
    pub path: String,
    pub data: Vec<Client>,
}

/// A ping as a value.
pub struct PingRecord {
    pub time: Timestamp,
    pub target: Seq<char>,
}

/// A login as a value.
pub struct LoginRecord {
    pub username: Seq<char>,
    pub uuid: Option<u128>,
    pub time: Timestamp,
}

/// A client as a value.
pub struct ClientRecord {
    pub logins: Seq<LoginRecord>,
    pub pings: Seq<PingRecord>,
    pub ip: Seq<char>,
    pub ipinfo: Seq<char>,
}

impl View for Ping {
    type V = PingRecord;

    open spec fn view(&self) -> PingRecord {
        PingRecord { time: self.time, target: self.target@ }
    }
}

impl View for Login {
    type V = LoginRecord;

    open spec fn view(&self) -> LoginRecord {
        LoginRecord { username: self.username@, uuid: self.uuid, time: self.time }
    }
}

impl View for Client {
    type V = ClientRecord;

    open spec fn view(&self) -> ClientRecord {
        ClientRecord {
            logins: self.logins@.map_values(|l: Login| l@),
            pings: self.pings@.map_values(|p: Ping| p@),
            ip: self.ip@,
            ipinfo: self.ipinfo@,
        }
    }
}

impl View for Database {
    type V = Seq<ClientRecord>;

    open spec fn view(&self) -> Seq<ClientRecord> {
        self.data@.map_values(|c: Client| c@)
    }
}

/// The index of the first client with address `ip`, from position `i` on, or
/// `-1` when there is none.
pub open spec fn client_index_from(clients: Seq<ClientRecord>, ip: Seq<char>, i: int) -> int
    decreases clients.len() - i,
{
    if i < 0 || i >= clients.len() {
        -1
    } else if clients[i].ip == ip {
        i
    } else {
        client_index_from(clients, ip, i + 1)
    }
}

/// The index of the first client with address `ip`, or `-1`.
pub open spec fn client_index(clients: Seq<ClientRecord>, ip: Seq<char>) -> int {
    client_index_from(clients, ip, 0)
}

/// A client seen for the first time.
pub open spec fn new_client(ip: Seq<char>, ipinfo: Seq<char>) -> ClientRecord {
    ClientRecord { logins: Seq::empty(), pings: Seq::empty(), ip, ipinfo }
}

/// The clients with an entry for `ip`: unchanged when there is one, else with
/// a new entry at the end, described by `ipinfo`.
pub open spec fn with_client(clients: Seq<ClientRecord>, ip: Seq<char>, ipinfo: Seq<char>) -> Seq<
    ClientRecord,
> {
    if client_index(clients, ip) >= 0 {
        clients
    } else {
        clients.push(new_client(ip, ipinfo))
    }
}

/// Where the entry for `ip` stands in `with_client(clients, ip, _)`.
pub open spec fn entry_index(clients: Seq<ClientRecord>, ip: Seq<char>) -> int {
    if client_index(clients, ip) >= 0 {
        client_index(clients, ip)
    } else {
        clients.len() as int
    }
}

/// The clients after a ping from `ip`.
pub open spec fn after_ping(
    clients: Seq<ClientRecord>,
    ip: Seq<char>,
    ipinfo: Seq<char>,
    ping: PingRecord,
) -> Seq<ClientRecord> {
    let c = with_client(clients, ip, ipinfo);
    let i = entry_index(clients, ip);
    c.update(i, ClientRecord { pings: c[i].pings.push(ping), ..c[i] })
}

/// The clients after a login from `ip`.
pub open spec fn after_login(
    clients: Seq<ClientRecord>,
    ip: Seq<char>,
    ipinfo: Seq<char>,
    login: LoginRecord,
) -> Seq<ClientRecord> {
    let c = with_client(clients, ip, ipinfo);
    let i = entry_index(clients, ip);
    c.update(i, ClientRecord { logins: c[i].logins.push(login), ..c[i] })
}

/// No two clients share an address.
pub open spec fn ips_unique(clients: Seq<ClientRecord>) -> bool {
    forall|i: int, j: int| 0 <= i < j < clients.len() ==> clients[i].ip != clients[j].ip
}

/// The number of logins recorded for `ip`, zero for an unknown address.
pub open spec fn login_count(clients: Seq<ClientRecord>, ip: Seq<char>) -> nat {
    if client_index(clients, ip) >= 0 {
        clients[client_index(clients, ip)].logins.len()
    } else {
        0
    }
}

proof fn lemma_client_index_from(clients: Seq<ClientRecord>, ip: Seq<char>, i: int)
    requires
        0 <= i,
    ensures
        client_index_from(clients, ip, i) == -1 || (i <= client_index_from(clients, ip, i)
            < clients.len() && clients[client_index_from(clients, ip, i)].ip == ip),
        forall|j: int|
            i <= j < clients.len() && (client_index_from(clients, ip, i) == -1 || j
                < client_index_from(clients, ip, i)) ==> clients[j].ip != ip,
    decreases clients.len() - i,
{
    if i < clients.len() && clients[i].ip != ip {
        lemma_client_index_from(clients, ip, i + 1);
    }
}

/// What `client_index` means: `-1` when no client has the address, else the
/// first index where one has it.
pub proof fn lemma_client_index(clients: Seq<ClientRecord>, ip: Seq<char>)
    ensures
        client_index(clients, ip) == -1 <==> forall|j: int|
            0 <= j < clients.len() ==> clients[j].ip != ip,
        client_index(clients, ip) != -1 ==> 0 <= client_index(clients, ip) < clients.len()
            && clients[client_index(clients, ip)].ip == ip && forall|j: int|
            0 <= j < client_index(clients, ip) ==> clients[j].ip != ip,
{
    lemma_client_index_from(clients, ip, 0);
}

impl Ping {
    /// A copy of the ping.
    pub fn copy(&self) -> (r: Ping)
        ensures
            r == *self,
    {
        Ping { time: self.time, target: self.target.clone() }
    }
}

impl Login {
    /// A copy of the login.
    pub fn copy(&self) -> (r: Login)
        ensures
            r == *self,
    {
        Login { username: self.username.clone(), uuid: self.uuid, time: self.time }
    }
}

fn copy_pings(v: &Vec<Ping>) -> (r: Vec<Ping>)
    ensures
        r@ == v@,
{
    let mut r: Vec<Ping> = Vec::new();
    for i in 0..v.len()
        invariant
            r@ == v@.subrange(0, i as int),
    {
        r.push(v[i].copy());
        assert(r@ =~= v@.subrange(0, i + 1));
    }
    assert(v@.subrange(0, v@.len() as int) =~= v@);
    r
}

fn copy_logins(v: &Vec<Login>) -> (r: Vec<Login>)
    ensures
        r@ == v@,
{
    let mut r: Vec<Login> = Vec::new();
    for i in 0..v.len()
        invariant
            r@ == v@.subrange(0, i as int),
    {
        r.push(v[i].copy());
        assert(r@ =~= v@.subrange(0, i + 1));
    }
    assert(v@.subrange(0, v@.len() as int) =~= v@);
    r
}

impl Client {
    /// A copy of the client, with all its pings and logins.
    pub fn copy(&self) -> (r: Client)
        ensures
            r@ == self@,
    {
        let logins = copy_logins(&self.logins);
        let pings = copy_pings(&self.pings);
        let r = Client { logins, pings, ip: self.ip.clone(), ipinfo: self.ipinfo.clone() };
        assert(r@.logins =~= self@.logins);
        assert(r@.pings =~= self@.pings);
        r
    }
}

impl Default for Database {
    /// An empty database stored in `./database.json`.
    fn default() -> (r: Database)
        ensures
            r.path@ == "./database.json"@,
            r@ == Seq::<ClientRecord>::empty(),
    {
        let r = Database { path: String::from_str("./database.json"), data: Vec::new() };
        assert(r@ =~= Seq::<ClientRecord>::empty());
        r
    }
}

impl Database {
    /// A database stored at `path` with the given clients.
    pub fn new(path: String, data: Vec<Client>) -> (r: Database)
        ensures
            r.path == path,
            r.data == data,
    {
        Database { path, data }
    }

    /// Where the database is stored.
    pub fn path(&self) -> (r: &String)
        ensures
            r == self.path,
    {
        &self.path
    }

    /// The index of the first client with address `ip`.
    pub fn find_client(&self, ip: &str) -> (r: Option<usize>)
        ensures
            match r {
                Some(i) => i as int == client_index(self@, ip@),
                None => client_index(self@, ip@) < 0,
            },
    {
        let key = ip.to_owned();
        proof {
            lemma_client_index(self@, ip@);
        }
        let mut i: usize = 0;
        while i < self.data.len()
            invariant
                key@ == ip@,
                i <= self.data@.len(),
                forall|j: int| 0 <= j < i ==> self@[j].ip != ip@,
            decreases self.data@.len() - i,
        {
            assert(self@[i as int] == self.data@[i as int]@);
            if self.data[i].ip == key {
                assert(self@[i as int].ip == ip@);
                proof {
                    lemma_client_index(self@, ip@);
                }
                return Some(i);
            }
            i = i + 1;
        }
        assert(forall|j: int| 0 <= j < self@.len() ==> self@[j].ip != ip@);
        proof {
            lemma_client_index(self@, ip@);
        }
        None
    }

    /// How many logins came from `ip` (what the proxy calls reconnects).
    pub fn reconnects(&self, ip: &str) -> (r: usize)
        ensures
            r == login_count(self@, ip@),
    {
        proof {
            lemma_client_index(self@, ip@);
        }
        match self.find_client(ip) {
            Some(i) => {
                assert(self@.len() == self.data@.len());
                assert(i as int == client_index(self@, ip@));
                assert(self@[i as int] == self.data@[i as int]@);
                assert(self@[i as int].logins.len() == self.data@[i as int].logins@.len());
                self.data[i].logins.len()
            },
            None => 0,
        }
    }

    /// The index of the entry for `ip`, creating one described by `ipinfo`
    /// when there is none.
    fn entry(&mut self, ip: &str, ipinfo: String) -> (r: usize)
        ensures
            final(self)@ == with_client(old(self)@, ip@, ipinfo@),
            r == entry_index(old(self)@, ip@),
            r < final(self)@.len(),
            final(self).path == old(self).path,
    {
        proof {
            lemma_client_index(self@, ip@);
        }
        assert(self@.len() == self.data@.len());
        match self.find_client(ip) {
            Some(i) => i,
            None => {
                let client = Client {
                    logins: Vec::new(),
                    pings: Vec::new(),
                    ip: ip.to_owned(),
                    ipinfo,
                };
                assert(client@.logins =~= Seq::<LoginRecord>::empty());
                assert(client@.pings =~= Seq::<PingRecord>::empty());
                self.data.push(client);
                assert(self@ =~= old(self)@.push(new_client(ip@, ipinfo@)));
                self.data.len() - 1
            },
        }
    }

    /// Records a ping from `ip` asking for `target`, at `time`. A client seen
    /// for the first time gets an entry described by `ipinfo`; for a known
    /// client `ipinfo` is not used. Returns the client's entry after the ping,
    /// and the ping.
    pub fn handle_ping(&mut self, ip: &str, target: String, time: Timestamp, ipinfo: String) -> (r:
        (Client, Ping))
        ensures
            final(self)@ == after_ping(
                old(self)@,
                ip@,
                ipinfo@,
                PingRecord { time, target: target@ },
            ),
            r.0@ == final(self)@[entry_index(old(self)@, ip@)],
            r.1@ == (PingRecord { time, target: target@ }),
            final(self).path == old(self).path,
    {
        let ping = Ping { time, target };
        let copy = ping.copy();
        let i = self.entry(ip, ipinfo);
        let ghost mid = self@;
        let mut client = self.data[i].copy();
        client.pings.push(ping);
        let result = client.copy();
        self.data.set(i, client);
        proof {
            assert(result@.pings =~= mid[i as int].pings.push(copy@));
            assert(self@ =~= mid.update(i as int, result@));
        }
        (result, copy)
    }

    /// Records a login from `ip` as `username` (already resolved by
    /// `resolve_login`) with account `uuid`, at `time`. A client seen for the
    /// first time gets an entry described by `ipinfo`. Returns the client's
    /// entry after the login, and the login.
    pub fn handle_login(
        &mut self,
        ip: &str,
        username: String,
        uuid: Option<u128>,
        time: Timestamp,
        ipinfo: String,
    ) -> (r: (Client, Login))
        ensures
            final(self)@ == after_login(
                old(self)@,
                ip@,
                ipinfo@,
                LoginRecord { username: username@, uuid, time },
            ),
            r.0@ == final(self)@[entry_index(old(self)@, ip@)],
            r.1@ == (LoginRecord { username: username@, uuid, time }),
            final(self).path == old(self).path,
    {
        let login = Login { username, uuid, time };
        let copy = login.copy();
        let i = self.entry(ip, ipinfo);
        let ghost mid = self@;
        let mut client = self.data[i].copy();
        client.logins.push(login);
        let result = client.copy();
        self.data.set(i, client);
        proof {
            assert(result@.logins =~= mid[i as int].logins.push(copy@));
            assert(self@ =~= mid.update(i as int, result@));
        }
        (result, copy)
    }
}

/// The text the database is read from: an empty file stands for an empty list.
pub fn database_source(content: String) -> (r: String)
    ensures
        r@ == (if content@.len() == 0 {
            "[]"@
        } else {
            content@
        }),
{
    if content.as_str().is_empty() {
        String::from_str("[]")
    } else {
        content
    }
}

/// A ping or login from an address never seen before adds exactly one client;
/// one from a known address changes no entry but that address's.
pub proof fn lemma_ping_touches_one_client(
    clients: Seq<ClientRecord>,
    ip: Seq<char>,
    ipinfo: Seq<char>,
    ping: PingRecord,
)
    ensures
        client_index(clients, ip) >= 0 ==> after_ping(clients, ip, ipinfo, ping).len()
            == clients.len(),
        client_index(clients, ip) < 0 ==> after_ping(clients, ip, ipinfo, ping).len()
            == clients.len() + 1,
        forall|j: int|
            0 <= j < clients.len() && j != entry_index(clients, ip) ==> after_ping(
                clients,
                ip,
                ipinfo,
                ping,
            )[j] == clients[j],
        after_ping(clients, ip, ipinfo, ping)[entry_index(clients, ip)].pings.last() == ping,
        after_ping(clients, ip, ipinfo, ping)[entry_index(clients, ip)].ip == ip,
{
    lemma_client_index(clients, ip);
}

/// Recording pings and logins keeps addresses unique.
pub proof fn lemma_records_keep_ips_unique(
    clients: Seq<ClientRecord>,
    ip: Seq<char>,
    ipinfo: Seq<char>,
    ping: PingRecord,
    login: LoginRecord,
)
    requires
        ips_unique(clients),
    ensures
        ips_unique(after_ping(clients, ip, ipinfo, ping)),
        ips_unique(after_login(clients, ip, ipinfo, login)),
{
    lemma_client_index(clients, ip);
}

/// The value of a hexadecimal digit, either case.
pub open spec fn hex_digit_value(c: char) -> Option<nat> {
    if '0' <= c && c <= '9' {
        Some((c as nat - 48) as nat)
    } else if 'a' <= c && c <= 'f' {
        Some((c as nat - 87) as nat)
    } else if 'A' <= c && c <= 'F' {
        Some((c as nat - 55) as nat)
    } else {
        None
    }
}

/// Whether every character is a hexadecimal digit.
pub open spec fn all_hex(digits: Seq<char>) -> bool {
    forall|i: int| 0 <= i < digits.len() ==> (#[trigger] hex_digit_value(digits[i])) is Some
}

/// The number that hexadecimal digits spell, most significant first.
pub open spec fn hex_value(digits: Seq<char>) -> nat
    decreases digits.len(),
{
    if digits.len() == 0 {
        0
    } else {
        hex_value(digits.drop_last()) * 16 + hex_digit_value(digits.last()).unwrap()
    }
}

/// The 32 digits of a hyphenated UUID (groups of 8, 4, 4, 4 and 12).
pub open spec fn hyphenated_digits(s: Seq<char>) -> Option<Seq<char>> {
    if s.len() == 36 && s[8] == '-' && s[13] == '-' && s[18] == '-' && s[23] == '-' {
        Some(
            s.subrange(0, 8) + s.subrange(9, 13) + s.subrange(14, 18) + s.subrange(19, 23)
                + s.subrange(24, 36),
        )
    } else {
        None
    }
}

/// A character with ASCII upper case turned to lower case.
pub open spec fn ascii_lowercase(c: char) -> char {
    if 'A' <= c && c <= 'Z' {
        ((c as u32) + 32) as char
    } else {
        c
    }
}

/// Whether `s` starts with `urn:uuid:`, ASCII case ignored.
pub open spec fn has_urn_prefix(s: Seq<char>) -> bool {
    s.len() >= 9 && s.subrange(0, 9).map_values(|c: char| ascii_lowercase(c)) == seq![
        'u',
        'r',
        'n',
        ':',
        'u',
        'u',
        'i',
        'd',
        ':',
    ]
}

/// The 32 digits of a UUID written simple, hyphenated, braced or as a URN.
pub open spec fn uuid_digits(s: Seq<char>) -> Option<Seq<char>> {
    if s.len() == 32 {
        Some(s)
    } else if s.len() == 36 {
        hyphenated_digits(s)
    } else if s.len() == 38 && s[0] == '{' && s[37] == '}' {
        hyphenated_digits(s.subrange(1, 37))
    } else if s.len() == 45 && has_urn_prefix(s) {
        hyphenated_digits(s.skip(9))
    } else {
        None
    }
}

/// The 128 bits of the UUID that `s` writes, if it writes one.
pub open spec fn uuid_text_value(s: Seq<char>) -> Option<u128> {
    match uuid_digits(s) {
        Some(d) => if all_hex(d) {
            Some(hex_value(d) as u128)
        } else {
            None
        },
        None => None,
    }
}

#[verifier::external_type_specification]
#[verifier::external_body]
pub struct ExUuidError(uuid::Error);

/// Parses a UUID with `uuid::Uuid::from_str` (which is `Uuid::parse_str`) and
/// gives its bits, big-endian, as `Uuid::as_u128` does.
///
/// Claimed of it, as the uuid source shows: it accepts exactly the simple,
/// hyphenated, braced and URN forms with hexadecimal digits of either case
/// (`uuid_text_value`), and the value is those 32 digits read as one number.
#[verifier::external_body]
fn parse_uuid(text: &str) -> (r: Result<u128, uuid::Error>)
    ensures
        match r {
            Ok(v) => uuid_text_value(text@) == Some(v),
            Err(_) => uuid_text_value(text@) is None,
        },
{
    match <uuid::Uuid as std::str::FromStr>::from_str(text) {
        Ok(u) => Ok(u.as_u128()),
        Err(e) => Err(e),
    }
}

/// What the account lookup for a player name found.
#[derive(Debug)]
pub enum ProfileLookup {
    /// The lookup did not answer with status 200.
    NotFound,
    /// The lookup answered; `id` is its `id` field when that is a string.
    Found { id: Option<String> },
}

/// Why a login could not be resolved.
#[derive(Debug, PartialEq, Eq, Structural)]
pub enum LoginError {
    /// The account id in the lookup's answer is no UUID.
    InvalidUuid,
}

/// The name recorded for a player without a paid account.
pub open spec fn cracked_name(username: Seq<char>) -> Seq<char> {
    username + " [Cracked]"@
}

/// The name and account of a login, from the name the client sent and what
/// the account lookup found: an account id that is a UUID gives the name
/// unchanged and that account; no account marks the name ` [Cracked]`; an id
/// that is no UUID is an error.
pub fn resolve_login(username: String, lookup: ProfileLookup) -> (r: Result<
    (String, Option<u128>),
    LoginError,
>)
    ensures
        match lookup {
            ProfileLookup::Found { id: Some(id) } => match uuid_text_value(id@) {
                Some(v) => r matches Ok((name, uuid)) && name@ == username@ && uuid == Some(v),
                None => r == Err::<(String, Option<u128>), LoginError>(LoginError::InvalidUuid),
            },
            _ => r matches Ok((name, uuid)) && name@ == cracked_name(username@) && uuid is None,
        },
{
    match lookup {
        ProfileLookup::Found { id: Some(id) } => match parse_uuid(id.as_str()) {
            Ok(v) => Ok((username, Some(v))),
            Err(_) => Err(LoginError::InvalidUuid),
        },
        _ => {
            let mut name = username;
            name.append(" [Cracked]");
            Ok((name, None))
        },
    }
}

/// A looked-up field, or `Unknown` when the lookup had none.
pub open spec fn or_unknown(field: Option<String>) -> Seq<char> {
    match field {
        Some(s) => s@,
        None => "Unknown"@,
    }
}

/// The description of an address from its lookup: company, region and
/// country.
pub open spec fn ipinfo_text(
    company: Option<String>,
    region: Option<String>,
    country: Option<String>,
) -> Seq<char> {
    "Company: "@ + or_unknown(company) + ", Location: "@ + or_unknown(region) + ", "@
        + or_unknown(country)
}

fn append_or_unknown(s: &mut String, field: &Option<String>)
    ensures
        final(s)@ == old(s)@ + or_unknown(*field),
{
    match field {
        Some(f) => s.append(f.as_str()),
        None => s.append("Unknown"),
    }
}

/// Describes an address as `Company: .., Location: .., ..`, with `Unknown`
/// for each field the lookup did not give.
pub fn format_ipinfo(company: Option<String>, region: Option<String>, country: Option<String>) -> (r:
    String)
    ensures
        r@ == ipinfo_text(company, region, country),
{
    let mut s = String::from_str("Company: ");
    append_or_unknown(&mut s, &company);
    s.append(", Location: ");
    append_or_unknown(&mut s, &region);
    s.append(", ");
    append_or_unknown(&mut s, &country);
    s
}

/// A login from `ip` adds one to the logins counted for `ip` and leaves the
/// count of every other address as it was.
pub proof fn lemma_login_counts(
    clients: Seq<ClientRecord>,
    ip: Seq<char>,
    ipinfo: Seq<char>,
    login: LoginRecord,
    other: Seq<char>,
)
    requires
        other != ip,
    ensures
        login_count(after_login(clients, ip, ipinfo, login), ip) == login_count(clients, ip) + 1,
        login_count(after_login(clients, ip, ipinfo, login), other) == login_count(
            clients,
            other,
        ),
{
    let after = after_login(clients, ip, ipinfo, login);
    let i = entry_index(clients, ip);
    lemma_client_index(clients, ip);
    lemma_client_index(clients, other);
    lemma_client_index(after, ip);
    lemma_client_index(after, other);
    assert(after[i].ip == ip);
    assert(forall|j: int| 0 <= j < clients.len() && j != i ==> after[j] == clients[j]);
    if client_index(after, ip) != i {
        assert(client_index(after, ip) < i ==> after[client_index(after, ip)] == clients[client_index(after, ip)]);
    }
    if client_index(clients, other) >= 0 {
        let k = client_index(clients, other);
        assert(after[k] == clients[k]);
        assert(client_index(after, other) == k);
    } else {
        assert forall|j: int| 0 <= j < after.len() implies after[j].ip != other by {
            if j != i {
                assert(after[j] == clients[j]);
            }
        }
    }
}

/// A ping is no login: after it, every address has as many logins counted as
/// before.
pub proof fn lemma_ping_keeps_login_counts(
    clients: Seq<ClientRecord>,
    ip: Seq<char>,
    ipinfo: Seq<char>,
    ping: PingRecord,
    other: Seq<char>,
)
    ensures
        login_count(after_ping(clients, ip, ipinfo, ping), other) == login_count(clients, other),
{
    let after = after_ping(clients, ip, ipinfo, ping);
    let i = entry_index(clients, ip);
    lemma_client_index(clients, ip);
    lemma_client_index(clients, other);
    lemma_client_index(after, other);
    assert(after[i].ip == ip);
    assert(forall|j: int| 0 <= j < clients.len() && j != i ==> after[j] == clients[j]);
    if client_index(clients, other) >= 0 {
        let k = client_index(clients, other);
        assert(after[k].ip == clients[k].ip);
        assert(client_index(after, other) == k);
    } else if other != ip {
        assert forall|j: int| 0 <= j < after.len() implies after[j].ip != other by {
            if j != i {
                assert(after[j] == clients[j]);
            }
        }
    }
}

/// A time as a number of nanoseconds since the Unix epoch.
pub open spec fn instant(t: Timestamp) -> int {
    t.seconds * 1_000_000_000 + t.nanos
}

/// A well-formed time: fewer than a second's worth of nanoseconds.
pub open spec fn well_formed_time(t: Timestamp) -> bool {
    t.nanos < 1_000_000_000
}

/// "Later" is chronological: a time with fewer whole seconds is never later,
/// and for well-formed times one is later than another exactly when it is
/// more nanoseconds past the epoch.
pub proof fn lemma_later_is_chronological(a: Timestamp, b: Timestamp)
    ensures
        a.seconds < b.seconds ==> !is_later(a, b),
        a.seconds > b.seconds ==> is_later(a, b),
        !is_later(a, a),
        is_later(a, b) ==> !is_later(b, a),
        well_formed_time(a) && well_formed_time(b) ==> (is_later(a, b) <==> instant(a) > instant(
            b,
        )),
{
    if well_formed_time(a) && well_formed_time(b) {
        if a.seconds > b.seconds {
            assert(instant(a) - instant(b) == (a.seconds - b.seconds) * 1_000_000_000 + a.nanos
                - b.nanos);
            assert((a.seconds - b.seconds) * 1_000_000_000 >= 1_000_000_000) by (nonlinear_arith)
                requires
                    a.seconds - b.seconds >= 1,
            ;
        } else if a.seconds < b.seconds {
            assert(instant(b) - instant(a) == (b.seconds - a.seconds) * 1_000_000_000 + b.nanos
                - a.nanos);
            assert((b.seconds - a.seconds) * 1_000_000_000 >= 1_000_000_000) by (nonlinear_arith)
                requires
                    b.seconds - a.seconds >= 1,
            ;
        }
    }
}

/// A login changes nothing but the logins of the entry for its address: a
/// known address keeps its description, pings and address and gains the
/// login at the end; an unknown one gets a new last entry with the given
/// description, no pings and that one login; every other entry stays.
pub proof fn lemma_login_changes_only_logins(
    clients: Seq<ClientRecord>,
    ip: Seq<char>,
    ipinfo: Seq<char>,
    login: LoginRecord,
)
    ensures
        ({
            let after = after_login(clients, ip, ipinfo, login);
            let i = entry_index(clients, ip);
            &&& client_index(clients, ip) >= 0 ==> {
                &&& after.len() == clients.len()
                &&& 0 <= i < clients.len()
                &&& after[i].ip == clients[i].ip
                &&& after[i].ip == ip
                &&& after[i].ipinfo == clients[i].ipinfo
                &&& after[i].pings == clients[i].pings
                &&& after[i].logins.len() == clients[i].logins.len() + 1
                &&& after[i].logins.subrange(0, clients[i].logins.len() as int)
                    == clients[i].logins
                &&& after[i].logins.last() == login
            }
            &&& client_index(clients, ip) < 0 ==> {
                &&& after.len() == clients.len() + 1
                &&& i == clients.len()
                &&& after[i].ip == ip
                &&& after[i].ipinfo == ipinfo
                &&& after[i].pings.len() == 0
                &&& after[i].logins == seq![login]
            }
            &&& forall|j: int| 0 <= j < clients.len() && j != i ==> after[j] == clients[j]
        }),
{
    lemma_client_index(clients, ip);
    let after = after_login(clients, ip, ipinfo, login);
    let i = entry_index(clients, ip);
    if client_index(clients, ip) >= 0 {
        assert(after[i].logins.subrange(0, clients[i].logins.len() as int) =~= clients[i].logins);
    } else {
        assert(after[i].logins =~= seq![login]);
    }
}

/// A ping changes nothing but the pings of the entry for its address: a known
/// address keeps its description, logins and address and gains the ping at
/// the end; an unknown one gets a new last entry with the given description,
/// no logins and that one ping; every other entry stays.
pub proof fn lemma_ping_changes_only_pings(
    clients: Seq<ClientRecord>,
    ip: Seq<char>,
    ipinfo: Seq<char>,
    ping: PingRecord,
)
    ensures
        ({
            let after = after_ping(clients, ip, ipinfo, ping);
            let i = entry_index(clients, ip);
            &&& client_index(clients, ip) >= 0 ==> {
                &&& after.len() == clients.len()
                &&& 0 <= i < clients.len()
                &&& after[i].ip == ip
                &&& after[i].ipinfo == clients[i].ipinfo
                &&& after[i].logins == clients[i].logins
                &&& after[i].pings.len() == clients[i].pings.len() + 1
                &&& after[i].pings.subrange(0, clients[i].pings.len() as int) == clients[i].pings
                &&& after[i].pings.last() == ping
            }
            &&& client_index(clients, ip) < 0 ==> {
                &&& after.len() == clients.len() + 1
                &&& i == clients.len()
                &&& after[i].ip == ip
                &&& after[i].ipinfo == ipinfo
                &&& after[i].logins.len() == 0
                &&& after[i].pings == seq![ping]
            }
            &&& forall|j: int| 0 <= j < clients.len() && j != i ==> after[j] == clients[j]
        }),
{
    lemma_client_index(clients, ip);
    let after = after_ping(clients, ip, ipinfo, ping);
    let i = entry_index(clients, ip);
    if client_index(clients, ip) >= 0 {
        assert(after[i].pings.subrange(0, clients[i].pings.len() as int) =~= clients[i].pings);
    } else {
        assert(after[i].pings =~= seq![ping]);
    }
}

/// The text a lookup field is shown as.
pub open spec fn shown(field: Option<String>) -> Seq<char> {
    match field {
        Some(s) => s@,
        None => "Unknown"@,
    }
}

/// Each field of an address description is shown on its own: the company, the
/// region and the country each appear as given, or as `Unknown` when missing,
/// whatever the others are; so two descriptions with the same region and
/// country end the same way after their company.
pub proof fn lemma_ipinfo_fields_independent(
    company: Option<String>,
    region: Option<String>,
    country: Option<String>,
    other_company: Option<String>,
)
    ensures
        ipinfo_text(company, region, country) == "Company: "@ + shown(company) + (
        ", Location: "@ + shown(region) + ", "@ + shown(country)),
        ipinfo_text(other_company, region, country) == "Company: "@ + shown(other_company) + (
        ", Location: "@ + shown(region) + ", "@ + shown(country)),
        company is None ==> ipinfo_text(company, region, country) == "Company: "@ + "Unknown"@ + (
        ", Location: "@ + shown(region) + ", "@ + shown(country)),
        region matches Some(r) ==> ipinfo_text(company, region, country) == "Company: "@ + shown(
            company,
        ) + ", Location: "@ + r@ + (", "@ + shown(country)),
        country matches Some(k) ==> ipinfo_text(company, region, country) == "Company: "@ + shown(
            company,
        ) + ", Location: "@ + shown(region) + ", "@ + k@,
{
    assert(ipinfo_text(company, region, country) =~= "Company: "@ + shown(company) + (
    ", Location: "@ + shown(region) + ", "@ + shown(country)));
    assert(ipinfo_text(other_company, region, country) =~= "Company: "@ + shown(other_company) + (
    ", Location: "@ + shown(region) + ", "@ + shown(country)));
    if let Some(r) = region {
        assert(ipinfo_text(company, region, country) =~= "Company: "@ + shown(company)
            + ", Location: "@ + r@ + (", "@ + shown(country)));
    }
}

} // verus!
