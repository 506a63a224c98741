use vstd::prelude::*;
use crate::session::MAX_DURATION_NANOS;
use crate::text::{decimal, decimal_value, push_decimal, lemma_decimal_value};

verus! {

/// What `parse_duration::parse` makes of a text: a length of time in
/// nanoseconds, or the debug text of its error. Fixed by the text alone.
pub uninterp spec fn parsed_duration(text: Seq<char>) -> Result<u128, Seq<char>>;

/// Calls `parse_duration::parse`. Trusted: the outcome is `parsed_duration` of
/// the text, with the duration in nanoseconds (at most what a `Duration` holds)
/// and an error as its debug text. The grammar of the crate is only named.
#[verifier::external_body]
fn parse_duration_text(text: &str) -> (r: Result<u128, String>)
    ensures
        match r {
            Ok(n) => parsed_duration(text@) == Ok::<u128, Seq<char>>(n) && n
                <= MAX_DURATION_NANOS,
            Err(e) => parsed_duration(text@) == Err::<u128, Seq<char>>(e@),
        },
{
    match parse_duration::parse(text) {
        Ok(d) => Ok(d.as_nanos()),
        Err(e) => Err(format!("{:?}", e)),
    }
}

/// The lengths of time that a client run uses, in nanoseconds.
#[derive(Clone, Copy, Debug, PartialEq, Eq, Structural)]
pub struct TestPlan {
    pub timeout: u128,
    pub upload: u128,
    pub download: u128,
}

/// Which setting of a client run could not be read, with the parser's error.
#[derive(Debug, PartialEq, Eq)]
pub enum PlanError {
    Timeout(String),
    UploadTime(String),
    DownloadTime(String),
}

/// A second in nanoseconds.
pub const NANOS_PER_SEC: u128 = 1_000_000_000;

impl TestPlan {
    /// An upload test runs when it lasts at least a whole second.
    pub fn runs_upload(&self) -> (r: bool)
        ensures
            r == (self.upload >= NANOS_PER_SEC),
    {
        self.upload >= NANOS_PER_SEC
    }

    /// A download test runs when it lasts at least a whole second.
    pub fn runs_download(&self) -> (r: bool)
        ensures
            r == (self.download >= NANOS_PER_SEC),
    {
        self.download >= NANOS_PER_SEC
    }
}

/// Reads the three durations of a client run, in this order: the connection
/// timeout, the upload time, the download time. The first that does not parse
/// is the error.
pub fn plan_tests(timeout: &str, upload_time: &str, download_time: &str) -> (r: Result<
    TestPlan,
    PlanError,
>)
    ensures
        match (parsed_duration(timeout@), parsed_duration(upload_time@), parsed_duration(
            download_time@,
        )) {
            (Err(e), _, _) => r matches Err(PlanError::Timeout(m)) && m@ == e,
            (Ok(_), Err(e), _) => r matches Err(PlanError::UploadTime(m)) && m@ == e,
            (Ok(_), Ok(_), Err(e)) => r matches Err(PlanError::DownloadTime(m)) && m@ == e,
            (Ok(t), Ok(u), Ok(d)) => r == Ok::<TestPlan, PlanError>(
                TestPlan { timeout: t, upload: u, download: d },
            ),
        },
{
    let t: u128 = match parse_duration_text(timeout) {
        Ok(n) => n,
        Err(e) => return Err(PlanError::Timeout(e)),
    };
    let u: u128 = match parse_duration_text(upload_time) {
        Ok(n) => n,
        Err(e) => return Err(PlanError::UploadTime(e)),
    };
    let d: u128 = match parse_duration_text(download_time) {
        Ok(n) => n,
        Err(e) => return Err(PlanError::DownloadTime(e)),
    };
    Ok(TestPlan { timeout: t, upload: u, download: d })
}

/// Where a server listens and how long its connections wait.
#[derive(Debug, PartialEq, Eq)]
pub struct ServerSettings {
    pub address: String,
    pub timeout: u128,
}

/// The address "ip:port" of a server.
pub open spec fn address_of(ip: Seq<char>, port: u16) -> Seq<char> {
    ip + seq![':'] + decimal(port as nat)
}

/// Law: the address is the ip, a ':', then decimal digits only, so that ':'
/// is the last one; reading the digits after it gives the whole port back,
/// and no two ports share an address.
pub proof fn lemma_address_port(ip: Seq<char>, port: u16, other: u16)
    ensures
        address_of(ip, port).take(ip.len() as int) == ip,
        address_of(ip, port)[ip.len() as int] == ':',
        address_of(ip, port).len() > ip.len() + 1,
        forall|i: int|
            ip.len() < i < address_of(ip, port).len() ==> '0' <= #[trigger] address_of(ip, port)[i]
                <= '9',
        decimal_value(address_of(ip, port).skip(ip.len() + 1int)) == port,
        address_of(ip, port) == address_of(ip, other) ==> port == other,
{
    let n = ip.len() as int;
    lemma_decimal_value(port as nat);
    lemma_decimal_value(other as nat);
    assert(address_of(ip, port).take(n) =~= ip);
    assert(address_of(ip, port).skip(n + 1) =~= decimal(port as nat));
    assert(address_of(ip, other).skip(n + 1) =~= decimal(other as nat));
    assert forall|i: int| n < i < address_of(ip, port).len() implies '0'
        <= #[trigger] address_of(ip, port)[i] <= '9' by {
        assert(address_of(ip, port)[i] == decimal(port as nat)[i - n - 1]);
    }
}

/// Builds the listening address from `ip` and `port` and reads the timeout;
/// a timeout that does not parse is the error, with the parser's text.
pub fn server_settings(ip: &str, port: u16, timeout: &str) -> (r: Result<ServerSettings, String>)
    ensures
        match parsed_duration(timeout@) {
            Ok(t) => r matches Ok(s) && s.address@ == address_of(ip@, port) && s.timeout == t,
            Err(e) => r matches Err(m) && m@ == e,
        },
{
    let mut address = String::from_str(ip);
    proof {
        reveal_strlit(":");
    }
    address.append(":");
    push_decimal(&mut address, port as u64);
    let timeout: u128 = parse_duration_text(timeout)?;
    Ok(ServerSettings { address, timeout })
}

} // verus!
