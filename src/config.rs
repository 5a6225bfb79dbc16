//! Account settings and what is derived from them.
use crate::text::{string_from_chars, trim_end_char, trim_end_matching};
use crate::time::digit_char;
use vstd::prelude::*;

verus! {

/// The account: server address, whether TLS is used, login, the command
/// that prints the secret, and the local store's directory.
#[derive(Debug)]
pub struct Config {
    pub host: String,
    pub port: u16,
    pub ssl: Option<bool>,
    pub login: String,
    pub passwd_cmd: String,
    pub sync_dir: String,
}

/// Decimal digits of `n`, without leading zeros.
pub open spec fn decimal(n: nat) -> Seq<char>
    decreases n,
{
    if n < 10 {
        seq![digit_char(n)]
    } else {
        decimal(n / 10).push(digit_char(n % 10))
    }
}

/// The URL scheme: `https` with TLS, else `http`.
pub open spec fn scheme(ssl: bool) -> Seq<char> {
    if ssl {
        seq!['h', 't', 't', 'p', 's']
    } else {
        seq!['h', 't', 't', 'p']
    }
}

fn digit(d: u16) -> (c: char)
    requires
        d < 10,
    ensures
        c == digit_char(d as nat),
{
    if d == 0 { '0' }
    else if d == 1 { '1' }
    else if d == 2 { '2' }
    else if d == 3 { '3' }
    else if d == 4 { '4' }
    else if d == 5 { '5' }
    else if d == 6 { '6' }
    else if d == 7 { '7' }
    else if d == 8 { '8' }
    else { '9' }
}

fn decimal_chars(n: u16) -> (r: Vec<char>)
    ensures
        r@ == decimal(n as nat),
    decreases n,
{
    if n < 10 {
        let mut v: Vec<char> = Vec::new();
        v.push(digit(n));
        v
    } else {
        let mut v = decimal_chars(n / 10);
        v.push(digit(n % 10));
        v
    }
}

impl Config {
    /// Whether TLS is used: as configured, by default yes.
    pub open spec fn uses_ssl(&self) -> bool {
        match self.ssl {
            Some(b) => b,
            None => true,
        }
    }

    /// Whether TLS is used: as configured, by default yes.
    pub fn ssl(&self) -> (r: bool)
        ensures
            r == self.uses_ssl(),
    {
        match self.ssl {
            Some(b) => b,
            None => true,
        }
    }

    /// The secret from what the secret command printed: its text without
    /// the newlines at its end.
    pub fn passwd(output: &str) -> (r: String)
        ensures
            r@ == trim_end_char(output@, '\n'),
    {
        trim_end_matching(output, '\n')
    }

    /// The URL of `path` on the server: scheme, host, port, then the path.
    pub fn url(&self, path: &str) -> (r: String)
        ensures
            r@ == scheme(self.uses_ssl()) + seq![':', '/', '/'] + self.host@ + seq![':'] + decimal(
                self.port as nat,
            ) + path@,
    {
        let mut out = if self.ssl() {
            proof {
                reveal_strlit("https://");
            }
            String::from_str("https://")
        } else {
            proof {
                reveal_strlit("http://");
            }
            String::from_str("http://")
        };
        out.append(self.host.as_str());
        proof {
            reveal_strlit(":");
        }
        out.append(":");
        let digits = decimal_chars(self.port);
        let port = string_from_chars(digits.as_slice());
        out.append(port.as_str());
        out.append(path);
        out
    }
}

} // verus!
