//! Application settings.
//!
//! Plain configuration values. Loading them from the environment is the
//! caller's concern; this module only holds the values and builds the
//! database connection string.

use crate::domain::SubscriberEmail;
use vstd::prelude::*;
use vstd::string::StringExecFns;

verus! {

/// The decimal digit character for a value below ten.
pub open spec fn dec_digit(v: nat) -> char
    recommends
        v < 10,
{
    if v == 0 {
        '0'
    } else if v == 1 {
        '1'
    } else if v == 2 {
        '2'
    } else if v == 3 {
        '3'
    } else if v == 4 {
        '4'
    } else if v == 5 {
        '5'
    } else if v == 6 {
        '6'
    } else if v == 7 {
        '7'
    } else if v == 8 {
        '8'
    } else {
        '9'
    }
}

/// The decimal representation of `n`, without leading zeros.
pub open spec fn dec_rep(n: nat) -> Seq<char>
    decreases n,
{
    if n < 10 {
        seq![dec_digit(n)]
    } else {
        dec_rep(n / 10) + seq![dec_digit(n % 10)]
    }
}

/// A one-character string slice holding the decimal digit `d`.
fn digit_str(d: u16) -> (r: &'static str)
    requires
        d < 10,
    ensures
        r@ == seq![dec_digit(d as nat)],
{
    proof {
        reveal_strlit("0");
        reveal_strlit("1");
        reveal_strlit("2");
        reveal_strlit("3");
        reveal_strlit("4");
        reveal_strlit("5");
        reveal_strlit("6");
        reveal_strlit("7");
        reveal_strlit("8");
        reveal_strlit("9");
    }
    let r = match d {
        0 => "0",
        1 => "1",
        2 => "2",
        3 => "3",
        4 => "4",
        5 => "5",
        6 => "6",
        7 => "7",
        8 => "8",
        _ => "9",
    };
    proof {
        assert(r@ =~= seq![dec_digit(d as nat)]);
    }
    r
}

/// Appends the decimal representation of `n` to `s`.
fn push_dec(s: &mut String, n: u16)
    ensures
        final(s)@ == old(s)@ + dec_rep(n as nat),
    decreases n,
{
    if n >= 10 {
        let ghost before = s@;
        push_dec(s, n / 10);
        s.append(digit_str(n % 10));
        proof {
            assert(before + (dec_rep((n / 10) as nat) + seq![dec_digit((n % 10) as nat)]) =~= (
            before + dec_rep((n / 10) as nat)) + seq![dec_digit((n % 10) as nat)]);
        }
    } else {
        s.append(digit_str(n));
    }
}

/// Connection settings of the relational store.
#[derive(Debug)]
pub struct DatabaseSettings {
    pub username: String,
    pub password: String,
    pub host: String,
    pub port: u16,
    pub database_name: String,
}

impl DatabaseSettings {
    /// The text of the connection string these settings describe.
    pub open spec fn spec_connection_string(&self) -> Seq<char> {
        "postgres://"@ + self.username@ + ":"@ + self.password@ + "@"@ + self.host@ + ":"@
            + dec_rep(self.port as nat) + "/"@ + self.database_name@
    }

    /// The connection string for the relational store.
    pub fn connection_string(&self) -> (r: String)
        ensures
            r@ == self.spec_connection_string(),
    {
        let mut s = String::new();
        s.append("postgres://");
        s.append(self.username.as_str());
        s.append(":");
        s.append(self.password.as_str());
        s.append("@");
        s.append(self.host.as_str());
        s.append(":");
        push_dec(&mut s, self.port);
        s.append("/");
        s.append(self.database_name.as_str());
        s
    }
}

/// Settings of the outbound email collaborator.
#[derive(Debug)]
pub struct EmailSettings {
    pub sender_email: SubscriberEmail,
    pub service_url: String,
    pub api_token: String,
}

/// Application settings; loading them from the environment is the
/// caller's concern.
#[derive(Debug)]
pub struct Settings {
    pub database: DatabaseSettings,
    pub application_port: u16,
    pub email_settings: EmailSettings,
}

/// The data a client of the outbound email collaborator needs. The
/// delivery call itself does network I/O and lives with the caller.
pub struct EmailClient {
    pub sender: SubscriberEmail,
    pub url: String,
    pub token: String,
}

} // verus!
