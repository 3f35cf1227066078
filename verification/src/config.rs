//! Settings of the program, from the values of its environment variables.

use crate::number::Real;
use crate::parse::parsed_real;
use crate::position::text_of;
use crate::text::same_text;
use vstd::prelude::*;
use vstd::string::*;

verus! {

/// Account balance where none is set, or the one that is set is no number.
pub const DEFAULT_BALANCE: u64 = 10_000;

/// The environment variables that the settings are read from, each where it is set.
pub struct Environment {
    /// `OKX_API_KEY`
    pub api_key: Option<String>,
    /// `OKX_SECRET_KEY`
    pub secret_key: Option<String>,
    /// `OKX_PASSPHRASE`
    pub passphrase: Option<String>,
    /// `AUGUR_TRADING_ENABLED`
    pub trading_enabled: Option<String>,
    /// `AUGUR_ACCOUNT_BALANCE`
    pub account_balance: Option<String>,
    /// `AUGUR_PERSISTENCE_ENABLED`
    pub persistence_enabled: Option<String>,
    /// `AUGUR_PERSISTENCE_PATH`
    pub persistence_path: Option<String>,
}

/// The settings.
#[derive(Debug)]
pub struct Config {
    pub api_key: String,
    pub secret_key: String,
    pub passphrase: String,
    /// Whether orders go to the simulated market.
    pub is_paper_trading: bool,
    /// Whether orders are sent at all.
    pub trading_enabled: bool,
    pub account_balance: Real,
    /// Whether trades and order books are recorded. Independent of trading: a dry run records
    /// too.
    pub persistence_enabled: bool,
    /// Directory of the recorded files.
    pub persistence_path: String,
}

/// The contents of the settings.
pub struct ConfigView {
    pub api_key: Seq<char>,
    pub secret_key: Seq<char>,
    pub passphrase: Seq<char>,
    pub is_paper_trading: bool,
    pub trading_enabled: bool,
    pub account_balance: Real,
    pub persistence_enabled: bool,
    pub persistence_path: Seq<char>,
}

impl View for Config {
    type V = ConfigView;

    open spec fn view(&self) -> ConfigView {
        ConfigView {
            api_key: self.api_key@,
            secret_key: self.secret_key@,
            passphrase: self.passphrase@,
            is_paper_trading: self.is_paper_trading,
            trading_enabled: self.trading_enabled,
            account_balance: self.account_balance,
            persistence_enabled: self.persistence_enabled,
            persistence_path: self.persistence_path@,
        }
    }
}

/// Whether a switch is on, where `usual` tells of one that is not set.
pub open spec fn switched_on(value: Option<Seq<char>>, usual: bool) -> bool {
    match value {
        Some(s) => s == "1"@,
        None => usual,
    }
}

/// The account balance that a variable sets.
pub open spec fn balance_of(value: Option<Seq<char>>) -> Real {
    match value {
        Some(s) => match parsed_real(s) {
            Some(x) => x,
            None => Real::from_u64(DEFAULT_BALANCE),
        },
        None => Real::from_u64(DEFAULT_BALANCE),
    }
}

/// The settings that an environment gives, or what it lacks.
pub open spec fn loaded(env: Environment) -> Result<ConfigView, Seq<char>> {
    match (text_of(env.api_key), text_of(env.secret_key), text_of(env.passphrase)) {
        (None, _, _) => Err("Missing OKX_API_KEY"@),
        (Some(_), None, _) => Err("Missing OKX_SECRET_KEY"@),
        (Some(_), Some(_), None) => Err("Missing OKX_PASSPHRASE"@),
        (Some(api_key), Some(secret_key), Some(passphrase)) => Ok(
            ConfigView {
                api_key,
                secret_key,
                passphrase,
                is_paper_trading: true,
                trading_enabled: switched_on(text_of(env.trading_enabled), false),
                account_balance: balance_of(text_of(env.account_balance)),
                persistence_enabled: switched_on(text_of(env.persistence_enabled), true),
                persistence_path: match text_of(env.persistence_path) {
                    Some(path) => path,
                    None => "/mnt/usb_ssd/augur_data"@,
                },
            },
        ),
    }
}

/// Whether a switch is on, where `usual` tells of one that is not set.
fn switch(value: &Option<String>, usual: bool) -> (r: bool)
    ensures
        r == switched_on(text_of(*value), usual),
{
    match value {
        Some(s) => same_text(s.as_str(), "1"),
        None => usual,
    }
}

/// The account balance that a variable sets.
fn balance(value: &Option<String>) -> (r: Real)
    ensures
        r == balance_of(text_of(*value)),
{
    match value {
        Some(s) => match Real::parse(s.as_str()) {
            Some(x) => x,
            None => Real::from_u64(DEFAULT_BALANCE),
        },
        None => Real::from_u64(DEFAULT_BALANCE),
    }
}

impl Config {
    /// The settings that an environment gives. Fails without a key, its secret or its
    /// passphrase, and names the first that is missing.
    pub fn load(env: Environment) -> (r: Result<Config, String>)
        ensures
            match r {
                Ok(c) => loaded(env) == Ok::<ConfigView, Seq<char>>(c@),
                Err(e) => loaded(env) == Err::<ConfigView, Seq<char>>(e@),
            },
    {
        let trading_enabled = switch(&env.trading_enabled, false);
        let account_balance = balance(&env.account_balance);
        let persistence_enabled = switch(&env.persistence_enabled, true);
        let api_key = match env.api_key {
            Some(s) => s,
            None => {
                return Err("Missing OKX_API_KEY".to_owned());
            },
        };
        let secret_key = match env.secret_key {
            Some(s) => s,
            None => {
                return Err("Missing OKX_SECRET_KEY".to_owned());
            },
        };
        let passphrase = match env.passphrase {
            Some(s) => s,
            None => {
                return Err("Missing OKX_PASSPHRASE".to_owned());
            },
        };
        let persistence_path = match env.persistence_path {
            Some(s) => s,
            None => "/mnt/usb_ssd/augur_data".to_owned(),
        };
        Ok(
            Config {
                api_key,
                secret_key,
                passphrase,
                is_paper_trading: true,
                trading_enabled,
                account_balance,
                persistence_enabled,
                persistence_path,
            },
        )
    }
}

/// No order is sent unless trading was switched on, and then only to the simulated market.
pub proof fn law_trading_is_opt_in(env: Environment)
    ensures
        loaded(env) matches Ok(c) ==> c.is_paper_trading && (c.trading_enabled ==> text_of(
            env.trading_enabled,
        ) == Some("1"@)),
{
}

} // verus!
