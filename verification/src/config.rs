//! What the process is started with.

use vstd::prelude::*;
use vstd::string::*;
use crate::numeral::{integer_of, parse_integer};
use crate::text::chars_of;

verus! {

/// The settings of a run.
#[derive(Debug)]
pub struct Config {
    pub teloxide_token: String,
    pub database_url: String,
    pub admin_chat_id: Option<i64>,
}

/// The settings as values.
pub ghost struct ConfigView {
    pub teloxide_token: Seq<char>,
    pub database_url: Seq<char>,
    pub admin_chat_id: Option<int>,
}

impl View for Config {
    type V = ConfigView;

    open spec fn view(&self) -> ConfigView {
        ConfigView {
            teloxide_token: self.teloxide_token@,
            database_url: self.database_url@,
            admin_chat_id: match self.admin_chat_id {
                Some(id) => Some(id as int),
                None => None,
            },
        }
    }
}

/// Why no settings could be made.
#[derive(Clone, Copy, Debug, PartialEq, Eq, Structural)]
pub enum ConfigError {
    /// `TELOXIDE_TOKEN` is not set.
    MissingToken,
}

/// The value of a variable, where it is set.
pub open spec fn setting(value: Option<String>) -> Option<Seq<char>> {
    match value {
        Some(s) => Some(s@),
        None => None,
    }
}

/// The settings that three variables of the environment make: the token
/// must be there, the place of the database has a default, and the chat of
/// the administrator counts only where it is a whole number.
pub open spec fn config_of(
    token: Option<Seq<char>>,
    database_url: Option<Seq<char>>,
    admin_chat_id: Option<Seq<char>>,
) -> Result<ConfigView, ConfigError> {
    match token {
        None => Err(ConfigError::MissingToken),
        Some(t) => Ok(
            ConfigView {
                teloxide_token: t,
                database_url: match database_url {
                    Some(url) => url,
                    None => "./data/nem_price.db"@,
                },
                admin_chat_id: match admin_chat_id {
                    Some(id) => integer_of(id),
                    None => None,
                },
            },
        ),
    }
}

impl Config {
    /// The settings from the values of `TELOXIDE_TOKEN`, `DATABASE_URL` and
    /// `ADMIN_CHAT_ID`, each as the environment holds it or `None` where it
    /// is not set.
    pub fn from_env(
        token: Option<String>,
        database_url: Option<String>,
        admin_chat_id: Option<String>,
    ) -> (r: Result<Config, ConfigError>)
        ensures
            match r {
                Ok(c) => config_of(setting(token), setting(database_url), setting(admin_chat_id))
                    == Ok::<ConfigView, ConfigError>(c@),
                Err(e) => config_of(setting(token), setting(database_url), setting(admin_chat_id))
                    == Err::<ConfigView, ConfigError>(e),
            },
    {
        let teloxide_token = match token {
            Some(t) => t,
            None => {
                return Err(ConfigError::MissingToken);
            },
        };
        let database_url = match database_url {
            Some(url) => url,
            None => String::from_str("./data/nem_price.db"),
        };
        let admin_chat_id = match admin_chat_id {
            Some(id) => {
                let chars = chars_of(id.as_str());
                parse_integer(chars.as_slice())
            },
            None => None,
        };
        Ok(Config { teloxide_token, database_url, admin_chat_id })
    }
}

impl Clone for Config {
    fn clone(&self) -> (r: Self)
        ensures
            r@ == self@,
    {
        Config {
            teloxide_token: self.teloxide_token.clone(),
            database_url: self.database_url.clone(),
            admin_chat_id: self.admin_chat_id,
        }
    }
}

} // verus!
