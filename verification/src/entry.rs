//! The data that the library hands out: host entries, and the failures of an
//! operation on the configuration file.

use crate::text::is_trimmed;
use vstd::prelude::*;

verus! {

/// One `Host` block of the configuration file, as the parser reports it.
#[derive(Clone, Debug, PartialEq, Eq)]
pub struct SSHServer {
    pub name: String,
    pub hostname: String,
    pub user: String,
    pub identity_file: Option<String>,
}

/// What an `SSHServer` stands for: the four values as character sequences.
pub ghost struct HostEntry {
    pub name: Seq<char>,
    pub hostname: Seq<char>,
    pub user: Seq<char>,
    pub identity_file: Option<Seq<char>>,
}

impl HostEntry {
    /// The entry is complete: it has a name, a host name and a user, and
    /// no value of it is empty or begins or ends with white space.
    pub open spec fn is_complete(self) -> bool {
        &&& is_word(self.name)
        &&& is_word(self.hostname)
        &&& is_word(self.user)
        &&& self.identity_file matches Some(path) ==> is_word(path)
    }
}

/// `s` is not empty and neither begins nor ends with white space.
pub open spec fn is_word(s: Seq<char>) -> bool {
    s.len() > 0 && is_trimmed(s)
}

/// The view of an optional string.
pub open spec fn opt_view(o: Option<String>) -> Option<Seq<char>> {
    match o {
        Some(s) => Some(s@),
        None => None,
    }
}

/// The view of an optional string slice.
pub open spec fn opt_str_view(o: Option<&str>) -> Option<Seq<char>> {
    match o {
        Some(s) => Some(s@),
        None => None,
    }
}

impl View for SSHServer {
    type V = HostEntry;

    open spec fn view(&self) -> HostEntry {
        HostEntry {
            name: self.name@,
            hostname: self.hostname@,
            user: self.user@,
            identity_file: opt_view(self.identity_file),
        }
    }
}

/// The views of the entries of `v`.
pub open spec fn entry_views(v: Seq<SSHServer>) -> Seq<HostEntry> {
    Seq::new(v.len(), |i: int| v[i]@)
}

/// Why an operation on the configuration file failed.
#[derive(Clone, Debug, PartialEq, Eq)]
pub enum ConfigError {
    /// The configuration file does not exist.
    NotFound,
    /// The file system refused; the text is what the operating system said.
    IoError(String),
}

impl ConfigError {
    /// The text of the failure, as the user reads it.
    pub open spec fn message_text(self) -> Seq<char> {
        match self {
            ConfigError::NotFound => "Файл конфигурации не найден"@,
            ConfigError::IoError(text) => text@,
        }
    }

    /// The text of the failure, as the user reads it.
    pub fn message(&self) -> (text: String)
        ensures
            text@ == self.message_text(),
    {
        match self {
            ConfigError::NotFound => "Файл конфигурации не найден".to_owned(),
            ConfigError::IoError(text) => text.clone(),
        }
    }
}

} // verus!
