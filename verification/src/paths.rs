//! Paths of the configuration file and of the key pair: the defaults below
//! the user's home directory, the settings that override them, and the names
//! that tell a private key from its public half.

use crate::entry::{opt_str_view, opt_view};
use crate::text::{chars_of, has_suffix, same_text, string_of, string_views};
use vstd::prelude::*;
use vstd::string::StringExecFns;

verus! {

/// Where the configuration file and the key pair lie.
#[derive(Clone, Debug, PartialEq, Eq)]
pub struct SSHPaths {
    pub config: String,
    pub public_key: String,
    pub private_key: String,
}

/// What an `SSHPaths` stands for: the three paths as character sequences.
pub ghost struct PathsView {
    pub config: Seq<char>,
    pub public_key: Seq<char>,
    pub private_key: Seq<char>,
}

impl View for SSHPaths {
    type V = PathsView;

    open spec fn view(&self) -> PathsView {
        PathsView {
            config: self.config@,
            public_key: self.public_key@,
            private_key: self.private_key@,
        }
    }
}

/// The home directory: the user's profile directory, or a fixed directory
/// where the environment names none.
pub open spec fn home(user_profile: Option<Seq<char>>) -> Seq<char> {
    match user_profile {
        Some(dir) => dir,
        None => "C:\\Users\\Default"@,
    }
}

/// The paths below the home directory that hold unless a setting says
/// otherwise.
pub open spec fn default_paths(user_profile: Option<Seq<char>>) -> PathsView {
    PathsView {
        config: home(user_profile) + "/.ssh/config"@,
        public_key: home(user_profile) + "/.ssh/id_rsa.pub"@,
        private_key: home(user_profile) + "/.ssh/id_rsa"@,
    }
}

/// The paths in force: each stored setting, and the default where none is
/// stored.
pub open spec fn chosen_paths(
    user_profile: Option<Seq<char>>,
    config: Option<Seq<char>>,
    public_key: Option<Seq<char>>,
    private_key: Option<Seq<char>>,
) -> PathsView {
    PathsView {
        config: match config {
            Some(path) => path,
            None => default_paths(user_profile).config,
        },
        public_key: match public_key {
            Some(path) => path,
            None => default_paths(user_profile).public_key,
        },
        private_key: match private_key {
            Some(path) => path,
            None => default_paths(user_profile).private_key,
        },
    }
}

/// `path` without `.pub` at its end, as often as it stands there.
pub open spec fn without_pub(path: Seq<char>) -> Seq<char>
    decreases path.len(),
{
    if path.len() >= 4 && path.skip(path.len() - 4) == ".pub"@ {
        without_pub(path.take(path.len() - 4))
    } else {
        path
    }
}

/// Whether a file of this name in the key directory counts as a private
/// key: it is no public key, and none of the three files that `ssh` keeps
/// there.
pub open spec fn is_private_key(name: Seq<char>) -> bool {
    &&& !".pub"@.is_suffix_of(name)
    &&& name != "known_hosts"@
    &&& name != "config"@
    &&& name != "authorized_keys"@
}

/// `home` followed by `tail`.
fn below_home(user_profile: Option<&str>, tail: &str) -> (path: String)
    ensures
        path@ == home(opt_str_view(user_profile)) + tail@,
{
    let mut path = match user_profile {
        Some(dir) => dir.to_owned(),
        None => "C:\\Users\\Default".to_owned(),
    };
    path.append(tail);
    path
}

/// The default paths, given the user's profile directory as the
/// environment names it, or `None` where it names none.
pub fn get_ssh_paths(user_profile: Option<&str>) -> (paths: SSHPaths)
    ensures
        paths@ == default_paths(opt_str_view(user_profile)),
{
    SSHPaths {
        config: below_home(user_profile, "/.ssh/config"),
        public_key: below_home(user_profile, "/.ssh/id_rsa.pub"),
        private_key: below_home(user_profile, "/.ssh/id_rsa"),
    }
}

/// The paths in force, given the user's profile directory and the three
/// settings as they are stored, each `None` where nothing is stored.
pub fn load_ssh_paths(
    user_profile: Option<&str>,
    config: Option<String>,
    public_key: Option<String>,
    private_key: Option<String>,
) -> (paths: SSHPaths)
    ensures
        paths@ == chosen_paths(
            opt_str_view(user_profile),
            opt_view(config),
            opt_view(public_key),
            opt_view(private_key),
        ),
{
    SSHPaths {
        config: match config {
            Some(path) => path,
            None => below_home(user_profile, "/.ssh/config"),
        },
        public_key: match public_key {
            Some(path) => path,
            None => below_home(user_profile, "/.ssh/id_rsa.pub"),
        },
        private_key: match private_key {
            Some(path) => path,
            None => below_home(user_profile, "/.ssh/id_rsa"),
        },
    }
}

/// The directory that holds the keys.
pub fn ssh_directory(user_profile: Option<&str>) -> (path: String)
    ensures
        path@ == home(opt_str_view(user_profile)) + "/.ssh"@,
{
    below_home(user_profile, "/.ssh")
}

/// The path of the private key that belongs to `key_path`, which may name
/// either half of the pair.
pub fn private_key_path(key_path: &str) -> (path: String)
    ensures
        path@ == without_pub(key_path@),
{
    let v = chars_of(key_path);
    let mut end: usize = v.len();
    proof {
        assert(v@.take(end as int) == v@);
        reveal_strlit(".pub");
    }
    while has_suffix(&v, end, ".pub")
        invariant
            end <= v.len(),
            ".pub"@.len() == 4,
            without_pub(v@.take(end as int)) == without_pub(v@),
        decreases end,
    {
        proof {
            let s = v@.take(end as int);
            assert(s.skip(s.len() - 4) == s.subrange(s.len() - 4, s.len() as int));
            assert(s.take(s.len() - 4) == v@.take(end - 4));
        }
        end -= 4;
    }
    proof {
        let s = v@.take(end as int);
        if s.len() >= 4 {
            assert(s.skip(s.len() - 4) == s.subrange(s.len() - 4, s.len() as int));
        }
        assert(v@.subrange(0, end as int) == s);
    }
    string_of(&v, 0, end)
}

/// The path of the public key that belongs to the private key
/// `private_key`.
pub fn public_key_path(private_key: &str) -> (path: String)
    ensures
        path@ == private_key@ + ".pub"@,
{
    let mut path = private_key.to_owned();
    path.append(".pub");
    path
}

/// Whether a file of the name `name` in the key directory counts as a
/// private key.
pub fn is_private_key_name(name: &str) -> (r: bool)
    ensures
        r == is_private_key(name@),
{
    let v = chars_of(name);
    proof {
        assert(v@.take(v.len() as int) == v@);
    }
    !has_suffix(&v, v.len(), ".pub") && !same_text(name, "known_hosts") && !same_text(
        name,
        "config",
    ) && !same_text(name, "authorized_keys")
}

/// Whether one of the files of the key directory, given by their names,
/// counts as a private key.
pub fn has_private_key(file_names: &Vec<String>) -> (r: bool)
    ensures
        r == exists|i: int|
            0 <= i < file_names.len() && is_private_key(#[trigger] string_views(file_names@)[i]),
{
    let mut i: usize = 0;
    while i < file_names.len()
        invariant
            i <= file_names.len(),
            forall|j: int| 0 <= j < i ==> !is_private_key(#[trigger] string_views(file_names@)[j]),
        decreases file_names.len() - i,
    {
        if is_private_key_name(file_names[i].as_str()) {
            proof {
                assert(is_private_key(string_views(file_names@)[i as int]));
            }
            return true;
        }
        i += 1;
    }
    false
}

} // verus!
