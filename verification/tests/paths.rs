use ssh_commander::paths::{
    get_ssh_paths, has_private_key, is_private_key_name, load_ssh_paths, private_key_path,
    public_key_path, ssh_directory, SSHPaths,
};

fn names(list: &[&str]) -> Vec<String> {
    list.iter().map(|s| s.to_string()).collect()
}

#[test]
fn default_paths_lie_below_the_profile_directory() {
    assert_eq!(
        get_ssh_paths(Some("C:\\Users\\me")),
        SSHPaths {
            config: "C:\\Users\\me/.ssh/config".to_string(),
            public_key: "C:\\Users\\me/.ssh/id_rsa.pub".to_string(),
            private_key: "C:\\Users\\me/.ssh/id_rsa".to_string(),
        }
    );
}

#[test]
fn default_paths_without_a_profile_directory() {
    assert_eq!(
        get_ssh_paths(None),
        SSHPaths {
            config: "C:\\Users\\Default/.ssh/config".to_string(),
            public_key: "C:\\Users\\Default/.ssh/id_rsa.pub".to_string(),
            private_key: "C:\\Users\\Default/.ssh/id_rsa".to_string(),
        }
    );
    assert_eq!(ssh_directory(None), "C:\\Users\\Default/.ssh");
    assert_eq!(ssh_directory(Some("/home/me")), "/home/me/.ssh");
}

#[test]
fn stored_settings_override_the_defaults_one_by_one() {
    assert_eq!(load_ssh_paths(Some("/h"), None, None, None), get_ssh_paths(Some("/h")));
    assert_eq!(
        load_ssh_paths(Some("/h"), Some("/etc/cfg".to_string()), None, Some("/k/key".to_string())),
        SSHPaths {
            config: "/etc/cfg".to_string(),
            public_key: "/h/.ssh/id_rsa.pub".to_string(),
            private_key: "/k/key".to_string(),
        }
    );
    assert_eq!(
        load_ssh_paths(None, None, Some("p.pub".to_string()), None),
        SSHPaths {
            config: "C:\\Users\\Default/.ssh/config".to_string(),
            public_key: "p.pub".to_string(),
            private_key: "C:\\Users\\Default/.ssh/id_rsa".to_string(),
        }
    );
}

#[test]
fn private_key_path_drops_the_pub_ending() {
    assert_eq!(private_key_path("/k/id_rsa.pub"), "/k/id_rsa");
    assert_eq!(private_key_path("/k/id_rsa"), "/k/id_rsa");
    assert_eq!(private_key_path("/k/id_rsa.pub.pub"), "/k/id_rsa");
    assert_eq!(private_key_path(".pub"), "");
    assert_eq!(private_key_path(""), "");
    assert_eq!(private_key_path("pub"), "pub");
    assert_eq!(private_key_path("a.pub.bak"), "a.pub.bak");
    assert_eq!(private_key_path("a.PUB"), "a.PUB");
}

#[test]
fn private_key_path_agrees_with_std() {
    for path in ["x.pub", "x", "x.pub.pub.pub", "x.pubb", ".pub.pub", "ключ.pub"].iter() {
        assert_eq!(private_key_path(path), path.trim_end_matches(".pub"));
    }
}

#[test]
fn public_key_path_adds_the_pub_ending() {
    assert_eq!(public_key_path("/k/id_rsa"), "/k/id_rsa.pub");
    assert_eq!(public_key_path(""), ".pub");
}

#[test]
fn private_keys_are_told_by_their_names() {
    assert!(is_private_key_name("id_rsa"));
    assert!(is_private_key_name("id_ed25519"));
    assert!(is_private_key_name("config.bak"));
    assert!(is_private_key_name(""));
    assert!(!is_private_key_name("id_rsa.pub"));
    assert!(!is_private_key_name("known_hosts"));
    assert!(!is_private_key_name("config"));
    assert!(!is_private_key_name("authorized_keys"));
    assert!(is_private_key_name("known_hosts.old"));
}

#[test]
fn a_directory_has_a_private_key_if_one_name_counts() {
    assert!(!has_private_key(&names(&[])));
    assert!(!has_private_key(&names(&["config", "known_hosts", "id_rsa.pub", "authorized_keys"])));
    assert!(has_private_key(&names(&["config", "id_rsa.pub", "id_rsa"])));
    assert!(has_private_key(&names(&["id_rsa"])));
}
