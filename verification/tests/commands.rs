use ssh_commander::commands::{
    connection_succeeded, keygen_arguments, powershell_arguments, powershell_script,
    ssh_arguments, ssh_command_outcome, terminal_command_outcome, terminal_shell,
    verify_arguments,
};

fn args(list: &[&str]) -> Vec<String> {
    list.iter().map(|s| s.to_string()).collect()
}

#[test]
fn ssh_is_given_the_file_the_host_and_the_command() {
    assert_eq!(
        ssh_arguments("/h/.ssh/config", "web", "uname -a"),
        args(&["-F", "/h/.ssh/config", "web", "uname -a"])
    );
}

#[test]
fn the_connection_is_tried_with_a_fixed_sentence() {
    assert_eq!(
        verify_arguments("cfg", "web"),
        args(&["-F", "cfg", "web", "echo 'Connection successful'"])
    );
}

#[test]
fn the_connection_works_where_the_sentence_comes_back() {
    assert!(connection_succeeded("Connection successful\n"));
    assert!(connection_succeeded("banner\r\nConnection successful"));
    assert!(connection_succeeded("xConnection successfulx"));
    assert!(!connection_succeeded(""));
    assert!(!connection_succeeded("Connection successfu"));
    assert!(!connection_succeeded("connection successful"));
    assert!(!connection_succeeded("Connection  successful"));
    assert!(!connection_succeeded("Permission denied (publickey)."));
}

#[test]
fn a_remote_command_fails_where_it_writes_to_its_error_stream() {
    assert_eq!(
        ssh_command_outcome("out".to_string(), "".to_string()),
        Ok("out".to_string())
    );
    assert_eq!(
        ssh_command_outcome("out".to_string(), "warn".to_string()),
        Err("warn".to_string())
    );
    assert_eq!(ssh_command_outcome("".to_string(), "".to_string()), Ok("".to_string()));
}

#[test]
fn a_local_command_fails_where_it_ends_badly_with_an_error_text() {
    assert_eq!(
        terminal_command_outcome("out".to_string(), "err".to_string(), false),
        Err("err".to_string())
    );
    assert_eq!(
        terminal_command_outcome("out".to_string(), "err".to_string(), true),
        Ok("out".to_string())
    );
    assert_eq!(
        terminal_command_outcome("".to_string(), "err".to_string(), true),
        Ok("err".to_string())
    );
    assert_eq!(
        terminal_command_outcome("out".to_string(), "".to_string(), false),
        Ok("out".to_string())
    );
    assert_eq!(
        terminal_command_outcome("".to_string(), "".to_string(), false),
        Ok("".to_string())
    );
}

#[test]
fn the_shell_goes_by_the_system() {
    assert_eq!(terminal_shell(true), ("powershell.exe".to_string(), "-Command".to_string()));
    assert_eq!(terminal_shell(false), ("bash".to_string(), "-c".to_string()));
}

#[test]
fn single_quotes_are_doubled_for_powershell() {
    assert_eq!(
        powershell_script("ssh web"),
        "Start-Process powershell -ArgumentList '-NoExit', '-Command', 'ssh web' -WindowStyle Normal"
    );
    assert_eq!(
        powershell_script("echo 'a' ''"),
        "Start-Process powershell -ArgumentList '-NoExit', '-Command', 'echo ''a'' ''''' -WindowStyle Normal"
    );
    for command in ["", "'", "it's", "\"q\" 'x'"].iter() {
        assert_eq!(
            powershell_script(command),
            format!(
                "Start-Process powershell -ArgumentList '-NoExit', '-Command', '{}' -WindowStyle Normal",
                command.replace("'", "''")
            )
        );
    }
}

#[test]
fn the_window_is_opened_by_a_hidden_powershell() {
    assert_eq!(
        powershell_arguments("dir"),
        args(&[
            "-WindowStyle",
            "Hidden",
            "-Command",
            "Start-Process powershell -ArgumentList '-NoExit', '-Command', 'dir' -WindowStyle Normal",
        ])
    );
}

#[test]
fn keys_are_made_as_rsa_of_4096_bits_without_passphrase() {
    assert_eq!(
        keygen_arguments("/k/id_rsa"),
        args(&[
            "-t",
            "rsa",
            "-b",
            "4096",
            "-f",
            "/k/id_rsa",
            "-N",
            "",
            "-C",
            "generated-by-ssh-commander",
        ])
    );
}

#[test]
fn an_existing_key_is_not_overwritten() {
    assert_eq!(
        ssh_commander::commands::plan_key_generation("/k/id_rsa", true),
        Err("Ключ уже существует: /k/id_rsa".to_string())
    );
    assert_eq!(
        ssh_commander::commands::plan_key_generation("/k/id_rsa", false),
        Ok(keygen_arguments("/k/id_rsa"))
    );
}

#[test]
fn key_generation_ends_as_ssh_keygen_ends() {
    assert_eq!(
        ssh_commander::commands::key_generation_outcome("/k/id_rsa", true, "note"),
        Ok("Ключ успешно сгенерирован: /k/id_rsa".to_string())
    );
    assert_eq!(
        ssh_commander::commands::key_generation_outcome("/k/id_rsa", false, "no entropy"),
        Err("Не удалось сгенерировать ключ: no entropy".to_string())
    );
}
