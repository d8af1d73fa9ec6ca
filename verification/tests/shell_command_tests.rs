use warp::shell_command::{
    force_short_polling_delay_for_command, forced_short_poll_duration, forces_short_polling,
    Duration, ShellCommandDelay,
};

#[test]
fn forces_short_polling_for_verbose_system_commands() {
    let delay = force_short_polling_delay_for_command(
        "journalctl --since yesterday | grep -i error",
        Some(ShellCommandDelay::OnCompletion),
    );

    assert_eq!(
        delay,
        Some(ShellCommandDelay::Duration(forced_short_poll_duration()))
    );
}

#[test]
fn caps_existing_delay_for_high_risk_commands() {
    let delay = force_short_polling_delay_for_command(
        "launchctl print gui/501",
        Some(ShellCommandDelay::Duration(Duration::from_secs(60))),
    );

    assert_eq!(
        delay,
        Some(ShellCommandDelay::Duration(forced_short_poll_duration()))
    );
}

#[test]
fn keeps_shorter_existing_delay_for_high_risk_commands() {
    let delay = force_short_polling_delay_for_command(
        "find /etc -name '*.plist'",
        Some(ShellCommandDelay::Duration(Duration::from_secs(1))),
    );

    assert_eq!(
        delay,
        Some(ShellCommandDelay::Duration(Duration::from_secs(1)))
    );
}

#[test]
fn leaves_normal_commands_unchanged() {
    let delay = force_short_polling_delay_for_command(
        "cargo check -p warp",
        Some(ShellCommandDelay::OnCompletion),
    );

    assert_eq!(delay, Some(ShellCommandDelay::OnCompletion));
}

#[test]
fn forced_interval_is_five_seconds() {
    assert_eq!(forced_short_poll_duration(), Duration::from_secs(5));
    assert_eq!(Duration::from_millis(5000), Duration::from_secs(5));
}

#[test]
fn missing_delay_is_forced_for_short_poll_commands() {
    assert_eq!(
        force_short_polling_delay_for_command("  journalctl -f", None),
        Some(ShellCommandDelay::Duration(Duration::from_secs(5)))
    );
    assert_eq!(force_short_polling_delay_for_command("ls", None), None);
}

#[test]
fn equal_delay_is_kept_and_longer_millis_are_capped() {
    assert_eq!(
        force_short_polling_delay_for_command(
            "find .",
            Some(ShellCommandDelay::Duration(Duration::from_secs(5)))
        ),
        Some(ShellCommandDelay::Duration(Duration::from_secs(5)))
    );
    assert_eq!(
        force_short_polling_delay_for_command(
            "find .",
            Some(ShellCommandDelay::Duration(Duration::from_millis(5001)))
        ),
        Some(ShellCommandDelay::Duration(Duration::from_secs(5)))
    );
}

#[test]
fn only_the_program_word_decides() {
    assert!(forces_short_polling("\tlaunchctl list"));
    assert!(!forces_short_polling("finder ."));
    assert!(!forces_short_polling("echo journalctl"));
    assert!(!forces_short_polling(""));
}

#[test]
fn forcing_twice_changes_nothing() {
    for (command, delay) in [
        ("journalctl -u x", Some(ShellCommandDelay::OnCompletion)),
        ("launchctl list", Some(ShellCommandDelay::Duration(Duration::from_secs(60)))),
        ("find .", Some(ShellCommandDelay::Duration(Duration::from_millis(250)))),
        ("make", None),
    ] {
        let once = force_short_polling_delay_for_command(command, delay);
        assert_eq!(force_short_polling_delay_for_command(command, once), once);
    }
}
