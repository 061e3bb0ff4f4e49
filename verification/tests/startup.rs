use op_batcher_collector::startup::{startup_action, StartupAction};

fn args(values: &[&str]) -> Vec<String> {
    values.iter().map(|value| value.to_string()).collect()
}

#[test]
fn no_arguments_runs_service() {
    assert_eq!(startup_action(&args(&[])), StartupAction::Run);
}

#[test]
fn version_arguments_print_version() {
    assert_eq!(startup_action(&args(&["-v"])), StartupAction::PrintVersion);
    assert_eq!(
        startup_action(&args(&["--version"])),
        StartupAction::PrintVersion
    );
}

#[test]
fn invalid_argument_returns_error() {
    match startup_action(&args(&["--rpc-url", "http://localhost:8545"])) {
        StartupAction::Error(message) => {
            assert!(message.contains("--rpc-url"));
            assert!(message.contains("environment variables"));
        }
        action => panic!("expected error action, got {action:?}"),
    }
}

#[test]
fn version_with_invalid_argument_returns_error() {
    assert!(matches!(
        startup_action(&args(&["--version", "--rpc-url"])),
        StartupAction::Error(_)
    ));
}

#[test]
fn the_first_unsupported_argument_is_named() {
    assert_eq!(
        startup_action(&args(&["-v", "-x", "-y"])),
        StartupAction::Error(
            "unsupported command-line argument: -x. Use environment variables to configure \
             op-batcher-collector; command-line arguments are not supported."
                .to_string()
        )
    );
}
