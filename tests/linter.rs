use cargo_scout::linter::{Clippy, RustFmt};

#[test]
fn clippy_test_set_verbose() {
    let mut linter = Clippy::default();
    assert_eq!(false, linter.verbose);

    let l2 = linter.set_verbose(true);
    assert_eq!(true, l2.verbose);

    let l3 = l2.set_verbose(false);
    assert_eq!(false, l3.verbose);
}
#[test]
fn clippy_test_get_envs() {
    let mut linter = Clippy::default();
    let mut expected_envs = vec![];
    assert_eq!(expected_envs, linter.envs());

    let verbose_linter = linter.set_verbose(true);
    expected_envs.push(("RUST_BACKTRACE", "full"));
    assert_eq!(expected_envs, verbose_linter.envs());
}
#[test]
fn clippy_test_get_command_parameters() {
    let mut linter = Clippy::default();
    let expected_command_parameters = vec![
        "clippy",
        "--message-format",
        "json",
        "--",
        "-W",
        "clippy::all",
        "-W",
        "clippy::pedantic",
    ];

    assert_eq!(expected_command_parameters, linter.command_parameters());

    let verbose_linter = linter.set_verbose(true);
    let verbose_expected_command_parameters = vec![
        "clippy",
        "--message-format",
        "json",
        "--verbose",
        "--",
        "-W",
        "clippy::all",
        "-W",
        "clippy::pedantic",
    ];
    assert_eq!(
        verbose_expected_command_parameters,
        verbose_linter.command_parameters()
    );

    let no_default_features_linter = linter.set_verbose(false).set_no_default_features(true);
    let no_default_features_expected_command_parameters = vec![
        "clippy",
        "--message-format",
        "json",
        "--no-default-features",
        "--",
        "-W",
        "clippy::all",
        "-W",
        "clippy::pedantic",
    ];
    assert_eq!(
        no_default_features_expected_command_parameters,
        no_default_features_linter.command_parameters()
    );

    let all_features_linter = linter
        .set_verbose(false)
        .set_no_default_features(false)
        .set_all_features(true);
    let all_features_expected_command_parameters = vec![
        "clippy",
        "--message-format",
        "json",
        "--all-features",
        "--",
        "-W",
        "clippy::all",
        "-W",
        "clippy::pedantic",
    ];
    assert_eq!(
        all_features_expected_command_parameters,
        all_features_linter.command_parameters()
    );

    let features_linter = linter
        .set_all_features(false)
        .set_features(Some(String::from("foo bar baz")));
    let features_expected_command_parameters = vec![
        "clippy",
        "--message-format",
        "json",
        "--features",
        "foo bar baz",
        "--",
        "-W",
        "clippy::all",
        "-W",
        "clippy::pedantic",
    ];
    assert_eq!(
        features_expected_command_parameters,
        features_linter.command_parameters()
    );

    let mut nightly_linter = Clippy::default();
    let nightly_linter = nightly_linter.set_preview(true);
    let expected_command_parameters = vec![
        "+nightly",
        "clippy-preview",
        "-Z",
        "unstable-options",
        "--message-format",
        "json",
        "--",
        "-W",
        "clippy::all",
        "-W",
        "clippy::pedantic",
    ];
    assert_eq!(
        expected_command_parameters,
        nightly_linter.command_parameters()
    );

    let nightly_verbose_linter = nightly_linter.set_verbose(true);
    let verbose_expected_command_nightly_parameters = vec![
        "+nightly",
        "clippy-preview",
        "-Z",
        "unstable-options",
        "--message-format",
        "json",
        "--verbose",
        "--",
        "-W",
        "clippy::all",
        "-W",
        "clippy::pedantic",
    ];
    assert_eq!(
        verbose_expected_command_nightly_parameters,
        nightly_verbose_linter.command_parameters()
    );

    let nightly_all_features_linter = nightly_linter.set_verbose(false).set_all_features(true);
    let all_features_expected_command_nightly_parameters = vec![
        "+nightly",
        "clippy-preview",
        "-Z",
        "unstable-options",
        "--message-format",
        "json",
        "--all-features",
        "--",
        "-W",
        "clippy::all",
        "-W",
        "clippy::pedantic",
    ];
    assert_eq!(
        all_features_expected_command_nightly_parameters,
        nightly_all_features_linter.command_parameters()
    );

    let nightly_no_default_features_linter = nightly_linter
        .set_verbose(false)
        .set_all_features(false)
        .set_no_default_features(true);
    let no_default_features_expected_command_nightly_parameters = vec![
        "+nightly",
        "clippy-preview",
        "-Z",
        "unstable-options",
        "--message-format",
        "json",
        "--no-default-features",
        "--",
        "-W",
        "clippy::all",
        "-W",
        "clippy::pedantic",
    ];
    assert_eq!(
        no_default_features_expected_command_nightly_parameters,
        nightly_no_default_features_linter.command_parameters()
    );

    let nightly_features_linter = nightly_linter
        .set_no_default_features(false)
        .set_features(Some(String::from("foo bar baz")));
    let features_expected_command_nightly_parameters = vec![
        "+nightly",
        "clippy-preview",
        "-Z",
        "unstable-options",
        "--message-format",
        "json",
        "--features",
        "foo bar baz",
        "--",
        "-W",
        "clippy::all",
        "-W",
        "clippy::pedantic",
    ];
    assert_eq!(
        features_expected_command_nightly_parameters,
        nightly_features_linter.command_parameters()
    );
}
#[test]
fn rustfmt_reports_in_json() {
    let _ = RustFmt::default();
    assert_eq!(vec!["+nightly", "fmt", "--", "--emit", "json"], RustFmt::command_parameters());
}

#[test]
fn preview_with_every_option() {
    let mut linter = Clippy::default();
    let all = linter
        .set_preview(true)
        .set_verbose(true)
        .set_no_default_features(true)
        .set_all_features(true)
        .set_features(Some(String::from("a")));
    assert_eq!(
        vec![
            "+nightly",
            "clippy-preview",
            "-Z",
            "unstable-options",
            "--message-format",
            "json",
            "--verbose",
            "--no-default-features",
            "--all-features",
            "--features",
            "a",
            "--",
            "-W",
            "clippy::all",
            "-W",
            "clippy::pedantic",
        ],
        all.command_parameters()
    );
}
