use survival_realms::launch::{parse_arguments, LaunchArguments, LaunchError, LaunchMode};

fn arguments(values: &[&str]) -> Vec<String> {
    values.iter().map(|value| value.to_string()).collect()
}

#[test]
fn parses_launcher_game_directory_and_metadata_mode() {
    let parsed = parse_arguments(&arguments(&[
        "--game-dir",
        "/tmp/survival-realms-launch-options",
        "--version-json",
        "--metadata-output",
        "/tmp/survival-realms-launch-options/metadata.json",
    ]))
    .unwrap()
    .validate()
    .unwrap();

    assert_eq!(parsed.mode, LaunchMode::VersionJson);
    assert_eq!(parsed.game_dir, Some(1));
    assert_eq!(parsed.metadata_output, Some(4));
}

#[test]
fn malformed_arguments_are_rejected() {
    assert_eq!(
        parse_arguments(&arguments(&["--game-dir"])),
        Err(LaunchError::MissingGameDirectory)
    );
    assert_eq!(
        parse_arguments(&arguments(&["--unexpected"])),
        Err(LaunchError::UnknownArgument(0))
    );
    assert_eq!(
        parse_arguments(&arguments(&["--version-json", "--inspect-save"])),
        Err(LaunchError::ConflictingCommands)
    );
}

#[test]
fn no_arguments_start_the_game() {
    assert_eq!(
        parse_arguments(&Vec::new()),
        Ok(LaunchArguments {
            mode: LaunchMode::Game,
            game_dir: None,
            metadata_output: None
        })
    );
}

#[test]
fn repeated_and_dangling_options_are_refused() {
    assert_eq!(
        parse_arguments(&arguments(&["--game-dir", "a", "--game-dir", "b"])),
        Err(LaunchError::RepeatedGameDirectory)
    );
    assert_eq!(
        parse_arguments(&arguments(&["--inspect-save", "--metadata-output"])),
        Err(LaunchError::MissingMetadataFile)
    );
    assert_eq!(
        parse_arguments(&arguments(&[
            "--metadata-output",
            "a",
            "--metadata-output",
            "b"
        ])),
        Err(LaunchError::RepeatedMetadataOutput)
    );
}

#[test]
fn an_output_file_needs_a_metadata_command() {
    let parsed = parse_arguments(&arguments(&["--metadata-output", "out.json"])).unwrap();
    assert_eq!(parsed.validate(), Err(LaunchError::MetadataWithoutCommand));
    let inspect = parse_arguments(&arguments(&["--inspect-save", "--metadata-output", "out.json"]))
        .unwrap();
    assert_eq!(inspect.mode, LaunchMode::InspectSave);
    assert_eq!(inspect.validate(), Ok(inspect));
}
