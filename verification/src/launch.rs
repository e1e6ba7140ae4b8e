use vstd::prelude::*;
use vstd::string::StringExecFns;

verus! {

/// What the program does when it starts.
#[derive(Clone, Copy, Debug, PartialEq, Eq, Structural)]
pub enum LaunchMode {
    Game,
    InspectSave,
    VersionJson,
}

/// A command line the launcher refuses.
#[derive(Clone, Copy, Debug, PartialEq, Eq, Structural)]
pub enum LaunchError {
    /// `--game-dir` ends the command line.
    MissingGameDirectory,
    /// `--game-dir` appears twice.
    RepeatedGameDirectory,
    /// Two metadata commands were given.
    ConflictingCommands,
    /// `--metadata-output` ends the command line.
    MissingMetadataFile,
    /// `--metadata-output` appears twice.
    RepeatedMetadataOutput,
    /// The argument at this index is not one the launcher knows.
    UnknownArgument(usize),
    /// `--metadata-output` was given without a metadata command.
    MetadataWithoutCommand,
}

/// The parsed command line: the launch mode and the indices of the
/// arguments that hold the game directory and the metadata output file.
#[derive(Clone, Copy, Debug, PartialEq, Eq, Structural)]
pub struct LaunchArguments {
    pub mode: LaunchMode,
    pub game_dir: Option<usize>,
    pub metadata_output: Option<usize>,
}

pub open spec fn game_dir_flag() -> Seq<char> {
    "--game-dir"@
}

pub open spec fn inspect_save_flag() -> Seq<char> {
    "--inspect-save"@
}

pub open spec fn metadata_output_flag() -> Seq<char> {
    "--metadata-output"@
}

pub open spec fn version_json_flag() -> Seq<char> {
    "--version-json"@
}

/// Parsing the arguments from index `i` on, in the state reached so far:
/// `--game-dir` and `--metadata-output` take the next argument and may each
/// appear once, `--version-json` and `--inspect-save` select the mode and
/// exclude each other, any other argument is refused.
pub open spec fn parse_from(arguments: Seq<Seq<char>>, i: int, state: LaunchArguments) -> Result<
    LaunchArguments,
    LaunchError,
>
    decreases arguments.len() - i,
{
    if i < 0 || i >= arguments.len() {
        Ok(state)
    } else {
        let argument = arguments[i];
        if argument == game_dir_flag() {
            if i + 1 >= arguments.len() {
                Err(LaunchError::MissingGameDirectory)
            } else if state.game_dir is Some {
                Err(LaunchError::RepeatedGameDirectory)
            } else {
                parse_from(arguments, i + 2, LaunchArguments { game_dir: Some((i + 1) as usize), ..state })
            }
        } else if argument == version_json_flag() {
            if state.mode != LaunchMode::Game {
                Err(LaunchError::ConflictingCommands)
            } else {
                parse_from(arguments, i + 1, LaunchArguments { mode: LaunchMode::VersionJson, ..state })
            }
        } else if argument == inspect_save_flag() {
            if state.mode != LaunchMode::Game {
                Err(LaunchError::ConflictingCommands)
            } else {
                parse_from(arguments, i + 1, LaunchArguments { mode: LaunchMode::InspectSave, ..state })
            }
        } else if argument == metadata_output_flag() {
            if i + 1 >= arguments.len() {
                Err(LaunchError::MissingMetadataFile)
            } else if state.metadata_output is Some {
                Err(LaunchError::RepeatedMetadataOutput)
            } else {
                parse_from(
                    arguments,
                    i + 2,
                    LaunchArguments { metadata_output: Some((i + 1) as usize), ..state },
                )
            }
        } else {
            Err(LaunchError::UnknownArgument(i as usize))
        }
    }
}

/// The views of the arguments.
pub open spec fn argument_views(arguments: Seq<String>) -> Seq<Seq<char>> {
    arguments.map_values(|argument: String| argument@)
}

/// The state before any argument: the game, no directory, no output file.
pub open spec fn initial_arguments() -> LaunchArguments {
    LaunchArguments { mode: LaunchMode::Game, game_dir: None, metadata_output: None }
}

/// Reads the command line, without the program name.
pub fn parse_arguments(arguments: &Vec<String>) -> (r: Result<LaunchArguments, LaunchError>)
    ensures
        r == parse_from(argument_views(arguments@), 0, initial_arguments()),
{
    let game_dir_argument = String::from_str("--game-dir");
    let inspect_save_argument = String::from_str("--inspect-save");
    let metadata_output_argument = String::from_str("--metadata-output");
    let version_json_argument = String::from_str("--version-json");
    let ghost views = argument_views(arguments@);
    let mut state = LaunchArguments { mode: LaunchMode::Game, game_dir: None, metadata_output: None };
    let mut i: usize = 0;
    while i < arguments.len()
        invariant
            i <= arguments@.len(),
            views == argument_views(arguments@),
            views.len() == arguments@.len(),
            game_dir_argument@ == game_dir_flag(),
            inspect_save_argument@ == inspect_save_flag(),
            metadata_output_argument@ == metadata_output_flag(),
            version_json_argument@ == version_json_flag(),
            parse_from(views, i as int, state) == parse_from(views, 0, initial_arguments()),
        decreases arguments@.len() - i,
    {
        let argument = &arguments[i];
        assert(views[i as int] == argument@);
        if *argument == game_dir_argument {
            if i + 1 >= arguments.len() {
                return Err(LaunchError::MissingGameDirectory);
            }
            if state.game_dir.is_some() {
                return Err(LaunchError::RepeatedGameDirectory);
            }
            state = LaunchArguments { game_dir: Some(i + 1), ..state };
            i = i + 2;
        } else if *argument == version_json_argument {
            if state.mode != LaunchMode::Game {
                return Err(LaunchError::ConflictingCommands);
            }
            state = LaunchArguments { mode: LaunchMode::VersionJson, ..state };
            i = i + 1;
        } else if *argument == inspect_save_argument {
            if state.mode != LaunchMode::Game {
                return Err(LaunchError::ConflictingCommands);
            }
            state = LaunchArguments { mode: LaunchMode::InspectSave, ..state };
            i = i + 1;
        } else if *argument == metadata_output_argument {
            if i + 1 >= arguments.len() {
                return Err(LaunchError::MissingMetadataFile);
            }
            if state.metadata_output.is_some() {
                return Err(LaunchError::RepeatedMetadataOutput);
            }
            state = LaunchArguments { metadata_output: Some(i + 1), ..state };
            i = i + 2;
        } else {
            return Err(LaunchError::UnknownArgument(i));
        }
    }
    Ok(state)
}

impl LaunchArguments {
    /// An output file only makes sense for a metadata command.
    pub fn validate(self) -> (r: Result<LaunchArguments, LaunchError>)
        ensures
            r == (if self.metadata_output is Some && self.mode == LaunchMode::Game {
                Err(LaunchError::MetadataWithoutCommand)
            } else {
                Ok(self)
            }),
    {
        if self.metadata_output.is_some() && self.mode == LaunchMode::Game {
            Err(LaunchError::MetadataWithoutCommand)
        } else {
            Ok(self)
        }
    }
}

} // verus!
