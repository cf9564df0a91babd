//! The settings of the process and the commands of its command line.

use vstd::prelude::*;

verus! {

/// The settings of the process.
pub struct Settings {
    pub game: GameSettings,
}

/// Where the game server listens.
pub struct GameSettings {
    pub address: String,
    pub port: i64,
}

/// What the program is asked to do. Every command may name the project
/// folder to work in.
pub enum Commands {
    Server { project_folder: Option<String> },
    CreateDb { project_folder: Option<String> },
    DbMigrate { project_folder: Option<String> },
    CreateDbMigration { project_folder: Option<String>, migration_name: String },
    GenerateScripts { project_folder: Option<String> },
}

impl Commands {
    /// The project folder that the command names, if it names one.
    pub open spec fn project_folder(&self) -> Option<String> {
        match self {
            Commands::Server { project_folder } => *project_folder,
            Commands::CreateDb { project_folder } => *project_folder,
            Commands::DbMigrate { project_folder } => *project_folder,
            Commands::CreateDbMigration { project_folder, migration_name } => *project_folder,
            Commands::GenerateScripts { project_folder } => *project_folder,
        }
    }
}

/// The project folder that `command` names, if it names one.
pub fn extract_project_folder(command: &Commands) -> (r: &Option<String>)
    ensures
        *r == command.project_folder(),
{
    match command {
        Commands::Server { project_folder } => project_folder,
        Commands::CreateDb { project_folder } => project_folder,
        Commands::DbMigrate { project_folder } => project_folder,
        Commands::CreateDbMigration { project_folder, migration_name: _ } => project_folder,
        Commands::GenerateScripts { project_folder } => project_folder,
    }
}

} // verus!
