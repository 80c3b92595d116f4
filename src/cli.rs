use vstd::prelude::*;

use crate::snippet::Identifier;

verus! {

/// A parsed command line.
pub struct Cli {
    pub command: Commands,
}

/// The commands of the snippet manager.
pub enum Commands {
    /// Adds an entry to the snippet collection.
    Add { key: String, prefix: String, description: String, body: Vec<String> },
    /// Removes an entry from the snippet collection.
    Rm { key: String },
    /// Edits an entry of the snippet collection.
    Edit {
        key: String,
        prefix: Option<String>,
        description: Option<String>,
        body: Option<Vec<String>>,
    },
    /// Lists every key or every prefix.
    Ls { list_option: Identifier },
    /// Shows one entry.
    Show { key: String },
    /// Searches the collection.
    Search { id: Option<Identifier>, name: String },
    /// Points the configuration at another store file.
    Config { path: Option<String> },
    /// Moves an entry to another key.
    UpdateKey { old_key: String, new_key: String },
    /// Opens the store file in an editor.
    Open { editor: Option<String> },
}

} // verus!
