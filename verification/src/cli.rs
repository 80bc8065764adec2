//! The commands of the command-line tool, as plain values: paths are
//! carried as the text the user gave.
use vstd::prelude::*;

verus! {

/// BMS Resource Toolbox command line.
pub struct Cli {
    /// Answer yes to every confirmation.
    pub yes: bool,
    /// The command to run.
    pub command: Commands,
}

/// All commands of the toolbox.
pub enum Commands {
    /// Open work info pages of an event.
    JumpToWorkInfo { event: i32, work_id: Vec<i32> },
    /// Rename work folders to `{title} [{artist}]`.
    SetNameByBms { path: String },
    /// Append `{title} [{artist}]` to numbered work folders.
    AppendNameByBms { path: String },
    /// Append `[{artist}]` to work folders.
    AppendArtistNameByBms { path: String },
    /// Copy the names of numbered work folders from one root to another.
    CopyNumberedWorkdirNames { from: String, to: String },
    /// List pairs of similarly named folders.
    ScanFolderSimilarFolders { path: String },
    /// Undo `SetNameByBms`.
    UndoSetName { path: String },
    /// Remove empty media files and temporary files.
    RemoveZeroSizedMediaFiles { path: String },
    /// Split a pack into groups by the first character of its works.
    SplitFoldersWithFirstChar { path: String },
    /// Undo `SplitFoldersWithFirstChar`.
    UndoSplitPack { path: String },
    /// Move the works of one pack into another.
    MoveWorksInPack { from: String, to: String },
    /// Move works out of their nested folders.
    MoveOutWorks { path: String },
    /// Merge works into folders of the same name.
    MoveWorksWithSameName { from: String, to: String },
    /// Merge works into sibling folders of the same name.
    MoveWorksWithSameNameToSiblings { path: String },
    /// Merge the group folders of a split pack back.
    MergeSplitFolders { path: String },
    /// List the numbered folders an event directory lacks.
    CheckNumFolder { path: String, count: i32 },
    /// Create the numbered folders of an event directory.
    CreateNumFolders { path: String, count: i32 },
    /// Write the work info table of an event directory.
    GenerateWorkInfoTable { path: String },
    /// Convert the audio of every work folder.
    TransferAudio { path: String, mode: usize },
    /// Convert the video of every work folder.
    TransferVideo { path: String, format: usize },
    /// Unpack numbered archives into work folders.
    UnzipNumericToBmsFolder { pack: String, cache: String, root: String },
    /// Unpack archives into work folders named after them.
    UnzipWithNameToBmsFolder { pack: String, cache: String, root: String },
    /// Give a pack file a number.
    SetFileNum { path: String, file_idx: usize, num: i32 },
    /// Set up an HQ pack from a RAW pack.
    PackSetupRawpackToHq { pack: String, root: String },
    /// Update an HQ pack from a RAW pack and an existing pack.
    PackUpdateRawpackToHq { pack: String, root: String, sync: String },
    /// Convert a RAW pack to HQ in place.
    PackRawToHq { path: String },
    /// Convert an HQ pack to LQ in place.
    PackHqToLq { path: String },
}

impl Commands {
    /// Whether the command asks for a confirmation before it runs: the ones
    /// that undo a split or merge folders together.
    pub fn needs_confirmation(&self) -> (r: bool)
        ensures
            r == (self is UndoSplitPack || self is MoveWorksWithSameName
                || self is MoveWorksWithSameNameToSiblings),
    {
        match self {
            Commands::UndoSplitPack { .. } => true,
            Commands::MoveWorksWithSameName { .. } => true,
            Commands::MoveWorksWithSameNameToSiblings { .. } => true,
            _ => false,
        }
    }
}

/// Event commands.
pub enum EventCmd {
    /// List the numbered folders an event directory lacks.
    CheckNumFolder { path: String, count: i32 },
    /// Create the numbered folders of an event directory.
    CreateNumFolders { path: String, count: i32 },
    /// Write the work info table of an event directory.
    GenerateWorkInfoTable { path: String },
}

/// Folder commands.
pub enum FolderCmd {
    /// Rename work folders to `{title} [{artist}]`.
    SetNameByBms { path: String },
    /// Append `{title} [{artist}]` to numbered work folders.
    AppendNameByBms { path: String },
    /// Append `[{artist}]` to work folders.
    AppendArtistNameByBms { path: String },
    /// Copy the names of numbered work folders from one root to another.
    CopyNumberedWorkdirNames { from: String, to: String },
    /// List pairs of similarly named folders.
    ScanFolderSimilarFolders { path: String },
    /// Undo `SetNameByBms`.
    UndoSetName { path: String },
    /// Remove empty media files and temporary files.
    RemoveZeroSizedMediaFiles { path: String },
}

/// Pack generation commands.
pub enum GenerateCmd {
    /// Set up an HQ pack from a RAW pack.
    SetupRawpackToHq { pack: String, root: String },
    /// Update an HQ pack from a RAW pack and an existing pack.
    UpdateRawpackToHq { pack: String, root: String, sync: String },
    /// Convert a RAW pack to HQ in place.
    RawToHq { path: String },
    /// Convert an HQ pack to LQ in place.
    HqToLq { path: String },
}

/// Jump commands.
pub enum JumpCmd {
    /// Open work info pages of an event.
    WorkInfo { event: i32, work_id: Vec<i32> },
}

/// Pack commands.
pub enum PackCmd {
    /// Split a pack into groups by the first character of its works.
    SplitFoldersWithFirstChar { path: String },
    /// Undo `SplitFoldersWithFirstChar`.
    UndoSplitPack { path: String },
    /// Move the works of one pack into another.
    MoveWorksInPack { from: String, to: String },
    /// Move works out of their nested folders.
    MoveOutWorks { path: String },
    /// Merge works into folders of the same name.
    MoveWorksWithSameName { from: String, to: String },
    /// Merge works into sibling folders of the same name.
    MoveWorksWithSameNameToSiblings { path: String },
    /// Merge the group folders of a split pack back.
    MergeSplitFolders { path: String },
}

/// Transfer commands.
pub enum TransferCmd {
    /// Convert the audio of every work folder.
    Audio { path: String, mode: usize },
    /// Convert the video of every work folder.
    Video { path: String, format: usize },
}

/// Unzip commands.
pub enum UnzipCmd {
    /// Unpack numbered archives into work folders.
    NumericToBmsFolder { pack: String, cache: String, root: String },
    /// Unpack archives into work folders named after them.
    WithNameToBmsFolder { pack: String, cache: String, root: String },
    /// Give a pack file a number.
    SetFileNum { path: String, file_idx: usize, num: i32 },
}

} // verus!
