//! Commands queued by the interface for the next frame.
use std::collections::VecDeque;
use vstd::prelude::*;

verus! {

/// The kind of a queued command.
#[derive(Debug, Clone, Copy, PartialEq, Eq, Structural)]
pub enum ECommandType {
    /// Edit a workbook or sheet in the spreadsheet program.
    Edit,
    /// Open a workbook in the preview.
    Open,
    /// Export the data of a node.
    ConvertItem,
    /// Generate the code of a node.
    GenerateItem,
    /// Export the data of a build target.
    ConvertTarget,
    /// Generate the code of a build target.
    GenerateTarget,
    /// Create a folder.
    CreateFolder,
    /// Create a workbook.
    CreateExcel,
    /// Create a sheet.
    CreateSheet,
    /// Start editing a node's name.
    Editname,
    /// Rename a node.
    Rename,
    /// Delete a node.
    Delete,
    /// Rebuild the file tree.
    Refresh,
}

/// A queued command with up to two text parameters.
#[derive(Debug, Clone)]
pub struct ActionCommand {
    /// What to do.
    pub com_type: ECommandType,
    /// First parameter (usually a full path).
    pub param1: Option<String>,
    /// Second parameter (a new name).
    pub param2: Option<String>,
}

impl ActionCommand {
    /// Builds a command from its kind and parameters.
    pub fn new(com: ECommandType, arg1: Option<String>, arg2: Option<String>) -> (c: Self)
        ensures
            c.com_type == com,
            c.param1 == arg1,
            c.param2 == arg2,
    {
        Self { com_type: com, param1: arg1, param2: arg2 }
    }
}


/// Queues a command.
fn push_command(queue: &mut VecDeque<ActionCommand>, com: ECommandType, arg1: Option<String>, arg2: Option<String>)
    ensures
        final(queue)@ == old(queue)@.push(ActionCommand { com_type: com, param1: arg1, param2: arg2 }),
{
    queue.push_back(ActionCommand::new(com, arg1, arg2));
}

/// Queues editing the node at `full_path` in the spreadsheet program.
pub fn editor_command(queue: &mut VecDeque<ActionCommand>, full_path: String)
    ensures
        final(queue)@ == old(queue)@.push(ActionCommand { com_type: ECommandType::Edit, param1: Some(full_path), param2: None }),
{
    push_command(queue, ECommandType::Edit, Some(full_path), None);
}

/// Queues opening the workbook of the node at `full_path` in the preview.
pub fn open_command(queue: &mut VecDeque<ActionCommand>, full_path: String)
    ensures
        final(queue)@ == old(queue)@.push(ActionCommand { com_type: ECommandType::Open, param1: Some(full_path), param2: None }),
{
    push_command(queue, ECommandType::Open, Some(full_path), None);
}

/// Queues exporting the data of the node at `full_path`.
pub fn convert_item_command(queue: &mut VecDeque<ActionCommand>, full_path: String)
    ensures
        final(queue)@ == old(queue)@.push(ActionCommand { com_type: ECommandType::ConvertItem, param1: Some(full_path), param2: None }),
{
    push_command(queue, ECommandType::ConvertItem, Some(full_path), None);
}

/// Queues generating the code of the node at `full_path`.
pub fn generate_item_command(queue: &mut VecDeque<ActionCommand>, full_path: String)
    ensures
        final(queue)@ == old(queue)@.push(ActionCommand { com_type: ECommandType::GenerateItem, param1: Some(full_path), param2: None }),
{
    push_command(queue, ECommandType::GenerateItem, Some(full_path), None);
}

/// Queues exporting the data of the build target `display_name`.
pub fn convert_target_command(queue: &mut VecDeque<ActionCommand>, display_name: String)
    ensures
        final(queue)@ == old(queue)@.push(ActionCommand { com_type: ECommandType::ConvertTarget, param1: Some(display_name), param2: None }),
{
    push_command(queue, ECommandType::ConvertTarget, Some(display_name), None);
}

/// Queues generating the code of the build target `display_name`.
pub fn generate_target_command(queue: &mut VecDeque<ActionCommand>, display_name: String)
    ensures
        final(queue)@ == old(queue)@.push(ActionCommand { com_type: ECommandType::GenerateTarget, param1: Some(display_name), param2: None }),
{
    push_command(queue, ECommandType::GenerateTarget, Some(display_name), None);
}

/// Queues creating a folder from the node at `full_path`.
pub fn create_folder_command(queue: &mut VecDeque<ActionCommand>, full_path: String)
    ensures
        final(queue)@ == old(queue)@.push(ActionCommand { com_type: ECommandType::CreateFolder, param1: Some(full_path), param2: None }),
{
    push_command(queue, ECommandType::CreateFolder, Some(full_path), None);
}

/// Queues creating a workbook from the node at `full_path`.
pub fn create_excel_command(queue: &mut VecDeque<ActionCommand>, full_path: String)
    ensures
        final(queue)@ == old(queue)@.push(ActionCommand { com_type: ECommandType::CreateExcel, param1: Some(full_path), param2: None }),
{
    push_command(queue, ECommandType::CreateExcel, Some(full_path), None);
}

/// Queues creating a sheet in the workbook at `full_path`.
pub fn create_sheet_command(queue: &mut VecDeque<ActionCommand>, full_path: String)
    ensures
        final(queue)@ == old(queue)@.push(ActionCommand { com_type: ECommandType::CreateSheet, param1: Some(full_path), param2: None }),
{
    push_command(queue, ECommandType::CreateSheet, Some(full_path), None);
}

/// Queues starting to edit the name of the node at `full_path`.
pub fn editname_command(queue: &mut VecDeque<ActionCommand>, full_path: String)
    ensures
        final(queue)@ == old(queue)@.push(ActionCommand { com_type: ECommandType::Editname, param1: Some(full_path), param2: None }),
{
    push_command(queue, ECommandType::Editname, Some(full_path), None);
}

/// Queues deleting the node at `full_path`.
pub fn delete_comand(queue: &mut VecDeque<ActionCommand>, full_path: String)
    ensures
        final(queue)@ == old(queue)@.push(ActionCommand { com_type: ECommandType::Delete, param1: Some(full_path), param2: None }),
{
    push_command(queue, ECommandType::Delete, Some(full_path), None);
}

/// Queues renaming the node at `full_path` to `new_name`.
pub fn rename_command(queue: &mut VecDeque<ActionCommand>, full_path: String, new_name: String)
    ensures
        final(queue)@ == old(queue)@.push(ActionCommand { com_type: ECommandType::Rename, param1: Some(full_path), param2: Some(new_name) }),
{
    push_command(queue, ECommandType::Rename, Some(full_path), Some(new_name));
}

/// Queues rebuilding the file tree.
pub fn refresh_command(queue: &mut VecDeque<ActionCommand>)
    ensures
        final(queue)@ == old(queue)@.push(ActionCommand { com_type: ECommandType::Refresh, param1: None, param2: None }),
{
    push_command(queue, ECommandType::Refresh, None, None);
}

/// Takes the oldest queued command, if any.
pub fn next_command(queue: &mut VecDeque<ActionCommand>) -> (r: Option<ActionCommand>)
    ensures
        old(queue)@.len() == 0 ==> r is None && final(queue)@ == old(queue)@,
        old(queue)@.len() > 0 ==> r == Some(old(queue)@[0]) && final(queue)@ == old(queue)@.drop_first(),
{
    queue.pop_front()
}

} // verus!
