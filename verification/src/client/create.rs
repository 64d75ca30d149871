//! The create tool: new frames.
use vstd::prelude::*;

use crate::client::msg::AppCommand;
use crate::client::scene::Paint;
use crate::client::tool::CreateCommand;
use crate::client::tool::CreateEvent;
use crate::client::tool::Tool;
use crate::client::tool::ToolCommand;
use crate::editor::keys::canvas_clicked;
use crate::editor::keys::pointer_busy;
use crate::editor::keys::Interaction;
use crate::geometry::Pos2;
use crate::geometry::Rgb;

verus! {

/// The measures of a frame, as bit patterns of singles.
#[derive(Clone, Copy, Debug, PartialEq, Eq, Structural)]
pub struct Size {
    pub width: u32,
    pub height: u32,
}

/// A frame to be spawned: unnamed, without strokes or layout, clipping its
/// content, filled with one opaque colour.
#[derive(Clone, Copy, Debug, PartialEq, Eq, Structural)]
pub struct FrameSpawn {
    pub position: Pos2,
    pub fill: Paint,
    pub size: Size,
    pub clips_content: bool,
}

/// A new frame is 180 wide and 100 high.
pub open spec fn new_size() -> Size {
    Size { width: 0x43340000, height: 0x42c80000 }
}

pub open spec fn frame_at(position: Pos2, color: Rgb) -> FrameSpawn {
    FrameSpawn {
        position,
        fill: Paint::Solid { r: color.r, g: color.g, b: color.b, a: 0x3f800000 },
        size: new_size(),
        clips_content: true,
    }
}

/// The frame of the given colour at the given position.
pub fn spawn_node(position: Pos2, color: Rgb) -> (r: FrameSpawn)
    ensures
        r == frame_at(position, color),
{
    FrameSpawn {
        position,
        fill: Paint::Solid { r: color.r, g: color.g, b: color.b, a: 0x3f800000 },
        size: Size { width: 0x43340000, height: 0x42c80000 },
        clips_content: true,
    }
}

/// What comes of a command to the create tool: a frame to spawn, or the text of
/// an error. `cursor` is where the pointer is on the canvas.
pub open spec fn created(command: CreateCommand, cursor: Option<Pos2>) -> Result<
    FrameSpawn,
    Seq<char>,
> {
    match command {
        CreateCommand::SpawnNodeAt { position, color } => Ok(frame_at(position, color)),
        CreateCommand::SpawnNodeAtCursor { color } => match cursor {
            Some(position) => Ok(frame_at(position, color)),
            None => Err("Create::SpawnNodeAtCursor: no cursor or no 2D camera"@),
        },
    }
}

pub open spec fn creating_view(r: Result<FrameSpawn, String>) -> Result<FrameSpawn, Seq<char>> {
    match r {
        Ok(spawn) => Ok(spawn),
        Err(text) => Err(text@),
    }
}

fn create_one(command: CreateCommand, cursor: Option<Pos2>) -> (r: Result<FrameSpawn, String>)
    ensures
        creating_view(r) == created(command, cursor),
{
    match command {
        CreateCommand::SpawnNodeAt { position, color } => Ok(spawn_node(position, color)),
        CreateCommand::SpawnNodeAtCursor { color } => match cursor {
            Some(position) => Ok(spawn_node(position, color)),
            None => Err("Create::SpawnNodeAtCursor: no cursor or no 2D camera".to_owned()),
        },
    }
}

/// Carries out commands to the create tool, one result for each. While another
/// tool is active they come to nothing.
pub fn handle_create_commands(
    tool: Tool,
    commands: &Vec<CreateCommand>,
    cursor: Option<Pos2>,
) -> (r: Vec<Result<FrameSpawn, String>>)
    ensures
        r@.len() == (if tool == Tool::Create {
            commands@.len()
        } else {
            0
        }),
        forall|i: int|
            0 <= i < r@.len() ==> creating_view(#[trigger] r@[i]) == created(
                commands@[i],
                cursor,
            ),
{
    let mut r: Vec<Result<FrameSpawn, String>> = Vec::new();
    if tool != Tool::Create {
        return r;
    }
    let mut i: usize = 0;
    while i < commands.len()
        invariant
            i <= commands@.len(),
            r@.len() == i,
            forall|k: int|
                0 <= k < i ==> creating_view(#[trigger] r@[k]) == created(commands@[k], cursor),
        decreases commands@.len() - i,
    {
        r.push(create_one(commands[i], cursor));
        i = i + 1;
    }
    r
}

/// The event that tells of a frame once it has an entity.
pub fn spawned_event(entity: u64) -> (r: CreateEvent)
    ensures
        r == (CreateEvent::NodeSpawned { entity }),
{
    CreateEvent::NodeSpawned { entity }
}

/// The light blue of frames that are created by a click.
pub open spec fn click_color() -> Rgb {
    Rgb { r: 0x3ecccccd, g: 0x3f333333, b: 0x3f800000 }
}

/// With the create tool, a left click on the canvas asks for a frame under the pointer. A click on
/// the user interface does not count.
pub fn handle_canvas_clicks(
    tool: Tool,
    just_pressed: Option<bool>,
    interactions: &Vec<Interaction>,
) -> (r: Option<AppCommand>)
    ensures
        r == (if tool == Tool::Create && just_pressed == Some(true) && !pointer_busy(interactions@) {
            Some(
                AppCommand::Tool(
                    ToolCommand::Create(
                        CreateCommand::SpawnNodeAtCursor { color: click_color() },
                    ),
                ),
            )
        } else {
            None
        }),
{
    if tool == Tool::Create && canvas_clicked(just_pressed, interactions) {
        Some(
            AppCommand::Tool(
                ToolCommand::Create(
                    CreateCommand::SpawnNodeAtCursor {
                        color: Rgb { r: 0x3ecccccd, g: 0x3f333333, b: 0x3f800000 },
                    },
                ),
            ),
        )
    } else {
        None
    }
}

// ---------------------------------------------------------------------------
// Laws
// ---------------------------------------------------------------------------

/// A command to the create tool gives the frame that it asks for: at the
/// position named, or at the pointer, filled with the colour named and opaque,
/// at the size of a new frame. Without a pointer a command that needs it fails.
pub proof fn created_frame_is_as_asked(position: Pos2, color: Rgb, cursor: Option<Pos2>)
    ensures
        ({
            let at = created(CreateCommand::SpawnNodeAt { position, color }, cursor);
            let here = created(CreateCommand::SpawnNodeAtCursor { color }, cursor);
            &&& at is Ok
            &&& at->Ok_0.position == position
            &&& here is Ok <==> cursor is Some
            &&& cursor is Some ==> here->Ok_0.position == cursor->0
            &&& at->Ok_0.fill == (Paint::Solid { r: color.r, g: color.g, b: color.b, a: 0x3f800000 })
            &&& cursor is Some ==> here->Ok_0.fill == at->Ok_0.fill && here->Ok_0.size
                == at->Ok_0.size && here->Ok_0.clips_content
            &&& at->Ok_0.size.width == 0x43340000
            &&& at->Ok_0.size.height == 0x42c80000
            &&& at->Ok_0.clips_content
            &&& cursor is None ==> here->Err_0
                == "Create::SpawnNodeAtCursor: no cursor or no 2D camera"@
        }),
{
}

} // verus!
