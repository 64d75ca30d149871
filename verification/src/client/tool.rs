//! The tools of the design editor. Exactly one is active at a time.
use vstd::prelude::*;

use crate::editor::connect::ConnectCommand;
use crate::editor::connect::ConnectEvent;
use crate::editor::keys::KeyCode;
use crate::editor::select::SelectCommand;
use crate::editor::select::SelectEvent;
use crate::editor::select::SelectEventView;
use crate::geometry::Pos2;
use crate::geometry::Rgb;
use crate::table::TableKey;
use crate::text::chars_of;

verus! {

#[derive(Clone, Copy, Debug, PartialEq, Eq, Structural)]
pub enum Tool {
    /// Click to select, drag to move.
    Select,
    /// Click the canvas to spawn a frame.
    Create,
    /// Click two frames, or drag from one to the other, to join them.
    Connect,
}

impl Default for Tool {
    fn default() -> (r: Self)
        ensures
            r == Tool::Select,
    {
        Tool::Select
    }
}

impl TableKey for Tool {
    fn same_key(&self, other: &Self) -> (r: bool) {
        *self == *other
    }
}

/// All tools, in the order in which they are offered.
pub open spec fn all_tools() -> Seq<Tool> {
    seq![Tool::Select, Tool::Create, Tool::Connect]
}

/// The key for a text of one upper-case letter.
pub open spec fn keycode_of(s: Seq<char>) -> Option<KeyCode> {
    if s.len() == 1 && 'A' <= s[0] <= 'Z' {
        Some(KeyCode::Letter(s[0]))
    } else {
        None
    }
}

pub fn keycode_from_letter(s: &str) -> (r: Option<KeyCode>)
    ensures
        r == keycode_of(s@),
{
    let chars = chars_of(s);
    if chars.len() == 1 && 'A' <= chars[0] && chars[0] <= 'Z' {
        Some(KeyCode::Letter(chars[0]))
    } else {
        None
    }
}

impl Tool {
    pub open spec fn spec_label(self) -> Seq<char> {
        match self {
            Tool::Select => "Select"@,
            Tool::Create => "Create"@,
            Tool::Connect => "Connect"@,
        }
    }

    pub open spec fn spec_shortcut(self) -> Seq<char> {
        match self {
            Tool::Select => "V"@,
            Tool::Create => "C"@,
            Tool::Connect => "E"@,
        }
    }

    /// The letter of the tool's shortcut.
    pub open spec fn letter(self) -> char {
        match self {
            Tool::Select => 'V',
            Tool::Create => 'C',
            Tool::Connect => 'E',
        }
    }

    pub fn label(&self) -> (r: &'static str)
        ensures
            r@ == self.spec_label(),
    {
        match self {
            Tool::Select => "Select",
            Tool::Create => "Create",
            Tool::Connect => "Connect",
        }
    }

    pub fn shortcut(&self) -> (r: Option<&'static str>)
        ensures
            r is Some,
            r->0@ == self.spec_shortcut(),
    {
        match self {
            Tool::Select => Some("V"),
            Tool::Create => Some("C"),
            Tool::Connect => Some("E"),
        }
    }

    /// The key of the tool's shortcut.
    pub fn shortcut_keycode(&self) -> (r: Option<KeyCode>)
        ensures
            r == keycode_of(self.spec_shortcut()),
            r == Some(KeyCode::Letter(self.letter())),
    {
        proof {
            reveal_strlit("V");
            reveal_strlit("C");
            reveal_strlit("E");
        }
        match self.shortcut() {
            Some(s) => keycode_from_letter(s),
            None => None,
        }
    }

    pub fn all() -> (r: Vec<Tool>)
        ensures
            r@ == all_tools(),
    {
        let r = vec![Tool::Select, Tool::Create, Tool::Connect];
        assert(r@ =~= all_tools());
        r
    }
}

/// Commands to the create tool.
#[derive(Clone, Copy, Debug, PartialEq, Eq, Structural)]
pub enum CreateCommand {
    SpawnNodeAt { position: Pos2, color: Rgb },
    SpawnNodeAtCursor { color: Rgb },
}

#[derive(Clone, Copy, Debug, PartialEq, Eq, Structural)]
pub enum CreateEvent {
    NodeSpawned { entity: u64 },
}

/// A command to one of the tools.
#[derive(Debug)]
pub enum ToolCommand {
    Select(SelectCommand),
    Create(CreateCommand),
    Connect(ConnectCommand),
}

/// An event of one of the tools, or a change of tool.
#[derive(Debug)]
pub enum ToolEvent {
    Switched { tool: Tool },
    Select(SelectEvent),
    Create(CreateEvent),
    Connect(ConnectEvent),
}

pub enum ToolEventView {
    Switched { tool: Tool },
    Select(SelectEventView),
    Create(CreateEvent),
    Connect(ConnectEvent),
}

impl View for ToolEvent {
    type V = ToolEventView;

    open spec fn view(&self) -> ToolEventView {
        match *self {
            ToolEvent::Switched { tool } => ToolEventView::Switched { tool },
            ToolEvent::Select(e) => ToolEventView::Select(e@),
            ToolEvent::Create(e) => ToolEventView::Create(e),
            ToolEvent::Connect(e) => ToolEventView::Connect(e),
        }
    }
}

// ---------------------------------------------------------------------------
// Laws
// ---------------------------------------------------------------------------

/// Every tool is offered once, and each has a shortcut of its own: the key of the
/// one letter that is shown for it.
pub proof fn tools_have_their_own_shortcuts(a: Tool, b: Tool)
    ensures
        all_tools().contains(a),
        all_tools().no_duplicates(),
        a != b ==> a.letter() != b.letter() && a.spec_label() != b.spec_label(),
        a.spec_shortcut() == seq![a.letter()],
        keycode_of(a.spec_shortcut()) == Some(KeyCode::Letter(a.letter())),
        Tool::Select.letter() == 'V' && Tool::Create.letter() == 'C' && Tool::Connect.letter()
            == 'E',
        all_tools()[0] == Tool::Select,
{
    reveal_strlit("V");
    reveal_strlit("C");
    reveal_strlit("E");
    reveal_strlit("Select");
    reveal_strlit("Create");
    reveal_strlit("Connect");
    let all = all_tools();
    assert(all[0] == Tool::Select && all[1] == Tool::Create && all[2] == Tool::Connect);
    assert(a.spec_shortcut() =~= seq![a.letter()]);
    assert(Tool::Select.spec_label()[0] == 'S' && Tool::Create.spec_label()[0] == 'C'
        && Tool::Connect.spec_label()[0] == 'C');
    assert(Tool::Select.spec_label().len() == 6 && Tool::Create.spec_label().len() == 6
        && Tool::Connect.spec_label().len() == 7);
}

/// A text stands for a key exactly where it is one upper-case letter, and then
/// for the key of that letter.
pub proof fn one_upper_case_letter_is_a_key(s: Seq<char>)
    ensures
        keycode_of(s) is Some <==> s.len() == 1 && 'A' <= s[0] <= 'Z',
        keycode_of(s) is Some ==> keycode_of(s) == Some(KeyCode::Letter(s[0])),
{
}

} // verus!
