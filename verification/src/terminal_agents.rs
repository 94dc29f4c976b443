//! The coding agents offered from the new-entry menus, and where a terminal was
//! opened from.
//!
//! Each preset opens a terminal in the centre pane and types its command in.

use crate::workspace_sidebar::Color;
use vstd::prelude::*;
use vstd::string::*;
use vstd::utf8::*;

verus! {

/// Where a terminal was opened from.
#[derive(Clone, Copy, Debug, PartialEq, Eq, Structural)]
pub enum AgentThreadSource {
    AgentPanel,
    GitPanel,
    Sidebar,
}

impl AgentThreadSource {
    pub fn as_str(self) -> (name: &'static str)
        ensures
            name@ == (match self {
                AgentThreadSource::AgentPanel => "agent_panel"@,
                AgentThreadSource::GitPanel => "git_panel"@,
                AgentThreadSource::Sidebar => "sidebar"@,
            }),
    {
        match self {
            AgentThreadSource::AgentPanel => "agent_panel",
            AgentThreadSource::GitPanel => "git_panel",
            AgentThreadSource::Sidebar => "sidebar",
        }
    }
}

/// The mark a preset is shown with.
#[derive(Clone, Copy, Debug, PartialEq, Eq, Structural)]
pub enum AgentIcon {
    OpenAi,
    Claude,
    OpenCode,
}

/// A coding agent that can be started in a terminal: what it says in the menu,
/// its mark, and what it types.
#[derive(Debug, PartialEq, Eq)]
pub struct AgentPreset {
    pub label: String,
    pub icon: AgentIcon,
    pub command: String,
}

impl DeepView for AgentPreset {
    type V = (Seq<char>, AgentIcon, Seq<char>);

    open spec fn deep_view(&self) -> (Seq<char>, AgentIcon, Seq<char>) {
        (self.label@, self.icon, self.command@)
    }
}

/// The agents offered, in the order they are shown: those that are configured
/// stand between the two that are always there.
pub open spec fn presets(
    configured: Seq<(Seq<char>, AgentIcon, Seq<char>)>,
) -> Seq<(Seq<char>, AgentIcon, Seq<char>)> {
    seq![("Codex (Full Access)"@, AgentIcon::OpenAi, "codex --yolo"@)] + configured + seq![
        ("OpenCode (Full Access)"@, AgentIcon::OpenCode, "opencode --auto"@),
    ]
}

pub fn terminal_agent_presets(configured: Vec<AgentPreset>) -> (list: Vec<AgentPreset>)
    ensures
        list.deep_view() == presets(configured.deep_view()),
{
    let ghost between = configured.deep_view();
    let mut list = configured;
    list.insert(
        0,
        AgentPreset {
            label: "Codex (Full Access)".to_owned(),
            icon: AgentIcon::OpenAi,
            command: "codex --yolo".to_owned(),
        },
    );
    list.push(
        AgentPreset {
            label: "OpenCode (Full Access)".to_owned(),
            icon: AgentIcon::OpenCode,
            command: "opencode --auto".to_owned(),
        },
    );
    assert(list.deep_view() =~= presets(between));
    list
}

/// One line the new-entry menu gains.
#[derive(Debug, PartialEq, Eq)]
pub enum AgentMenuLine {
    Separator,
    /// The heading "Terminal Agents".
    Header,
    Agent(AgentPreset, Color),
}

/// What an [`AgentMenuLine`] holds.
pub enum AgentLineView {
    Separator,
    Header,
    Agent((Seq<char>, AgentIcon, Seq<char>), Color),
}

impl DeepView for AgentMenuLine {
    type V = AgentLineView;

    open spec fn deep_view(&self) -> AgentLineView {
        match *self {
            AgentMenuLine::Separator => AgentLineView::Separator,
            AgentMenuLine::Header => AgentLineView::Header,
            AgentMenuLine::Agent(preset, color) => AgentLineView::Agent(
                preset.deep_view(),
                color,
            ),
        }
    }
}

/// The line of an agent.
pub open spec fn agent_line(preset: (Seq<char>, AgentIcon, Seq<char>)) -> AgentLineView {
    AgentLineView::Agent(preset, Color::Muted)
}

/// The lines the new-entry menu gains: a heading, then each agent.
pub fn append_terminal_agents(menu: &mut Vec<AgentMenuLine>, agents: Vec<AgentPreset>)
    ensures
        final(menu).deep_view() == old(menu).deep_view() + seq![
            AgentLineView::Separator,
            AgentLineView::Header,
        ] + agents.deep_view().map_values(
            |preset: (Seq<char>, AgentIcon, Seq<char>)| agent_line(preset),
        ),
{
    let ghost given = menu.deep_view();
    let ghost line = |preset: (Seq<char>, AgentIcon, Seq<char>)| agent_line(preset);
    let ghost all = agents.deep_view();
    let mut agents = agents;
    menu.push(AgentMenuLine::Separator);
    menu.push(AgentMenuLine::Header);
    let ghost head = given + seq![AgentLineView::Separator, AgentLineView::Header];
    let ghost mut done: int = 0;
    assert(menu.deep_view() =~= head + all.take(0).map_values(line));
    assert(all.skip(0) =~= all);
    while agents.len() > 0
        invariant
            0 <= done <= all.len(),
            agents.deep_view() == all.skip(done),
            agents.len() == all.len() - done,
            line == (|preset: (Seq<char>, AgentIcon, Seq<char>)| agent_line(preset)),
            menu.deep_view() == head + all.take(done).map_values(line),
        decreases agents.len(),
    {
        let ghost before = menu.deep_view();
        let ghost left = agents.deep_view();
        let agent = agents.remove(0);
        proof {
            assert(left[0] == all[done]);
            assert(agents.deep_view() =~= left.drop_first());
            assert(left.drop_first() =~= all.skip(done + 1));
        }
        let ghost view = agent.deep_view();
        menu.push(AgentMenuLine::Agent(agent, Color::Muted));
        proof {
            assert(view == all[done]);
            assert(menu.deep_view() =~= before.push(agent_line(view)));
            assert(menu.deep_view() =~= head + all.take(done + 1).map_values(line));
            done = done + 1;
        }
    }
    assert(all.take(all.len() as int) =~= all);
}

/// The bytes that type a command into a terminal: the command and a carriage
/// return, which every shell takes as the end of it.
pub fn terminal_init_command_input(command: String) -> (input: Vec<u8>)
    ensures
        input@ == encode_utf8(command@).push(0x0d),
{
    let mut input = command.as_str().as_bytes_vec();
    input.push(0x0d);
    input
}

/// How a command reaches a terminal.
#[derive(Clone, Copy, Debug, PartialEq, Eq, Structural)]
pub enum InitDelivery {
    /// There is no shell to wait for.
    Now,
    /// Once the shell answers, or after so many milliseconds.
    AfterStartup { timeout_millis: u64 },
}

/// A real terminal is given time to start, or the command is typed into a shell
/// that is not listening yet.
pub fn init_delivery(is_pty: bool) -> (delivery: InitDelivery)
    ensures
        delivery == (if is_pty {
            InitDelivery::AfterStartup { timeout_millis: 5_000 }
        } else {
            InitDelivery::Now
        }),
{
    if is_pty {
        InitDelivery::AfterStartup { timeout_millis: 5_000 }
    } else {
        InitDelivery::Now
    }
}

} // verus!
