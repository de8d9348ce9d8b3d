//! The chat transcript: its entries, the events that fill it, and how its entries are shown.

use crate::gui::theme::DeepSeekColors;
use crate::swarm::types;
use crate::text;
use vstd::prelude::*;
use vstd::string::*;

verus! {

/// One entry in the chat transcript.
#[derive(Debug)]
pub enum ChatMessage {
    User { text: String },
    Assistant { text: String, thinking: Option<String> },
    ToolCall { name: String, input: String },
    ToolResult { name: String, output: String },
    SystemError { text: String },
}

/// The value of a [`ChatMessage`].
pub enum ChatMessageView {
    User { text: Seq<char> },
    Assistant { text: Seq<char>, thinking: Option<Seq<char>> },
    ToolCall { name: Seq<char>, input: Seq<char> },
    ToolResult { name: Seq<char>, output: Seq<char> },
    SystemError { text: Seq<char> },
}

impl View for ChatMessage {
    type V = ChatMessageView;

    open spec fn view(&self) -> ChatMessageView {
        match self {
            ChatMessage::User { text } => ChatMessageView::User { text: text@ },
            ChatMessage::Assistant { text, thinking } => ChatMessageView::Assistant {
                text: text@,
                thinking: types::optional_text(*thinking),
            },
            ChatMessage::ToolCall { name, input } => ChatMessageView::ToolCall {
                name: name@,
                input: input@,
            },
            ChatMessage::ToolResult { name, output } => ChatMessageView::ToolResult {
                name: name@,
                output: output@,
            },
            ChatMessage::SystemError { text } => ChatMessageView::SystemError { text: text@ },
        }
    }
}

impl Clone for ChatMessage {
    fn clone(&self) -> (r: Self)
        ensures
            r@ == self@,
    {
        match self {
            ChatMessage::User { text } => ChatMessage::User { text: text.clone() },
            ChatMessage::Assistant { text, thinking } => ChatMessage::Assistant {
                text: text.clone(),
                thinking: types::clone_optional(thinking),
            },
            ChatMessage::ToolCall { name, input } => ChatMessage::ToolCall {
                name: name.clone(),
                input: input.clone(),
            },
            ChatMessage::ToolResult { name, output } => ChatMessage::ToolResult {
                name: name.clone(),
                output: output.clone(),
            },
            ChatMessage::SystemError { text } => ChatMessage::SystemError { text: text.clone() },
        }
    }
}

/// The values of a list of entries.
pub open spec fn message_views(messages: Seq<ChatMessage>) -> Seq<ChatMessageView> {
    messages.map_values(|message: ChatMessage| message@)
}

/// A tool call that waits for the user to approve it.
#[derive(Debug)]
pub struct PendingApproval {
    pub id: String,
    pub tool_name: String,
    pub description: String,
}

/// The value of a [`PendingApproval`].
pub struct PendingApprovalView {
    pub id: Seq<char>,
    pub tool_name: Seq<char>,
    pub description: Seq<char>,
}

impl View for PendingApproval {
    type V = PendingApprovalView;

    open spec fn view(&self) -> PendingApprovalView {
        PendingApprovalView {
            id: self.id@,
            tool_name: self.tool_name@,
            description: self.description@,
        }
    }
}

/// The values of a list of approvals.
pub open spec fn approval_views(approvals: Seq<PendingApproval>) -> Seq<PendingApprovalView> {
    approvals.map_values(|approval: PendingApproval| approval@)
}

/// What the engine reports.
#[derive(Debug)]
pub enum EngineEvent {
    MessageStarted,
    MessageDelta { content: String },
    MessageComplete,
    ThinkingStarted,
    ThinkingDelta { content: String },
    ThinkingComplete,
    ToolCallStarted { name: String, input: String },
    ToolCallComplete { name: String, result: Result<String, String> },
    ApprovalRequired { id: String, tool_name: String, description: String },
    Status { message: String },
    Error { message: String },
    /// Anything that the chat does not show.
    Other,
}

/// The value of an [`EngineEvent`].
pub enum EngineEventView {
    MessageStarted,
    MessageDelta { content: Seq<char> },
    MessageComplete,
    ThinkingStarted,
    ThinkingDelta { content: Seq<char> },
    ThinkingComplete,
    ToolCallStarted { name: Seq<char>, input: Seq<char> },
    ToolCallComplete { name: Seq<char>, result: Result<Seq<char>, Seq<char>> },
    ApprovalRequired { id: Seq<char>, tool_name: Seq<char>, description: Seq<char> },
    Status { message: Seq<char> },
    Error { message: Seq<char> },
    Other,
}

impl View for EngineEvent {
    type V = EngineEventView;

    open spec fn view(&self) -> EngineEventView {
        match self {
            EngineEvent::MessageStarted => EngineEventView::MessageStarted,
            EngineEvent::MessageDelta { content } => EngineEventView::MessageDelta {
                content: content@,
            },
            EngineEvent::MessageComplete => EngineEventView::MessageComplete,
            EngineEvent::ThinkingStarted => EngineEventView::ThinkingStarted,
            EngineEvent::ThinkingDelta { content } => EngineEventView::ThinkingDelta {
                content: content@,
            },
            EngineEvent::ThinkingComplete => EngineEventView::ThinkingComplete,
            EngineEvent::ToolCallStarted { name, input } => EngineEventView::ToolCallStarted {
                name: name@,
                input: input@,
            },
            EngineEvent::ToolCallComplete { name, result } => EngineEventView::ToolCallComplete {
                name: name@,
                result: match result {
                    Ok(output) => Ok(output@),
                    Err(message) => Err(message@),
                },
            },
            EngineEvent::ApprovalRequired { id, tool_name, description } =>
            EngineEventView::ApprovalRequired {
                id: id@,
                tool_name: tool_name@,
                description: description@,
            },
            EngineEvent::Status { message } => EngineEventView::Status { message: message@ },
            EngineEvent::Error { message } => EngineEventView::Error { message: message@ },
            EngineEvent::Other => EngineEventView::Other,
        }
    }
}

/// The values of a list of events.
pub open spec fn event_views(events: Seq<EngineEvent>) -> Seq<EngineEventView> {
    events.map_values(|event: EngineEvent| event@)
}

/// Where the card of an entry stands.
#[derive(Clone, Copy, Debug, PartialEq, Eq, Structural)]
pub enum CardSide {
    Left,
    Right,
    Full,
}

/// One part of a card. A part with a heading can be folded under it.
#[derive(Debug)]
pub struct CardSection {
    pub heading: Option<String>,
    pub content: String,
    /// The color of the heading where there is one, else that of the content, as `0xRRGGBB`.
    pub color: u32,
    pub monospace: bool,
}

/// The value of a [`CardSection`].
pub struct CardSectionView {
    pub heading: Option<Seq<char>>,
    pub content: Seq<char>,
    pub color: u32,
    pub monospace: bool,
}

impl View for CardSection {
    type V = CardSectionView;

    open spec fn view(&self) -> CardSectionView {
        CardSectionView {
            heading: types::optional_text(self.heading),
            content: self.content@,
            color: self.color,
            monospace: self.monospace,
        }
    }
}

/// The values of a list of sections.
pub open spec fn section_views(sections: Seq<CardSection>) -> Seq<CardSectionView> {
    sections.map_values(|section: CardSection| section@)
}

/// The card of an entry. Colors are `0xRRGGBB`.
#[derive(Debug)]
pub struct MessageCard {
    pub side: CardSide,
    pub fill: u32,
    pub border: u32,
    /// Whether the card is a warning: it bears a sign, and its fill and border are faint.
    pub warning: bool,
    pub sections: Vec<CardSection>,
}

/// The value of a [`MessageCard`].
pub struct MessageCardView {
    pub side: CardSide,
    pub fill: u32,
    pub border: u32,
    pub warning: bool,
    pub sections: Seq<CardSectionView>,
}

impl View for MessageCard {
    type V = MessageCardView;

    open spec fn view(&self) -> MessageCardView {
        MessageCardView {
            side: self.side,
            fill: self.fill,
            border: self.border,
            warning: self.warning,
            sections: section_views(self.sections@),
        }
    }
}

/// A part without a heading.
pub open spec fn plain_section(content: Seq<char>, color: u32) -> CardSectionView {
    CardSectionView { heading: None, content, color, monospace: false }
}

/// A part under a heading.
pub open spec fn folded_section(
    heading: Seq<char>,
    content: Seq<char>,
    color: u32,
    monospace: bool,
) -> CardSectionView {
    CardSectionView { heading: Some(heading), content, color, monospace }
}

/// How an entry is shown.
pub open spec fn card(message: ChatMessageView) -> MessageCardView {
    match message {
        ChatMessageView::User { text } => MessageCardView {
            side: CardSide::Right,
            fill: DeepSeekColors::USER_BUBBLE,
            border: DeepSeekColors::BORDER,
            warning: false,
            sections: seq![plain_section(text, DeepSeekColors::TEXT_PRIMARY)],
        },
        ChatMessageView::Assistant { text, thinking } => MessageCardView {
            side: CardSide::Left,
            fill: DeepSeekColors::ASSISTANT_BUBBLE,
            border: DeepSeekColors::BORDER,
            warning: false,
            sections: match thinking {
                Some(thought) => seq![
                    folded_section("Thinking"@, thought, DeepSeekColors::THINKING, false),
                    plain_section(text, DeepSeekColors::TEXT_PRIMARY),
                ],
                None => seq![plain_section(text, DeepSeekColors::TEXT_PRIMARY)],
            },
        },
        ChatMessageView::ToolCall { name, input } => MessageCardView {
            side: CardSide::Full,
            fill: DeepSeekColors::SURFACE,
            border: DeepSeekColors::BORDER,
            warning: false,
            sections: seq![
                folded_section("Tool: "@ + name, input, DeepSeekColors::WARNING, true),
            ],
        },
        ChatMessageView::ToolResult { name, output } => MessageCardView {
            side: CardSide::Full,
            fill: DeepSeekColors::SURFACE,
            border: DeepSeekColors::BORDER,
            warning: false,
            sections: seq![
                folded_section("Result: "@ + name, output, DeepSeekColors::SUCCESS, true),
            ],
        },
        ChatMessageView::SystemError { text } => MessageCardView {
            side: CardSide::Full,
            fill: DeepSeekColors::ERROR,
            border: DeepSeekColors::ERROR,
            warning: true,
            sections: seq![plain_section(text, DeepSeekColors::ERROR)],
        },
    }
}

fn plain(content: &str, color: u32) -> (r: CardSection)
    ensures
        r@ == plain_section(content@, color),
{
    CardSection { heading: None, content: content.to_string(), color, monospace: false }
}

fn folded(heading: String, content: &str, color: u32, monospace: bool) -> (r: CardSection)
    ensures
        r@ == folded_section(heading@, content@, color, monospace),
{
    CardSection { heading: Some(heading), content: content.to_string(), color, monospace }
}

fn with_prefix(prefix: &str, name: &str) -> (r: String)
    ensures
        r@ == prefix@ + name@,
{
    let mut out: String = prefix.to_string();
    out.append(name);
    out
}

/// How an entry is shown.
pub fn message_card(message: &ChatMessage) -> (r: MessageCard)
    ensures
        r@ == card(message@),
{
    let mut sections: Vec<CardSection> = Vec::new();
    let (side, fill, border, warning): (CardSide, u32, u32, bool) = match message {
        ChatMessage::User { text } => {
            sections.push(plain(text.as_str(), DeepSeekColors::TEXT_PRIMARY));
            (CardSide::Right, DeepSeekColors::USER_BUBBLE, DeepSeekColors::BORDER, false)
        },
        ChatMessage::Assistant { text, thinking } => {
            if let Some(thought) = thinking {
                sections.push(
                    folded(
                        "Thinking".to_string(),
                        thought.as_str(),
                        DeepSeekColors::THINKING,
                        false,
                    ),
                );
            }
            sections.push(plain(text.as_str(), DeepSeekColors::TEXT_PRIMARY));
            (CardSide::Left, DeepSeekColors::ASSISTANT_BUBBLE, DeepSeekColors::BORDER, false)
        },
        ChatMessage::ToolCall { name, input } => {
            sections.push(
                folded(
                    with_prefix("Tool: ", name.as_str()),
                    input.as_str(),
                    DeepSeekColors::WARNING,
                    true,
                ),
            );
            (CardSide::Full, DeepSeekColors::SURFACE, DeepSeekColors::BORDER, false)
        },
        ChatMessage::ToolResult { name, output } => {
            sections.push(
                folded(
                    with_prefix("Result: ", name.as_str()),
                    output.as_str(),
                    DeepSeekColors::SUCCESS,
                    true,
                ),
            );
            (CardSide::Full, DeepSeekColors::SURFACE, DeepSeekColors::BORDER, false)
        },
        ChatMessage::SystemError { text } => {
            sections.push(plain(text.as_str(), DeepSeekColors::ERROR));
            (CardSide::Full, DeepSeekColors::ERROR, DeepSeekColors::ERROR, true)
        },
    };
    assert(section_views(sections@) =~= card(message@).sections);
    MessageCard { side, fill, border, warning, sections }
}

/// What is shown of a reply in progress: the thoughts so far, if there are any, and the text so
/// far, or three dots.
pub open spec fn progress_sections(text: Seq<char>, thinking: Seq<char>) -> Seq<CardSectionView> {
    let reply = if text.len() > 0 {
        plain_section(text, DeepSeekColors::TEXT_PRIMARY)
    } else {
        plain_section("● ● ●"@, DeepSeekColors::TEXT_SECONDARY)
    };
    if thinking.len() > 0 {
        seq![plain_section(thinking, DeepSeekColors::THINKING), reply]
    } else {
        seq![reply]
    }
}

/// What is shown of a reply in progress.
pub fn in_progress_sections(text: &str, thinking: &str) -> (r: Vec<CardSection>)
    ensures
        section_views(r@) == progress_sections(text@, thinking@),
{
    let mut sections: Vec<CardSection> = Vec::new();
    if !thinking.is_empty() {
        sections.push(plain(thinking, DeepSeekColors::THINKING));
    }
    if !text.is_empty() {
        sections.push(plain(text, DeepSeekColors::TEXT_PRIMARY));
    } else {
        sections.push(plain("● ● ●", DeepSeekColors::TEXT_SECONDARY));
    }
    assert(section_views(sections@) =~= progress_sections(text@, thinking@));
    sections
}

/// Every entry is shown with its own text, as the last part of its card. What the user said stands on
/// the right and a reply on the left; a reply is preceded by the thinking that it came with. Only the
/// work of tools is shown folded in a fixed font, under the name of the tool, and only an error as a
/// warning.
pub proof fn cards_show_their_entry(message: ChatMessageView)
    ensures
        ({
            let c = card(message);
            let last = c.sections.last();
            let is_tool = message is ToolCall || message is ToolResult;
            &&& message matches ChatMessageView::User { text } ==> last.content == text
            &&& message matches ChatMessageView::Assistant { text, .. } ==> last.content == text
            &&& message matches ChatMessageView::ToolCall { input, .. } ==> last.content == input
            &&& message matches ChatMessageView::ToolResult { output, .. } ==> last.content
                == output
            &&& message matches ChatMessageView::SystemError { text } ==> last.content == text
            &&& c.side == CardSide::Right <==> message is User
            &&& c.side == CardSide::Left <==> message is Assistant
            &&& c.side == CardSide::Full <==> is_tool || message is SystemError
            &&& c.warning <==> message is SystemError
            &&& last.monospace <==> is_tool
            &&& last.heading is Some <==> is_tool
            &&& message matches ChatMessageView::ToolCall { name, .. } ==> last.heading == Some(
                "Tool: "@ + name,
            )
            &&& message matches ChatMessageView::ToolResult { name, .. } ==> last.heading == Some(
                "Result: "@ + name,
            )
            &&& c.sections.len() == (if message is Assistant && message->thinking is Some {
                2int
            } else {
                1int
            })
            &&& message is Assistant && message->thinking is Some ==> c.sections[0].content
                == message->thinking->0 && c.sections[0].heading == Some("Thinking"@)
        }),
{
}

/// The cards have the colors of the theme: blue for the user, the raised surface for a reply, red for
/// an error. The parts of tools have the colors of a warning and of success.
pub proof fn cards_have_their_colors(message: ChatMessageView)
    ensures
        ({
            let c = card(message);
            let last = c.sections.last();
            &&& message is User ==> c.fill == 0x1f6feb && last.color == 0xc9d1d9
            &&& message is Assistant ==> c.fill == 0x21262d && last.color == 0xc9d1d9
            &&& message is ToolCall ==> c.fill == 0x161b22 && last.color == 0xd29922
            &&& message is ToolResult ==> c.fill == 0x161b22 && last.color == 0x3fb950
            &&& message is SystemError ==> c.fill == 0xf85149 && c.border == 0xf85149 && last.color
                == 0xf85149
            &&& message !is SystemError ==> c.border == 0x21262d
            &&& message is Assistant && message->thinking is Some ==> c.sections[0].color
                == 0x8b949e
        }),
{
}

/// A reply in progress shows the thinking so far, if there is any, and then the text so far, or dots
/// in its place.
pub proof fn progress_shows_what_is_there(text: Seq<char>, thinking: Seq<char>)
    ensures
        ({
            let parts = progress_sections(text, thinking);
            &&& parts.len() == (if thinking.len() > 0 {
                2int
            } else {
                1int
            })
            &&& thinking.len() > 0 ==> parts[0].content == thinking
            &&& text.len() > 0 ==> parts.last().content == text
            &&& text.len() == 0 ==> parts.last().content == "● ● ●"@
            &&& forall|i: int|
                0 <= i < parts.len() ==> (#[trigger] parts[i]).heading is None
                    && !parts[i].monospace
        }),
{
}

} // verus!
