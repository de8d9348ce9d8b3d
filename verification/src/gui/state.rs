//! The state of the desktop client.

use crate::gui::chat;
use crate::gui::chat::{
    ChatMessage, ChatMessageView, EngineEvent, EngineEventView, PendingApproval,
    PendingApprovalView,
};
use crate::gui::errors;
use crate::gui::tabs::{Editor, EditorView};
use crate::gui::theme::{DeepSeekColors, WHITE};
use crate::text;
use vstd::prelude::*;
use vstd::string::*;

verus! {

/// The state of the desktop client.
#[derive(Debug)]
pub struct GuiApp {
    /// Whether there is an engine to send messages to.
    pub engine_ready: bool,
    pub messages: Vec<ChatMessage>,
    pub input: String,
    pub is_streaming: bool,
    pub current_thinking: String,
    pub current_assistant_text: String,
    pub status: String,
    pub pending_approvals: Vec<PendingApproval>,
    pub show_settings: bool,
    pub settings_api_key: String,
    pub settings_model: String,
    pub should_scroll_to_bottom: bool,
    pub workspace_path: String,
    pub editor: Editor,
}

/// The value of a [`GuiApp`].
#[verifier::ext_equal]
pub struct GuiAppView {
    pub engine_ready: bool,
    pub messages: Seq<ChatMessageView>,
    pub input: Seq<char>,
    pub is_streaming: bool,
    pub current_thinking: Seq<char>,
    pub current_assistant_text: Seq<char>,
    pub status: Seq<char>,
    pub pending_approvals: Seq<PendingApprovalView>,
    pub show_settings: bool,
    pub settings_api_key: Seq<char>,
    pub settings_model: Seq<char>,
    pub should_scroll_to_bottom: bool,
    pub workspace_path: Seq<char>,
    pub editor: EditorView,
}

impl View for GuiApp {
    type V = GuiAppView;

    open spec fn view(&self) -> GuiAppView {
        GuiAppView {
            engine_ready: self.engine_ready,
            messages: chat::message_views(self.messages@),
            input: self.input@,
            is_streaming: self.is_streaming,
            current_thinking: self.current_thinking@,
            current_assistant_text: self.current_assistant_text@,
            status: self.status@,
            pending_approvals: chat::approval_views(self.pending_approvals@),
            show_settings: self.show_settings,
            settings_api_key: self.settings_api_key@,
            settings_model: self.settings_model@,
            should_scroll_to_bottom: self.should_scroll_to_bottom,
            workspace_path: self.workspace_path@,
            editor: self.editor@,
        }
    }
}

/// How the start of an engine went.
#[derive(Debug)]
pub enum EngineStart {
    Ready,
    /// The engine did not start, for this reason.
    EngineFailed(String),
    /// The configuration could not be read, for this reason.
    ConfigFailed(String),
}

/// The answer to a pending approval.
#[derive(Debug)]
pub struct ApprovalReply {
    pub id: String,
    pub approved: bool,
}

/// The value of an [`ApprovalReply`].
pub struct ApprovalReplyView {
    pub id: Seq<char>,
    pub approved: bool,
}

impl View for ApprovalReply {
    type V = ApprovalReplyView;

    open spec fn view(&self) -> ApprovalReplyView {
        ApprovalReplyView { id: self.id@, approved: self.approved }
    }
}

/// The values of a list of replies.
pub open spec fn reply_views(replies: Seq<ApprovalReply>) -> Seq<ApprovalReplyView> {
    replies.map_values(|reply: ApprovalReply| reply@)
}

/// What came of decisions on pending approvals.
#[derive(Debug)]
pub struct ResolvedApprovals {
    /// What has to be handed to the engine.
    pub replies: Vec<ApprovalReply>,
    /// Whether any approval was acted upon.
    pub acted: bool,
}

/// Whether decisions can be taken on pending approvals: taken from the last to the first, each is
/// about an approval that is still there.
pub open spec fn can_decide(
    approvals: Seq<PendingApprovalView>,
    decisions: Seq<(usize, bool)>,
) -> bool
    decreases decisions.len(),
{
    decisions.len() > 0 ==> {
        &&& decisions.last().0 < approvals.len()
        &&& can_decide(approvals.remove(decisions.last().0 as int), decisions.drop_last())
    }
}

/// The approvals that are left after decisions, taken from the last to the first.
pub open spec fn undecided(
    approvals: Seq<PendingApprovalView>,
    decisions: Seq<(usize, bool)>,
) -> Seq<PendingApprovalView>
    decreases decisions.len(),
{
    if decisions.len() == 0 {
        approvals
    } else {
        undecided(approvals.remove(decisions.last().0 as int), decisions.drop_last())
    }
}

/// The replies to decisions, taken from the last to the first.
pub open spec fn decided(
    approvals: Seq<PendingApprovalView>,
    decisions: Seq<(usize, bool)>,
) -> Seq<ApprovalReplyView>
    decreases decisions.len(),
{
    if decisions.len() == 0 {
        seq![]
    } else {
        let (index, approved) = decisions.last();
        seq![ApprovalReplyView { id: approvals[index as int].id, approved }] + decided(
            approvals.remove(index as int),
            decisions.drop_last(),
        )
    }
}

impl GuiAppView {
    /// The client when it starts.
    pub open spec fn initial(
        engine_ready: bool,
        default_model: Seq<char>,
        workspace_path: Seq<char>,
    ) -> GuiAppView {
        GuiAppView {
            engine_ready,
            messages: seq![],
            input: seq![],
            is_streaming: false,
            current_thinking: seq![],
            current_assistant_text: seq![],
            status: if engine_ready {
                "Ready"@
            } else {
                "Config error — check API key"@
            },
            pending_approvals: seq![],
            show_settings: false,
            settings_api_key: seq![],
            settings_model: default_model,
            should_scroll_to_bottom: false,
            workspace_path,
            editor: EditorView::blank(),
        }
    }

    /// The client with one more entry in the transcript, which scrolls into view.
    pub open spec fn with_message(self, message: ChatMessageView) -> GuiAppView {
        GuiAppView {
            messages: self.messages.push(message),
            should_scroll_to_bottom: true,
            ..self
        }
    }

    /// The client after its reply is complete: it goes into the transcript, if it is not empty.
    pub open spec fn completed(self) -> GuiAppView {
        let recorded = if self.current_assistant_text.len() > 0 {
            GuiAppView {
                messages: self.messages.push(
                    ChatMessageView::Assistant {
                        text: self.current_assistant_text,
                        thinking: if self.current_thinking.len() == 0 {
                            None
                        } else {
                            Some(self.current_thinking)
                        },
                    },
                ),
                current_assistant_text: seq![],
                current_thinking: seq![],
                ..self
            }
        } else {
            self
        };
        GuiAppView {
            is_streaming: false,
            status: "Ready"@,
            should_scroll_to_bottom: true,
            ..recorded
        }
    }

    /// The client after an event of the engine.
    pub open spec fn after(self, event: EngineEventView) -> GuiAppView {
        match event {
            EngineEventView::MessageStarted => GuiAppView {
                is_streaming: true,
                current_assistant_text: seq![],
                current_thinking: seq![],
                should_scroll_to_bottom: true,
                ..self
            },
            EngineEventView::MessageDelta { content } => GuiAppView {
                current_assistant_text: self.current_assistant_text + content,
                should_scroll_to_bottom: true,
                ..self
            },
            EngineEventView::MessageComplete => self.completed(),
            EngineEventView::ThinkingStarted => GuiAppView {
                current_thinking: seq![],
                should_scroll_to_bottom: true,
                ..self
            },
            EngineEventView::ThinkingDelta { content } => GuiAppView {
                current_thinking: self.current_thinking + content,
                should_scroll_to_bottom: true,
                ..self
            },
            EngineEventView::ThinkingComplete => GuiAppView {
                should_scroll_to_bottom: true,
                ..self
            },
            EngineEventView::ToolCallStarted { name, input } => self.with_message(
                ChatMessageView::ToolCall { name, input },
            ),
            EngineEventView::ToolCallComplete { name, result } => self.with_message(
                ChatMessageView::ToolResult {
                    name,
                    output: match result {
                        Ok(output) => output,
                        Err(message) => "Error: "@ + message,
                    },
                },
            ),
            EngineEventView::ApprovalRequired { id, tool_name, description } => GuiAppView {
                pending_approvals: self.pending_approvals.push(
                    PendingApprovalView { id, tool_name, description },
                ),
                ..self
            },
            EngineEventView::Status { message } => GuiAppView { status: message, ..self },
            EngineEventView::Error { message } => {
                let told = errors::friendly(message, errors::lowercase(message));
                GuiAppView { status: told, is_streaming: false, ..self }.with_message(
                    ChatMessageView::SystemError { text: told },
                )
            },
            EngineEventView::Other => self,
        }
    }

    /// The client after some events of the engine.
    pub open spec fn after_all(self, events: Seq<EngineEventView>) -> GuiAppView
        decreases events.len(),
    {
        if events.len() == 0 {
            self
        } else {
            self.after_all(events.drop_last()).after(events.last())
        }
    }

    /// The text that would be sent: the input without outer whitespace, while no reply streams.
    pub open spec fn outgoing(self) -> Option<Seq<char>> {
        if self.is_streaming || text::trimmed(self.input).len() == 0 {
            None
        } else {
            Some(text::trimmed(self.input))
        }
    }

    /// The client after its user sent the input.
    pub open spec fn sent(self) -> GuiAppView {
        match self.outgoing() {
            Some(content) => {
                let asked = GuiAppView { input: seq![], status: "Thinking..."@, ..self }.with_message(
                    ChatMessageView::User { text: content },
                );
                if self.engine_ready {
                    asked
                } else {
                    GuiAppView { status: "Engine not ready"@, ..asked }.with_message(
                        ChatMessageView::SystemError {
                            text: "Engine not ready. Please set your API key in Settings (⚙) and save."@,
                        },
                    )
                }
            },
            None => self,
        }
    }

    /// The client after its engine was started anew.
    pub open spec fn restarted(self, start: EngineStart) -> GuiAppView {
        GuiAppView {
            engine_ready: start is Ready,
            status: match start {
                EngineStart::Ready => "Ready"@,
                EngineStart::EngineFailed(reason) => "Engine start failed: "@ + reason@,
                EngineStart::ConfigFailed(reason) => "Config reload failed: "@ + reason@,
            },
            ..self
        }
    }
}

fn told(prefix: &str, reason: &str) -> (r: String)
    ensures
        r@ == prefix@ + reason@,
{
    let mut out: String = prefix.to_string();
    out.append(reason);
    out
}

impl GuiApp {
    /// The invariant of the client.
    pub open spec fn wf(self) -> bool {
        self.editor.wf()
    }

    /// The client when it starts.
    pub fn new(engine_ready: bool, default_model: String, workspace_path: String) -> (app: GuiApp)
        ensures
            app.wf(),
            app@ == GuiAppView::initial(engine_ready, default_model@, workspace_path@),
    {
        let app: GuiApp = GuiApp {
            engine_ready,
            messages: Vec::new(),
            input: String::new(),
            is_streaming: false,
            current_thinking: String::new(),
            current_assistant_text: String::new(),
            status: if engine_ready {
                "Ready".to_string()
            } else {
                "Config error — check API key".to_string()
            },
            pending_approvals: Vec::new(),
            show_settings: false,
            settings_api_key: String::new(),
            settings_model: default_model,
            should_scroll_to_bottom: false,
            workspace_path,
            editor: Editor::new(),
        };
        assert(app@ =~= GuiAppView::initial(engine_ready, default_model@, workspace_path@));
        app
    }

    /// Adds an entry to the transcript, and has it scroll into view.
    fn add_message(&mut self, message: ChatMessage)
        ensures
            final(self).editor == old(self).editor,
            final(self)@ == old(self)@.with_message(message@),
    {
        let ghost value = message@;
        self.messages.push(message);
        self.should_scroll_to_bottom = true;
        assert(self@ =~= old(self)@.with_message(value));
    }

    /// Completes the reply.
    fn complete_reply(&mut self)
        ensures
            final(self).editor == old(self).editor,
            final(self)@ == old(self)@.completed(),
    {
        self.is_streaming = false;
        if !self.current_assistant_text.as_str().is_empty() {
            let thinking: Option<String> = if self.current_thinking.as_str().is_empty() {
                None
            } else {
                Some(self.current_thinking.clone())
            };
            self.messages.push(
                ChatMessage::Assistant { text: self.current_assistant_text.clone(), thinking },
            );
            self.current_assistant_text = String::new();
            self.current_thinking = String::new();
        }
        self.status = "Ready".to_string();
        self.should_scroll_to_bottom = true;
        assert(self@ =~= old(self)@.completed());
    }

    /// Takes an event of the engine.
    pub fn apply_event(&mut self, event: EngineEvent)
        requires
            old(self).wf(),
        ensures
            final(self).wf(),
            final(self)@ == old(self)@.after(event@),
    {
        let ghost before = self@;
        let ghost value = event@;
        match event {
            EngineEvent::MessageStarted => {
                self.is_streaming = true;
                self.current_assistant_text = String::new();
                self.current_thinking = String::new();
                self.should_scroll_to_bottom = true;
            },
            EngineEvent::MessageDelta { content } => {
                self.current_assistant_text.append(content.as_str());
                self.should_scroll_to_bottom = true;
            },
            EngineEvent::MessageComplete => self.complete_reply(),
            EngineEvent::ThinkingStarted => {
                self.current_thinking = String::new();
                self.should_scroll_to_bottom = true;
            },
            EngineEvent::ThinkingDelta { content } => {
                self.current_thinking.append(content.as_str());
                self.should_scroll_to_bottom = true;
            },
            EngineEvent::ThinkingComplete => {
                self.should_scroll_to_bottom = true;
            },
            EngineEvent::ToolCallStarted { name, input } => self.add_message(
                ChatMessage::ToolCall { name, input },
            ),
            EngineEvent::ToolCallComplete { name, result } => {
                let output: String = match result {
                    Ok(output) => output,
                    Err(message) => told("Error: ", message.as_str()),
                };
                self.add_message(ChatMessage::ToolResult { name, output });
            },
            EngineEvent::ApprovalRequired { id, tool_name, description } => {
                self.pending_approvals.push(PendingApproval { id, tool_name, description });
            },
            EngineEvent::Status { message } => {
                self.status = message;
            },
            EngineEvent::Error { message } => {
                let friendly: String = errors::friendly_error_message(message.as_str());
                self.status = friendly.clone();
                self.is_streaming = false;
                self.add_message(ChatMessage::SystemError { text: friendly });
            },
            EngineEvent::Other => {},
        }
        assert(self@ =~= before.after(value));
    }

    /// Takes all events that the engine has reported.
    pub fn poll_engine_events(&mut self, events: Vec<EngineEvent>)
        requires
            old(self).wf(),
        ensures
            final(self).wf(),
            final(self)@ == old(self)@.after_all(chat::event_views(events@)),
    {
        let ghost before = self@;
        let ghost views = chat::event_views(events@);
        assert(views.take(0) =~= Seq::<EngineEventView>::empty());
        for event in it: events
            invariant
                it.seq() == events@,
                views == chat::event_views(events@),
                self.wf(),
                self@ == before.after_all(views.take(it.index())),
        {
            proof {
                let i = it.index();
                assert(views.take(i + 1).drop_last() =~= views.take(i));
                assert(views.take(i + 1).last() == event@);
            }
            self.apply_event(event);
        }
        assert(views.take(views.len() as int) =~= views);
    }

    /// Sends the input. What comes back has to be handed to the engine.
    pub fn send_message(&mut self) -> (outgoing: Option<String>)
        requires
            old(self).wf(),
        ensures
            final(self).wf(),
            final(self)@ == old(self)@.sent(),
            match outgoing {
                Some(content) => old(self)@.engine_ready && old(self)@.outgoing() == Some(content@),
                None => !old(self)@.engine_ready || old(self)@.outgoing() is None,
            },
    {
        let ghost before = self@;
        if self.is_streaming {
            return None;
        }
        let content: String = text::trim(self.input.as_str()).to_string();
        if content.as_str().is_empty() {
            return None;
        }
        self.input = String::new();
        self.status = "Thinking...".to_string();
        self.add_message(ChatMessage::User { text: content.clone() });
        if self.engine_ready {
            assert(self@ =~= before.sent());
            Some(content)
        } else {
            self.status = "Engine not ready".to_string();
            self.add_message(
                ChatMessage::SystemError {
                    text: "Engine not ready. Please set your API key in Settings (⚙) and save.".to_string(),
                },
            );
            assert(self@ =~= before.sent());
            None
        }
    }

    /// Takes note of how the start of a new engine went, after the old one was cancelled.
    pub fn restart_engine(&mut self, start: EngineStart)
        requires
            old(self).wf(),
        ensures
            final(self).wf(),
            final(self)@ == old(self)@.restarted(start),
    {
        match &start {
            EngineStart::Ready => {
                self.engine_ready = true;
                self.status = "Ready".to_string();
            },
            EngineStart::EngineFailed(reason) => {
                self.engine_ready = false;
                self.status = told("Engine start failed: ", reason.as_str());
            },
            EngineStart::ConfigFailed(reason) => {
                self.engine_ready = false;
                self.status = told("Config reload failed: ", reason.as_str());
            },
        }
        assert(self@ =~= old(self)@.restarted(start));
    }

    /// Shows or hides the settings window.
    pub fn set_settings_visible(&mut self, visible: bool)
        requires
            old(self).wf(),
        ensures
            final(self).wf(),
            final(self)@ == (GuiAppView { show_settings: visible, ..old(self)@ }),
    {
        self.show_settings = visible;
        assert(self@ =~= GuiAppView { show_settings: visible, ..old(self)@ });
    }

    /// Takes note of how saving the settings went, and says whether the engine has to be started
    /// anew.
    pub fn settings_saved(&mut self, result: Result<(), String>) -> (restart: bool)
        requires
            old(self).wf(),
        ensures
            final(self).wf(),
            restart == (result is Ok),
            final(self)@ == (match result {
                Ok(_) => GuiAppView {
                    status: "Settings saved, restarting engine..."@,
                    show_settings: false,
                    ..old(self)@
                },
                Err(reason) => GuiAppView { status: "Save failed: "@ + reason@, ..old(self)@ },
            }),
    {
        let ghost before = self@;
        match result {
            Ok(_) => {
                self.status = "Settings saved, restarting engine...".to_string();
                self.show_settings = false;
                assert(self@ =~= GuiAppView {
                    status: "Settings saved, restarting engine..."@,
                    show_settings: false,
                    ..before
                });
                true
            },
            Err(reason) => {
                self.status = told("Save failed: ", reason.as_str());
                assert(self@ =~= GuiAppView { status: "Save failed: "@ + reason@, ..before });
                false
            },
        }
    }

    /// Takes decisions on pending approvals, given by position and in the order of the list. The
    /// replies have to be handed to the engine; without an engine there are none. Also says whether
    /// any approval was acted upon.
    pub fn resolve_approvals(&mut self, decisions: Vec<(usize, bool)>) -> (r: ResolvedApprovals)
        requires
            old(self).wf(),
            can_decide(old(self)@.pending_approvals, decisions@),
        ensures
            final(self).wf(),
            final(self)@ == (GuiAppView {
                pending_approvals: undecided(old(self)@.pending_approvals, decisions@),
                ..old(self)@
            }),
            reply_views(r.replies@) == (if old(self)@.engine_ready {
                decided(old(self)@.pending_approvals, decisions@)
            } else {
                seq![]
            }),
            r.acted == (decisions@.len() > 0),
    {
        let ghost before = self@;
        let mut replies: Vec<ApprovalReply> = Vec::new();
        let mut n: usize = decisions.len();
        assert(decisions@.take(n as int) =~= decisions@);
        assert(reply_views(replies@) =~= Seq::<ApprovalReplyView>::empty());
        assert(Seq::<ApprovalReplyView>::empty() + decided(before.pending_approvals, decisions@)
            =~= decided(before.pending_approvals, decisions@));
        while n > 0
            invariant
                n <= decisions@.len(),
                self.wf(),
                can_decide(self@.pending_approvals, decisions@.take(n as int)),
                self@ == (GuiAppView { pending_approvals: self@.pending_approvals, ..before }),
                undecided(self@.pending_approvals, decisions@.take(n as int)) == undecided(
                    before.pending_approvals,
                    decisions@,
                ),
                before.engine_ready ==> reply_views(replies@) + decided(
                    self@.pending_approvals,
                    decisions@.take(n as int),
                ) == decided(before.pending_approvals, decisions@),
                !before.engine_ready ==> reply_views(replies@).len() == 0,
            decreases n,
        {
            let ghost list = self@.pending_approvals;
            let ghost all = self.pending_approvals@;
            let ghost made = reply_views(replies@);
            assert(decisions@.take(n as int).drop_last() =~= decisions@.take(n - 1));
            assert(decisions@.take(n as int).last() == decisions@[n - 1]);
            n -= 1;
            let (index, approved): (usize, bool) = decisions[n];
            let approval: PendingApproval = self.pending_approvals.remove(index);
            assert(self@.pending_approvals =~= list.remove(index as int));
            if self.engine_ready {
                let ghost id = approval.id@;
                replies.push(ApprovalReply { id: approval.id, approved });
                assert(reply_views(replies@) =~= made.push(ApprovalReplyView { id, approved }));
                assert(made.push(ApprovalReplyView { id, approved }) + decided(
                    self@.pending_approvals,
                    decisions@.take(n as int),
                ) =~= made + decided(list, decisions@.take(n + 1)));
            }
        }
        assert(decisions@.take(0) =~= Seq::<(usize, bool)>::empty());
        assert(before.engine_ready ==> reply_views(replies@) =~= decided(
            before.pending_approvals,
            decisions@,
        ));
        assert(!before.engine_ready ==> reply_views(replies@) =~= Seq::<
            ApprovalReplyView,
        >::empty());
        ResolvedApprovals { replies, acted: decisions.len() > 0 }
    }

    /// Takes a file that was read, or the reason why it could not be. The reason is shown where the
    /// user asked for the file by name.
    pub fn file_read(&mut self, path: String, result: Result<String, String>, by_name: bool)
        requires
            old(self).wf(),
            old(self)@.editor.position(path@) is None,
        ensures
            final(self).wf(),
            final(self)@ == (match result {
                Ok(content) => GuiAppView {
                    editor: old(self)@.editor.opened(path@, content@),
                    ..old(self)@
                },
                Err(reason) => if by_name {
                    GuiAppView { status: "Failed to read file: "@ + reason@, ..old(self)@ }
                } else {
                    old(self)@
                },
            }),
    {
        let ghost before = self@;
        match result {
            Ok(content) => {
                self.editor.open_file(path, content);
                assert(self@ =~= GuiAppView {
                    editor: before.editor.opened(path@, content@),
                    ..before
                });
            },
            Err(reason) => {
                if by_name {
                    self.status = told("Failed to read file: ", reason.as_str());
                    assert(self@ =~= GuiAppView {
                        status: "Failed to read file: "@ + reason@,
                        ..before
                    });
                }
            },
        }
    }

    /// Takes note of how saving the active file went.
    pub fn save_current_file(&mut self, result: Result<(), String>)
        requires
            old(self).wf(),
            old(self)@.editor.files.len() > 0,
        ensures
            final(self).wf(),
            final(self)@ == (match result {
                Ok(_) => GuiAppView {
                    status: "File saved"@,
                    editor: old(self)@.editor.saved(),
                    ..old(self)@
                },
                Err(reason) => GuiAppView { status: "Save failed: "@ + reason@, ..old(self)@ },
            }),
    {
        let ghost before = self@;
        match result {
            Ok(_) => {
                self.editor.mark_saved();
                self.status = "File saved".to_string();
                assert(self@ =~= GuiAppView {
                    status: "File saved"@,
                    editor: before.editor.saved(),
                    ..before
                });
            },
            Err(reason) => {
                self.status = told("Save failed: ", reason.as_str());
                assert(self@ =~= GuiAppView { status: "Save failed: "@ + reason@, ..before });
            },
        }
    }

    /// Takes the folder that was opened; the engine has to be started anew.
    pub fn change_workspace(&mut self, path: String)
        requires
            old(self).wf(),
        ensures
            final(self).wf(),
            final(self)@ == (GuiAppView {
                workspace_path: path@,
                messages: old(self)@.messages.push(
                    ChatMessageView::SystemError { text: "Workspace changed to: "@ + path@ },
                ),
                ..old(self)@
            }),
    {
        let ghost before = self@;
        let ghost folder = path@;
        self.messages.push(
            ChatMessage::SystemError { text: told("Workspace changed to: ", path.as_str()) },
        );
        self.workspace_path = path;
        assert(self@ =~= GuiAppView {
            workspace_path: folder,
            messages: before.messages.push(
                ChatMessageView::SystemError { text: "Workspace changed to: "@ + folder },
            ),
            ..before
        });
    }

    /// Empties the transcript; a new session scrolls to its end.
    pub fn clear_messages(&mut self, new_session: bool)
        requires
            old(self).wf(),
        ensures
            final(self).wf(),
            final(self)@ == (GuiAppView {
                messages: seq![],
                should_scroll_to_bottom: old(self)@.should_scroll_to_bottom || new_session,
                ..old(self)@
            }),
    {
        let ghost before = self@;
        self.messages.clear();
        if new_session {
            self.should_scroll_to_bottom = true;
        }
        assert(self@ =~= GuiAppView {
            messages: seq![],
            should_scroll_to_bottom: before.should_scroll_to_bottom || new_session,
            ..before
        });
    }

    /// Says whether the transcript has to scroll to its end, once.
    pub fn take_scroll(&mut self) -> (scroll: bool)
        requires
            old(self).wf(),
        ensures
            final(self).wf(),
            scroll == old(self)@.should_scroll_to_bottom,
            final(self)@ == (GuiAppView { should_scroll_to_bottom: false, ..old(self)@ }),
    {
        let scroll: bool = self.should_scroll_to_bottom;
        self.should_scroll_to_bottom = false;
        assert(self@ =~= GuiAppView { should_scroll_to_bottom: false, ..old(self)@ });
        scroll
    }

    /// Whether a reply in progress is shown.
    pub fn shows_progress(&self) -> (r: bool)
        ensures
            r == (self@.is_streaming || self@.current_assistant_text.len() > 0
                || self@.current_thinking.len() > 0),
    {
        self.is_streaming || !self.current_assistant_text.as_str().is_empty()
            || !self.current_thinking.as_str().is_empty()
    }

    /// The status in the header of the chat, and its color as `0xRRGGBB`.
    pub fn status_label(&self) -> (r: (String, u32))
        ensures
            r.0@ == (if self@.is_streaming {
                "● Generating"@
            } else {
                self@.status
            }),
            r.1 == (if self@.is_streaming {
                DeepSeekColors::ACCENT
            } else if text::has_prefix(self@.status, "Error"@) || text::has_prefix(
                self@.status,
                "Config error"@,
            ) {
                DeepSeekColors::ERROR
            } else {
                DeepSeekColors::SUCCESS
            }),
    {
        if self.is_streaming {
            ("● Generating".to_string(), DeepSeekColors::ACCENT)
        } else if text::starts_with(self.status.as_str(), "Error") || text::starts_with(
            self.status.as_str(),
            "Config error",
        ) {
            (self.status.clone(), DeepSeekColors::ERROR)
        } else {
            (self.status.clone(), DeepSeekColors::SUCCESS)
        }
    }

    /// The colors of the button that sends the input and of its sign, as `0xRRGGBB`: faint while a
    /// reply streams.
    pub fn send_button_colors(&self) -> (r: (u32, u32))
        ensures
            r == (if self@.is_streaming {
                (DeepSeekColors::TEXT_SECONDARY, DeepSeekColors::BORDER)
            } else {
                (DeepSeekColors::ACCENT, WHITE)
            }),
    {
        if self.is_streaming {
            (DeepSeekColors::TEXT_SECONDARY, DeepSeekColors::BORDER)
        } else {
            (DeepSeekColors::ACCENT, WHITE)
        }
    }
}

/// While a reply streams, sending does nothing: the input stays, and the transcript too.
pub proof fn sending_waits_for_the_reply(app: GuiAppView)
    requires
        app.is_streaming,
    ensures
        app.sent() == app,
{
}

/// Events never take back what is in the transcript.
pub proof fn transcript_only_grows(app: GuiAppView, events: Seq<EngineEventView>)
    ensures
        app.messages.is_prefix_of(app.after_all(events).messages),
    decreases events.len(),
{
    if events.len() > 0 {
        transcript_only_grows(app, events.drop_last());
        let mid = app.after_all(events.drop_last());
        let after = mid.after(events.last());
        assert(mid.messages.is_prefix_of(after.messages));
        assert(app.messages =~= after.messages.take(app.messages.len() as int)) by {
            assert(app.messages =~= mid.messages.take(app.messages.len() as int));
        }
    }
}

/// The events of a reply that comes in pieces.
pub open spec fn streamed(pieces: Seq<Seq<char>>) -> Seq<EngineEventView> {
    seq![EngineEventView::MessageStarted] + pieces.map_values(
        |content: Seq<char>| EngineEventView::MessageDelta { content },
    )
}

/// The pieces of a reply, put together.
pub open spec fn whole(pieces: Seq<Seq<char>>) -> Seq<char>
    decreases pieces.len(),
{
    if pieces.len() == 0 {
        seq![]
    } else {
        whole(pieces.drop_last()) + pieces.last()
    }
}

proof fn lemma_streamed(app: GuiAppView, pieces: Seq<Seq<char>>)
    ensures
        app.after_all(streamed(pieces)).current_assistant_text == whole(pieces),
        app.after_all(streamed(pieces)).current_thinking.len() == 0,
        app.after_all(streamed(pieces)).messages == app.messages,
        app.after_all(streamed(pieces)).is_streaming,
    decreases pieces.len(),
{
    let events = streamed(pieces);
    if pieces.len() == 0 {
        assert(events.drop_last() =~= Seq::<EngineEventView>::empty());
        reveal_with_fuel(GuiAppView::after_all, 2);
    } else {
        lemma_streamed(app, pieces.drop_last());
        assert(events.drop_last() =~= streamed(pieces.drop_last()));
    }
}

/// A reply that comes in pieces ends up in the transcript as a whole, and the client waits for
/// nothing any more.
pub proof fn streamed_reply_is_recorded(app: GuiAppView, pieces: Seq<Seq<char>>)
    requires
        whole(pieces).len() > 0,
    ensures
        ({
            let after = app.after_all(streamed(pieces).push(EngineEventView::MessageComplete));
            &&& after.messages == app.messages.push(
                ChatMessageView::Assistant { text: whole(pieces), thinking: None },
            )
            &&& !after.is_streaming
            &&& after.current_assistant_text.len() == 0
            &&& after.status == "Ready"@
        }),
{
    lemma_streamed(app, pieces);
    let events = streamed(pieces).push(EngineEventView::MessageComplete);
    assert(events.drop_last() =~= streamed(pieces));
}

/// Decisions on different approvals, in the order of the list, can always be taken.
pub proof fn ordered_decisions_can_be_taken(
    approvals: Seq<PendingApprovalView>,
    decisions: Seq<(usize, bool)>,
)
    requires
        forall|i: int| 0 <= i < decisions.len() ==> (#[trigger] decisions[i]).0 < approvals.len(),
        forall|i: int, j: int|
            0 <= i < j < decisions.len() ==> (#[trigger] decisions[i]).0 < (
            #[trigger] decisions[j]).0,
    ensures
        can_decide(approvals, decisions),
        undecided(approvals, decisions).len() == approvals.len() - decisions.len(),
        decided(approvals, decisions).len() == decisions.len(),
        forall|k: int|
            0 <= k < decisions.len() ==> #[trigger] decided(approvals, decisions)[k]
                == (ApprovalReplyView {
                id: approvals[decisions[decisions.len() - 1 - k].0 as int].id,
                approved: decisions[decisions.len() - 1 - k].1,
            }),
    decreases decisions.len(),
{
    if decisions.len() > 0 {
        let front = decisions.drop_last();
        let (index, approved) = decisions.last();
        assert(decisions[decisions.len() - 1].0 == index);
        let rest = approvals.remove(index as int);
        assert forall|i: int| 0 <= i < front.len() implies (#[trigger] front[i]).0
            < rest.len() by {
            assert(decisions[i].0 < decisions[decisions.len() - 1].0);
        }
        assert forall|i: int, j: int| 0 <= i < j < front.len() implies (#[trigger] front[i]).0 < (
        #[trigger] front[j]).0 by {
            assert(decisions[i].0 < decisions[j].0);
        }
        ordered_decisions_can_be_taken(rest, front);
        assert forall|k: int| 0 <= k < decisions.len() implies #[trigger] decided(
            approvals,
            decisions,
        )[k] == (ApprovalReplyView {
            id: approvals[decisions[decisions.len() - 1 - k].0 as int].id,
            approved: decisions[decisions.len() - 1 - k].1,
        }) by {
            if k > 0 {
                assert(decided(approvals, decisions)[k] == decided(rest, front)[k - 1]);
                let i = decisions.len() - 1 - k;
                assert(front[i] == decisions[i]);
                assert(decisions[i].0 < decisions[decisions.len() - 1].0);
                assert(rest[front[i].0 as int] == approvals[front[i].0 as int]);
            }
        }
    }
}

/// A tool call that ended adds exactly one entry, a result of that tool. The output of a call that
/// succeeded is shown unchanged; only that of a failed call begins with "Error: ", followed by the
/// reason.
pub proof fn tool_results_are_recorded(
    app: GuiAppView,
    name: Seq<char>,
    result: Result<Seq<char>, Seq<char>>,
)
    ensures
        ({
            let after = app.after(EngineEventView::ToolCallComplete { name, result });
            let entry = after.messages.last();
            &&& after.messages.len() == app.messages.len() + 1
            &&& after.messages.drop_last() == app.messages
            &&& entry is ToolResult
            &&& entry->ToolResult_name == name
            &&& result matches Ok(output) ==> entry->output == output
            &&& result matches Err(reason) ==> entry->output.take(7) == "Error: "@
                && entry->output.skip(7) == reason
            &&& after.current_assistant_text == app.current_assistant_text
            &&& after.current_thinking == app.current_thinking
            &&& after.is_streaming == app.is_streaming
            &&& after.status == app.status
            &&& after.pending_approvals == app.pending_approvals
        }),
{
    let after = app.after(EngineEventView::ToolCallComplete { name, result });
    assert(after.messages.drop_last() =~= app.messages);
    reveal_strlit("Error: ");
    if let Err(reason) = result {
        assert(("Error: "@ + reason).take(7) =~= "Error: "@);
        assert(("Error: "@ + reason).skip(7) =~= reason);
    }
}

/// A tool call that starts adds exactly one entry, with the tool and its input.
pub proof fn tool_calls_are_recorded(app: GuiAppView, name: Seq<char>, input: Seq<char>)
    ensures
        ({
            let after = app.after(EngineEventView::ToolCallStarted { name, input });
            &&& after.messages.len() == app.messages.len() + 1
            &&& after.messages.drop_last() == app.messages
            &&& after.messages.last() is ToolCall
            &&& after.messages.last()->ToolCall_name == name
            &&& after.messages.last()->input == input
            &&& after.current_assistant_text == app.current_assistant_text
            &&& after.current_thinking == app.current_thinking
            &&& after.is_streaming == app.is_streaming
            &&& after.status == app.status
            &&& after.pending_approvals == app.pending_approvals
        }),
{
    let after = app.after(EngineEventView::ToolCallStarted { name, input });
    assert(after.messages.drop_last() =~= app.messages);
}

/// An approval that the engine asks for waits behind those that wait already, and is no entry of the
/// transcript.
pub proof fn approvals_wait_in_order(
    app: GuiAppView,
    id: Seq<char>,
    tool_name: Seq<char>,
    description: Seq<char>,
)
    ensures
        ({
            let after = app.after(
                EngineEventView::ApprovalRequired { id, tool_name, description },
            );
            &&& after.pending_approvals.len() == app.pending_approvals.len() + 1
            &&& after.pending_approvals.drop_last() == app.pending_approvals
            &&& after.pending_approvals.last().id == id
            &&& after.pending_approvals.last().tool_name == tool_name
            &&& after.pending_approvals.last().description == description
            &&& after.messages == app.messages
            &&& after.status == app.status
            &&& after.is_streaming == app.is_streaming
        }),
{
    let after = app.after(EngineEventView::ApprovalRequired { id, tool_name, description });
    assert(after.pending_approvals.drop_last() =~= app.pending_approvals);
}

/// Only an approval that the engine asks for changes the list of those that wait.
pub proof fn only_requests_change_the_approvals(app: GuiAppView, event: EngineEventView)
    requires
        event !is ApprovalRequired,
    ensures
        app.after(event).pending_approvals == app.pending_approvals,
{
}

/// A status that the engine announces is shown as it is, and nothing else changes.
pub proof fn announcements_are_shown(app: GuiAppView, message: Seq<char>)
    ensures
        ({
            let after = app.after(EngineEventView::Status { message });
            &&& after.status == message
            &&& after.messages == app.messages
            &&& after.is_streaming == app.is_streaming
            &&& after.current_assistant_text == app.current_assistant_text
            &&& after.current_thinking == app.current_thinking
        }),
{
}

/// An error ends the reply, and what the user is told of it stands in the status and, as one more
/// entry, in the transcript.
pub proof fn errors_are_told_twice(app: GuiAppView, message: Seq<char>)
    ensures
        ({
            let after = app.after(EngineEventView::Error { message });
            &&& !after.is_streaming
            &&& after.messages.len() == app.messages.len() + 1
            &&& after.messages.drop_last() == app.messages
            &&& after.messages.last() is SystemError
            &&& after.messages.last()->SystemError_text == after.status
            &&& after.status == errors::friendly(message, errors::lowercase(message))
        }),
{
    let after = app.after(EngineEventView::Error { message });
    assert(after.messages.drop_last() =~= app.messages);
}

/// A reply starts empty, and each piece of it, and of the thinking before it, is added at the end.
/// Until the reply is complete the transcript does not change.
pub proof fn replies_grow_piece_by_piece(app: GuiAppView, content: Seq<char>)
    ensures
        ({
            let started = app.after(EngineEventView::MessageStarted);
            let spoken = app.after(EngineEventView::MessageDelta { content });
            let thinking = app.after(EngineEventView::ThinkingStarted);
            let thought = app.after(EngineEventView::ThinkingDelta { content });
            let concluded = app.after(EngineEventView::ThinkingComplete);
            &&& started.is_streaming && started.current_assistant_text.len() == 0
                && started.current_thinking.len() == 0
            &&& spoken.current_assistant_text == app.current_assistant_text + content
            &&& spoken.current_thinking == app.current_thinking
            &&& thinking.current_thinking.len() == 0
            &&& thinking.current_assistant_text == app.current_assistant_text
            &&& thought.current_thinking == app.current_thinking + content
            &&& thought.current_assistant_text == app.current_assistant_text
            &&& concluded.current_thinking == app.current_thinking
            &&& concluded.current_assistant_text == app.current_assistant_text
            &&& spoken.is_streaming == app.is_streaming && thought.is_streaming == app.is_streaming
            &&& started.messages == app.messages && spoken.messages == app.messages
            &&& thinking.messages == app.messages && thought.messages == app.messages
            &&& concluded.messages == app.messages
            &&& started.should_scroll_to_bottom && spoken.should_scroll_to_bottom
            &&& thinking.should_scroll_to_bottom && thought.should_scroll_to_bottom
            &&& concluded.should_scroll_to_bottom
        }),
{
}

/// A complete reply is one entry with its whole text, and with the thinking before it where there was
/// any; a reply without text is no entry. Either way the client is ready again.
pub proof fn complete_replies_are_recorded(app: GuiAppView)
    ensures
        ({
            let after = app.after(EngineEventView::MessageComplete);
            let entry = after.messages.last();
            &&& !after.is_streaming
            &&& after.status == "Ready"@
            &&& app.current_assistant_text.len() == 0 ==> after.messages == app.messages
                && after.current_thinking == app.current_thinking
            &&& app.current_assistant_text.len() > 0 ==> {
                &&& after.messages.len() == app.messages.len() + 1
                &&& after.messages.drop_last() == app.messages
                &&& entry is Assistant
                &&& entry->Assistant_text == app.current_assistant_text
                &&& entry->thinking is None <==> app.current_thinking.len() == 0
                &&& entry->thinking is Some ==> entry->thinking->0 == app.current_thinking
                &&& after.current_assistant_text.len() == 0
                &&& after.current_thinking.len() == 0
            }
        }),
{
    let after = app.after(EngineEventView::MessageComplete);
    if app.current_assistant_text.len() > 0 {
        assert(after.messages.drop_last() =~= app.messages);
    }
}

/// The engine never touches what belongs to the user: the input, the settings, the workspace and the
/// open files.
pub proof fn events_leave_the_user_alone(app: GuiAppView, event: EngineEventView)
    ensures
        ({
            let after = app.after(event);
            &&& after.input == app.input
            &&& after.engine_ready == app.engine_ready
            &&& after.show_settings == app.show_settings
            &&& after.settings_api_key == app.settings_api_key
            &&& after.settings_model == app.settings_model
            &&& after.workspace_path == app.workspace_path
            &&& after.editor == app.editor
            &&& app.should_scroll_to_bottom ==> after.should_scroll_to_bottom
            &&& event is Other ==> after == app
        }),
{
}

/// Events are taken one after the other.
pub proof fn events_are_taken_in_turn(
    app: GuiAppView,
    first: Seq<EngineEventView>,
    second: Seq<EngineEventView>,
)
    ensures
        app.after_all(first + second) == app.after_all(first).after_all(second),
    decreases second.len(),
{
    if second.len() == 0 {
        assert(first + second =~= first);
    } else {
        events_are_taken_in_turn(app, first, second.drop_last());
        assert((first + second).drop_last() =~= first + second.drop_last());
    }
}

/// What the user sends while no reply is awaited becomes an entry, without the whitespace around it;
/// the input is empty then. Blank input is not sent. Without an engine the user is told so in one
/// more entry.
pub proof fn sent_input_is_recorded(app: GuiAppView)
    requires
        !app.is_streaming,
    ensures
        ({
            let after = app.sent();
            let content = text::trimmed(app.input);
            &&& content.len() == 0 ==> after == app && app.outgoing() is None
            &&& content.len() > 0 ==> {
                &&& app.outgoing() == Some(content)
                &&& after.input.len() == 0
                &&& after.messages.len() == app.messages.len() + (if app.engine_ready {
                    1int
                } else {
                    2int
                })
                &&& after.messages.take(app.messages.len() as int) == app.messages
                &&& after.messages[app.messages.len() as int] is User
                &&& after.messages[app.messages.len() as int]->User_text == content
                &&& !app.engine_ready ==> after.messages.last() is SystemError
                &&& app.engine_ready ==> after.status == "Thinking..."@
                &&& !app.engine_ready ==> after.status == "Engine not ready"@
                &&& after.should_scroll_to_bottom
            }
        }),
{
    let after = app.sent();
    if text::trimmed(app.input).len() > 0 {
        assert(after.messages.take(app.messages.len() as int) =~= app.messages);
    }
}

/// The client is ready for messages just when its engine started; else the status gives the reason.
pub proof fn restarts_tell_how_they_went(app: GuiAppView, start: EngineStart)
    ensures
        ({
            let after = app.restarted(start);
            &&& after.engine_ready <==> start is Ready
            &&& start is Ready ==> after.status == "Ready"@
            &&& start matches EngineStart::EngineFailed(reason) ==> after.status.take(21)
                == "Engine start failed: "@ && after.status.skip(21) == reason@
            &&& start matches EngineStart::ConfigFailed(reason) ==> after.status.take(22)
                == "Config reload failed: "@ && after.status.skip(22) == reason@
            &&& after.messages == app.messages
            &&& after.editor == app.editor
            &&& after.input == app.input
        }),
{
    reveal_strlit("Engine start failed: ");
    reveal_strlit("Config reload failed: ");
    let after = app.restarted(start);
    if let EngineStart::EngineFailed(reason) = start {
        assert(after.status.take(21) =~= "Engine start failed: "@);
        assert(after.status.skip(21) =~= reason@);
    }
    if let EngineStart::ConfigFailed(reason) = start {
        assert(after.status.take(22) =~= "Config reload failed: "@);
        assert(after.status.skip(22) =~= reason@);
    }
}

/// After decisions in the order of the list, the approvals that were not decided are left, in their
/// order: one that stood in front of every decided one stays in its place, and each decided one is
/// gone.
pub proof fn undecided_approvals_stay(
    approvals: Seq<PendingApprovalView>,
    decisions: Seq<(usize, bool)>,
    i: int,
)
    requires
        forall|k: int| 0 <= k < decisions.len() ==> (#[trigger] decisions[k]).0 < approvals.len(),
        forall|k: int, j: int|
            0 <= k < j < decisions.len() ==> (#[trigger] decisions[k]).0 < (
            #[trigger] decisions[j]).0,
        0 <= i < approvals.len(),
        forall|k: int| 0 <= k < decisions.len() ==> (#[trigger] decisions[k]).0 != i,
    ensures
        decided_before(decisions, i) <= i,
        i - decided_before(decisions, i) < undecided(approvals, decisions).len(),
        undecided(approvals, decisions)[i - decided_before(decisions, i)] == approvals[i],
    decreases decisions.len(),
{
    ordered_decisions_can_be_taken(approvals, decisions);
    if decisions.len() > 0 {
        let front = decisions.drop_last();
        let at = decisions.last().0 as int;
        let rest = approvals.remove(at);
        assert(decisions[decisions.len() - 1].0 == at);
        assert forall|k: int| 0 <= k < front.len() implies (#[trigger] front[k]).0 < rest.len()
            && front[k].0 < at && front[k].0 != i by {
            assert(decisions[k].0 < decisions[decisions.len() - 1].0);
        }
        assert forall|k: int, j: int| 0 <= k < j < front.len() implies (#[trigger] front[k]).0 < (
        #[trigger] front[j]).0 by {
            assert(decisions[k].0 < decisions[j].0);
        }
        if i < at {
            assert(rest[i] == approvals[i]);
            undecided_approvals_stay(rest, front, i);
        } else {
            assert(rest[i - 1] == approvals[i]);
            lemma_decided_before_all(front, i - 1);
            lemma_decided_before_all(front, i);
            assert forall|k: int| 0 <= k < front.len() implies (#[trigger] front[k]).0 != i - 1 by {
                assert(front[k].0 < at);
            }
            undecided_approvals_stay(rest, front, i - 1);
        }
    }
}

/// How many decisions are about approvals in front of a position.
pub open spec fn decided_before(decisions: Seq<(usize, bool)>, i: int) -> int
    decreases decisions.len(),
{
    if decisions.len() == 0 {
        0
    } else {
        decided_before(decisions.drop_last(), i) + (if decisions.last().0 < i {
            1int
        } else {
            0int
        })
    }
}

proof fn lemma_decided_before_all(decisions: Seq<(usize, bool)>, i: int)
    requires
        forall|k: int| 0 <= k < decisions.len() ==> (#[trigger] decisions[k]).0 < i,
    ensures
        decided_before(decisions, i) == decisions.len(),
    decreases decisions.len(),
{
    if decisions.len() > 0 {
        assert(decisions[decisions.len() - 1].0 < i);
        assert forall|k: int| 0 <= k < decisions.drop_last().len() implies (
        #[trigger] decisions.drop_last()[k]).0 < i by {
            assert(decisions[k].0 < i);
        }
        lemma_decided_before_all(decisions.drop_last(), i);
    }
}

} // verus!
