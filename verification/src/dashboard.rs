//! The interactive dashboard's state and the decisions taken on it: which
//! finding is selected, what a key press does, and how the fix and chat
//! flows move from request to reply. Drawing, the terminal, the network
//! and the disk stay with the caller, which performs each requested action
//! and hands the outcome back.

use vstd::prelude::*;
use crate::chat::{ChatMessage, ChatState, chat_view, ChatView};
use crate::graph::DepGraph;
use crate::groq::Role;
use crate::models::Vulnerability;
use crate::remediation::{ProposedFix, FixKind, fix_lines, propose_version_bump, mitigation_fix, is_mitigation_fix};
use crate::text::{views, trimmed, trim_string, bool_text, bool_string};

verus! {

/// A vulnerability together with its reachability verdict. `scores` holds
/// the numeric part of the assessment (severity, centrality, weight and
/// risk), which the library carries along without reading.
pub struct RiskAssessment<S> {
    pub vulnerability: Vulnerability,
    pub reachable: bool,
    pub scores: S,
}

/// What one run of the analysis produced.
pub struct PipelineOutput<S> {
    pub graph: DepGraph,
    pub assessments: Vec<RiskAssessment<S>>,
    pub total_vulns_found: usize,
}

/// The dashboard's state.
pub struct App<S> {
    pub log: Vec<String>,
    pub assessments: Vec<RiskAssessment<S>>,
    pub total_found: usize,
    pub selected: usize,
    pub fix_prompt: Option<ProposedFix>,
    pub fix_in_flight: bool,
    pub chat: ChatState,
}

/// The dashboard's state as values.
#[verifier::ext_equal]
pub struct AppView<S> {
    pub log: Seq<Seq<char>>,
    pub assessments: Seq<RiskAssessment<S>>,
    pub total_found: nat,
    pub selected: nat,
    pub fix_prompt: Option<ProposedFix>,
    pub fix_in_flight: bool,
    pub chat: ChatView,
}

impl<S> View for App<S> {
    type V = AppView<S>;

    open spec fn view(&self) -> AppView<S> {
        AppView {
            log: views(self.log@),
            assessments: self.assessments@,
            total_found: self.total_found as nat,
            selected: self.selected as nat,
            fix_prompt: self.fix_prompt,
            fix_in_flight: self.fix_in_flight,
            chat: chat_view(self.chat),
        }
    }
}

/// The number of reachable findings among `assessments`.
pub open spec fn count_reachable<S>(assessments: Seq<RiskAssessment<S>>) -> nat
    decreases assessments.len(),
{
    if assessments.len() == 0 {
        0
    } else {
        count_reachable(assessments.drop_last()) + if assessments.last().reachable {
            1nat
        } else {
            0nat
        }
    }
}

/// The selection moved one finding down, stopping at the last one; an
/// empty list leaves it where it is.
pub open spec fn next_selection(selected: nat, len: nat) -> nat {
    if len == 0 {
        selected
    } else if selected + 1 < len {
        selected + 1
    } else {
        (len - 1) as nat
    }
}

/// The selection moved one finding up, stopping at the first one.
pub open spec fn previous_selection(selected: nat) -> nat {
    if selected == 0 {
        0
    } else {
        (selected - 1) as nat
    }
}

proof fn lemma_count_reachable_bound<S>(assessments: Seq<RiskAssessment<S>>)
    ensures
        count_reachable(assessments) <= assessments.len(),
    decreases assessments.len(),
{
    if assessments.len() > 0 {
        lemma_count_reachable_bound(assessments.drop_last());
    }
}

/// The number of findings whose package is reachable from the project's
/// sources.
pub fn count_exploitable<S>(assessments: &Vec<RiskAssessment<S>>) -> (res: usize)
    ensures
        res == count_reachable(assessments@),
{
    let mut count: usize = 0;
    let mut i: usize = 0;
    while i < assessments.len()
        invariant
            i <= assessments@.len(),
            count == count_reachable(assessments@.take(i as int)),
        decreases assessments@.len() - i,
    {
        proof {
            assert(assessments@.take(i + 1).drop_last() =~= assessments@.take(i as int));
            lemma_count_reachable_bound(assessments@.take(i as int));
        }
        if assessments[i].reachable {
            count = count + 1;
        }
        i = i + 1;
    }
    proof {
        assert(assessments@.take(i as int) =~= assessments@);
    }
    count
}

impl<S> App<S> {
    /// A dashboard with no findings, an empty log and the chat closed.
    pub fn new() -> (res: Self)
        ensures
            res@.log.len() == 0,
            res@.assessments.len() == 0,
            res@.total_found == 0,
            res@.selected == 0,
            res@.fix_prompt is None,
            !res@.fix_in_flight,
            !res@.chat.open,
            res@.chat.input.len() == 0,
            res@.chat.messages.len() == 0,
            !res@.chat.in_flight,
    {
        App {
            log: Vec::new(),
            assessments: Vec::new(),
            total_found: 0,
            selected: 0,
            fix_prompt: None,
            fix_in_flight: false,
            chat: ChatState::default(),
        }
    }

    /// Appends `line` to the execution log.
    pub fn push_log(&mut self, line: &str)
        ensures
            final(self)@ == (AppView { log: old(self)@.log.push(line@), ..old(self)@ }),
    {
        let ghost before = self.log@;
        self.log.push(String::from_str(line));
        proof {
            assert(views(self.log@) =~= views(before).push(line@));
        }
    }

    /// Takes the findings of a run; the selection index is kept as it was.
    pub fn load_output(&mut self, output: PipelineOutput<S>)
        ensures
            final(self)@ == (AppView {
                assessments: output.assessments@,
                total_found: output.total_vulns_found as nat,
                ..old(self)@
            }),
    {
        self.total_found = output.total_vulns_found;
        self.assessments = output.assessments;
    }

    /// The number of findings whose package is reachable from the
    /// project's sources.
    pub fn exploitable_count(&self) -> (res: usize)
        ensures
            res == count_reachable(self.assessments@),
    {
        count_exploitable(&self.assessments)
    }

    /// The selected finding, if the selection is within the list.
    pub fn selected_assessment(&self) -> (res: Option<&RiskAssessment<S>>)
        ensures
            self.selected < self.assessments@.len() ==> res == Some(&self.assessments@[self.selected as int]),
            self.selected >= self.assessments@.len() ==> res is None,
    {
        if self.selected < self.assessments.len() {
            Some(&self.assessments[self.selected])
        } else {
            None
        }
    }

    /// Moves the selection one finding down.
    pub fn select_next(&mut self)
        ensures
            final(self)@ == (AppView {
                selected: next_selection(old(self)@.selected, old(self)@.assessments.len()),
                ..old(self)@
            }),
    {
        if self.assessments.len() > 0 {
            if self.selected < self.assessments.len() - 1 {
                self.selected = self.selected + 1;
            } else {
                self.selected = self.assessments.len() - 1;
            }
        }
    }

    /// Moves the selection one finding up.
    pub fn select_previous(&mut self)
        ensures
            final(self)@ == (AppView { selected: previous_selection(old(self)@.selected), ..old(self)@ }),
    {
        if self.selected > 0 {
            self.selected = self.selected - 1;
        }
    }
}

/// A key press, as far as the dashboard tells keys apart.
#[derive(Debug, Clone, Copy, PartialEq, Eq, Structural)]
pub enum KeyInput {
    Char(char),
    Enter,
    Esc,
    Backspace,
    Up,
    Down,
    Other,
}

/// What a key press asks the caller to do next.
#[derive(Debug, Clone, Copy, PartialEq, Eq, Structural)]
pub enum KeyAction {
    /// Nothing beyond the state change already made.
    Nothing,
    /// Leave the dashboard.
    Quit,
    /// Start the fix flow for the selected finding.
    RequestFix,
    /// Apply the fix that is on offer.
    ConfirmFix,
    /// Send the chat input to the model.
    SendChat,
}

/// The state after `key` and the action it asks for. An open fix prompt
/// takes every key first (y confirms; n or Esc dismisses it), then an open
/// chat panel (Esc closes it, Enter sends, Backspace deletes, characters
/// are typed; while a reply is awaited nothing is sent or typed); otherwise
/// q or Esc quits, Down/j and Up/k move the selection, f asks for a fix and
/// c opens the chat.
pub open spec fn key_outcome<S>(a: AppView<S>, key: KeyInput) -> (AppView<S>, KeyAction) {
    if a.fix_prompt is Some {
        if key == KeyInput::Char('y') {
            (a, KeyAction::ConfirmFix)
        } else if key == KeyInput::Char('n') || key == KeyInput::Esc {
            (AppView { fix_prompt: None, log: a.log.push("[FIX] dismissed."@), ..a }, KeyAction::Nothing)
        } else {
            (a, KeyAction::Nothing)
        }
    } else if a.chat.open {
        match key {
            KeyInput::Esc => (AppView { chat: ChatView { open: false, ..a.chat }, ..a }, KeyAction::Nothing),
            KeyInput::Enter => if a.chat.in_flight {
                (a, KeyAction::Nothing)
            } else {
                (a, KeyAction::SendChat)
            },
            KeyInput::Backspace => (AppView {
                chat: ChatView {
                    input: if a.chat.input.len() > 0 { a.chat.input.drop_last() } else { a.chat.input },
                    ..a.chat
                },
                ..a
            }, KeyAction::Nothing),
            KeyInput::Char(c) => if a.chat.in_flight {
                (a, KeyAction::Nothing)
            } else {
                (AppView { chat: ChatView { input: a.chat.input.push(c), ..a.chat }, ..a }, KeyAction::Nothing)
            },
            _ => (a, KeyAction::Nothing),
        }
    } else if key == KeyInput::Char('q') || key == KeyInput::Esc {
        (a, KeyAction::Quit)
    } else if key == KeyInput::Down || key == KeyInput::Char('j') {
        (AppView { selected: next_selection(a.selected, a.assessments.len()), ..a }, KeyAction::Nothing)
    } else if key == KeyInput::Up || key == KeyInput::Char('k') {
        (AppView { selected: previous_selection(a.selected), ..a }, KeyAction::Nothing)
    } else if key == KeyInput::Char('f') {
        (a, KeyAction::RequestFix)
    } else if key == KeyInput::Char('c') {
        (AppView { chat: ChatView { open: true, ..a.chat }, ..a }, KeyAction::Nothing)
    } else {
        (a, KeyAction::Nothing)
    }
}

impl<S> App<S> {
    /// Applies a key press to the state and says what else it asks for.
    pub fn handle_key(&mut self, key: KeyInput) -> (res: KeyAction)
        ensures
            (final(self)@, res) == key_outcome(old(self)@, key),
    {
        if self.fix_prompt.is_some() {
            match key {
                KeyInput::Char('y') => KeyAction::ConfirmFix,
                KeyInput::Char('n') | KeyInput::Esc => {
                    self.fix_prompt = None;
                    self.push_log("[FIX] dismissed.");
                    KeyAction::Nothing
                },
                _ => KeyAction::Nothing,
            }
        } else if self.chat.open {
            match key {
                KeyInput::Esc => {
                    self.chat.open = false;
                    KeyAction::Nothing
                },
                KeyInput::Enter => {
                    if self.chat.in_flight {
                        KeyAction::Nothing
                    } else {
                        KeyAction::SendChat
                    }
                },
                KeyInput::Backspace => {
                    self.chat.input.pop();
                    KeyAction::Nothing
                },
                KeyInput::Char(c) => {
                    if !self.chat.in_flight {
                        self.chat.input.push(c);
                    }
                    KeyAction::Nothing
                },
                _ => KeyAction::Nothing,
            }
        } else {
            match key {
                KeyInput::Char('q') | KeyInput::Esc => KeyAction::Quit,
                KeyInput::Down | KeyInput::Char('j') => {
                    self.select_next();
                    KeyAction::Nothing
                },
                KeyInput::Up | KeyInput::Char('k') => {
                    self.select_previous();
                    KeyAction::Nothing
                },
                KeyInput::Char('f') => KeyAction::RequestFix,
                KeyInput::Char('c') => {
                    self.chat.open = true;
                    KeyAction::Nothing
                },
                _ => KeyAction::Nothing,
            }
        }
    }

    /// The key hints shown in the footer for the current state.
    pub fn footer_text(&self) -> (res: &'static str)
        ensures
            res@ == (if self.fix_in_flight {
                " fetching fix suggestion from groq... "@
            } else if self.fix_prompt is Some {
                " y confirm    n/esc dismiss "@
            } else {
                " j/k select    f fix selected    q quit "@
            }),
    {
        if self.fix_in_flight {
            " fetching fix suggestion from groq... "
        } else if self.fix_prompt.is_some() {
            " y confirm    n/esc dismiss "
        } else {
            " j/k select    f fix selected    q quit "
        }
    }
}

/// The selected finding, if the selection is within the list.
pub open spec fn selected_of<S>(a: AppView<S>) -> Option<RiskAssessment<S>> {
    if a.selected < a.assessments.len() {
        Some(a.assessments[a.selected as int])
    } else {
        None
    }
}

/// The state after asking for a fix of the selected finding, and the
/// vulnerability for which a mitigation must be asked of the model, if
/// any. Only a reachable finding has a fix flow; one with a patched
/// version gets a version bump on offer straight away.
pub open spec fn fix_request_outcome<S>(a: AppView<S>) -> (AppView<S>, Option<Vulnerability>) {
    match selected_of(a) {
        None => (a, None),
        Some(x) => if !x.reachable {
            (AppView { log: a.log.push("[FIX] only proven-exploitable vulnerabilities have a fix flow."@), ..a }, None)
        } else {
            match x.vulnerability.fixed_version {
                Some(to) => (AppView {
                    log: a.log.push("[FIX] patched version found via OSV — no LLM needed."@),
                    fix_prompt: Some(ProposedFix {
                        kind: FixKind::VersionBump {
                            package: x.vulnerability.package.name,
                            from_version: x.vulnerability.package.version,
                            to_version: to,
                        },
                    }),
                    ..a
                }, None),
                None => (a, Some(x.vulnerability)),
            }
        },
    }
}

/// The log lines that show a fix which is not applied automatically.
pub open spec fn advisory_log_lines(fix: ProposedFix) -> Seq<Seq<char>> {
    seq!["[FIX] advisory only — not auto-applied. Suggestion:"@]
        + fix_lines(fix.kind).map_values(|l: Seq<char>| "       "@ + l)
}

/// The reply shown in the chat for a model request: the reply itself, or
/// the request's failure.
pub open spec fn chat_reply_text(reply: Result<String, String>) -> Seq<char> {
    match reply {
        Ok(r) => r@,
        Err(e) => "(request to Groq failed: "@ + e@ + ")"@,
    }
}

/// What the chat says when no API key is configured.
pub open spec fn missing_key_reply() -> Seq<char> {
    "GROQ_API_KEY isn't set, so I can't reach the model. Set it in .env or your environment and reopen the chat."@
}

impl<S> App<S> {
    /// First step of the fix flow for the selected finding. Returns the
    /// vulnerability for which the model must be asked for a mitigation;
    /// in every other case the flow ends here.
    pub fn begin_fix_request(&mut self) -> (res: Option<Vulnerability>)
        ensures
            (final(self)@, res) == fix_request_outcome(old(self)@),
    {
        if self.selected >= self.assessments.len() {
            return None;
        }
        let reachable = self.assessments[self.selected].reachable;
        if !reachable {
            self.push_log("[FIX] only proven-exploitable vulnerabilities have a fix flow.");
            return None;
        }
        let bump = propose_version_bump(&self.assessments[self.selected].vulnerability);
        match bump {
            Some(fix) => {
                self.push_log("[FIX] patched version found via OSV — no LLM needed.");
                self.fix_prompt = Some(fix);
                None
            },
            None => Some(self.assessments[self.selected].vulnerability.clone()),
        }
    }

    /// Second step, for a finding without a patched version: without an API
    /// key the flow ends with a note in the log; with one, the request to
    /// `model` is announced and marked in flight, and `true` asks the caller
    /// to send it.
    pub fn start_mitigation_request(&mut self, api_key_present: bool, model: &str) -> (res: bool)
        ensures
            res == api_key_present,
            !api_key_present ==> final(self)@ == (AppView {
                log: old(self)@.log.push(
                    "[FIX] no patched version listed yet, and GROQ_API_KEY is not set (needed for an AI-suggested mitigation)."@,
                ),
                ..old(self)@
            }),
            api_key_present ==> final(self)@ == (AppView {
                log: old(self)@.log.push("[FIX] no patched version yet — asking Groq ("@ + model@ + ")..."@),
                fix_in_flight: true,
                ..old(self)@
            }),
    {
        if !api_key_present {
            self.push_log(
                "[FIX] no patched version listed yet, and GROQ_API_KEY is not set (needed for an AI-suggested mitigation).",
            );
            return false;
        }
        let mut line = String::from_str("[FIX] no patched version yet — asking Groq (");
        line.append(model);
        line.append(")...");
        self.push_log(line.as_str());
        self.fix_in_flight = true;
        true
    }

    /// Last step: the model's reply (or the request's failure) becomes the
    /// fix on offer.
    pub fn finish_fix_request(&mut self, reply: Result<String, String>)
        ensures
            final(self)@ == (AppView { fix_in_flight: false, fix_prompt: final(self)@.fix_prompt, ..old(self)@ }),
            final(self)@.fix_prompt matches Some(f) && is_mitigation_fix(f, reply),
    {
        self.fix_in_flight = false;
        self.fix_prompt = Some(mitigation_fix(reply));
    }

    /// Confirming the fix on offer takes it off the screen. A fix that is
    /// not applied automatically is written to the log, line by line; a
    /// version bump is announced and returned for the caller to apply.
    pub fn begin_confirm_fix(&mut self) -> (res: Option<ProposedFix>)
        ensures
            match old(self)@.fix_prompt {
                None => final(self)@ == old(self)@ && res is None,
                Some(f) => if f.kind is VersionBump {
                    res == Some(f) && final(self)@ == (AppView {
                        fix_prompt: None,
                        log: old(self)@.log.push("[FIX] applying version bump..."@),
                        ..old(self)@
                    })
                } else {
                    res is None && final(self)@ == (AppView {
                        fix_prompt: None,
                        log: old(self)@.log + advisory_log_lines(f),
                        ..old(self)@
                    })
                },
            },
    {
        let taken = self.fix_prompt.take();
        match taken {
            None => None,
            Some(fix) => {
                if fix.is_auto_applicable() {
                    self.push_log("[FIX] applying version bump...");
                    Some(fix)
                } else {
                    let ghost before = self@.log;
                    self.push_log("[FIX] advisory only — not auto-applied. Suggestion:");
                    let lines = fix.display_lines();
                    let ghost ls = views(lines@);
                    let mut i: usize = 0;
                    while i < lines.len()
                        invariant
                            i <= lines@.len(),
                            ls == views(lines@),
                            ls == fix_lines(fix.kind),
                            self@ == (AppView {
                                fix_prompt: None,
                                log: before + seq!["[FIX] advisory only — not auto-applied. Suggestion:"@]
                                    + ls.take(i as int).map_values(|l: Seq<char>| "       "@ + l),
                                ..old(self)@
                            }),
                        decreases lines@.len() - i,
                    {
                        let mut line = String::from_str("       ");
                        line.append(lines[i].as_str());
                        self.push_log(line.as_str());
                        proof {
                            assert(ls.take(i + 1).map_values(|l: Seq<char>| "       "@ + l)
                                =~= ls.take(i as int).map_values(|l: Seq<char>| "       "@ + l).push("       "@ + ls[i as int]));
                        }
                        i = i + 1;
                    }
                    proof {
                        assert(ls.take(i as int) =~= ls);
                        assert(self@.log =~= before + advisory_log_lines(fix));
                    }
                    None
                }
            },
        }
    }

    /// Records the outcome of applying a version bump; `true` asks the
    /// caller to run the analysis again to confirm the fix took.
    pub fn record_bump_result(&mut self, result: Result<String, String>) -> (res: bool)
        ensures
            res == (result is Ok),
            match result {
                Ok(summary) => final(self)@ == (AppView {
                    log: old(self)@.log.push("[FIXED] "@ + summary@).push("[FIX] re-scanning to confirm the fix took..."@),
                    ..old(self)@
                }),
                Err(e) => final(self)@ == (AppView { log: old(self)@.log.push("[FIX] failed: "@ + e@), ..old(self)@ }),
            },
    {
        match result {
            Ok(summary) => {
                let mut line = String::from_str("[FIXED] ");
                line.append(summary.as_str());
                self.push_log(line.as_str());
                self.push_log("[FIX] re-scanning to confirm the fix took...");
                true
            },
            Err(e) => {
                let mut line = String::from_str("[FIX] failed: ");
                line.append(e.as_str());
                self.push_log(line.as_str());
                false
            },
        }
    }

    /// Takes the result of the analysis run after a fix: its findings with
    /// the selection back at the top, or a note that the run failed.
    pub fn finish_rescan(&mut self, result: Result<PipelineOutput<S>, String>)
        ensures
            match result {
                Ok(output) => final(self)@ == (AppView {
                    assessments: output.assessments@,
                    total_found: output.total_vulns_found as nat,
                    selected: 0,
                    ..old(self)@
                }),
                Err(e) => final(self)@ == (AppView {
                    log: old(self)@.log.push("[FIX] re-scan failed: "@ + e@ + " (fix was applied to disk regardless)"@),
                    ..old(self)@
                }),
            },
    {
        match result {
            Ok(output) => {
                self.load_output(output);
                self.selected = 0;
            },
            Err(e) => {
                let mut line = String::from_str("[FIX] re-scan failed: ");
                line.append(e.as_str());
                line.append(" (fix was applied to disk regardless)");
                self.push_log(line.as_str());
            },
        }
    }
}

impl<S> App<S> {
    /// Sending the chat input. Input that is only white space sends nothing
    /// and stays as typed. Otherwise the trimmed input becomes the user's
    /// message and the input is cleared; without an API key the chat answers
    /// that the model cannot be reached, and with one the request is marked
    /// in flight and `true` asks the caller to send the conversation.
    pub fn begin_chat_send(&mut self, api_key_present: bool) -> (res: bool)
        ensures
            trimmed(old(self)@.chat.input).len() == 0 ==> final(self)@ == old(self)@ && !res,
            trimmed(old(self)@.chat.input).len() > 0 ==> {
                let sent = old(self)@.chat.messages.push((Role::User, trimmed(old(self)@.chat.input)));
                &&& res == api_key_present
                &&& api_key_present ==> final(self)@ == (AppView {
                    chat: ChatView { input: Seq::empty(), messages: sent, in_flight: true, ..old(self)@.chat },
                    ..old(self)@
                })
                &&& !api_key_present ==> final(self)@ == (AppView {
                    chat: ChatView {
                        input: Seq::empty(),
                        messages: sent.push((Role::Assistant, missing_key_reply())),
                        ..old(self)@.chat
                    },
                    ..old(self)@
                })
            },
    {
        let user_text = trim_string(self.chat.input.as_str());
        if user_text.as_str().is_empty() {
            return false;
        }
        let ghost before = self.chat.messages@;
        self.chat.input = String::new();
        self.chat.messages.push(ChatMessage { role: Role::User, content: user_text });
        proof {
            assert(self.chat.messages@.map_values(|m: ChatMessage| crate::chat::message_view(m))
                =~= before.map_values(|m: ChatMessage| crate::chat::message_view(m)).push(
                    (Role::User, trimmed(old(self)@.chat.input)),
                ));
        }
        if !api_key_present {
            let ghost mid = self.chat.messages@;
            self.chat.messages.push(
                ChatMessage {
                    role: Role::Assistant,
                    content: String::from_str(
                        "GROQ_API_KEY isn't set, so I can't reach the model. Set it in .env or your environment and reopen the chat.",
                    ),
                },
            );
            proof {
                assert(self.chat.messages@.map_values(|m: ChatMessage| crate::chat::message_view(m))
                    =~= mid.map_values(|m: ChatMessage| crate::chat::message_view(m)).push(
                        (Role::Assistant, missing_key_reply()),
                    ));
            }
            return false;
        }
        self.chat.in_flight = true;
        true
    }

    /// The conversation to send: the system turn `system_prompt` followed
    /// by every message of the chat, in order.
    pub fn chat_history(&self, system_prompt: String) -> (res: Vec<(Role, String)>)
        ensures
            res@.map_values(|p: (Role, String)| (p.0, p.1@))
                == seq![(Role::System, system_prompt@)] + self@.chat.messages,
    {
        let ghost prompt = system_prompt@;
        let mut history: Vec<(Role, String)> = Vec::new();
        history.push((Role::System, system_prompt));
        let mut i: usize = 0;
        while i < self.chat.messages.len()
            invariant
                i <= self.chat.messages@.len(),
                history@.map_values(|p: (Role, String)| (p.0, p.1@))
                    =~= seq![(Role::System, prompt)] + self@.chat.messages.take(i as int),
            decreases self.chat.messages@.len() - i,
        {
            let m = &self.chat.messages[i];
            let ghost before = history@;
            history.push((m.role, m.content.clone()));
            proof {
                assert(history@.map_values(|p: (Role, String)| (p.0, p.1@))
                    =~= before.map_values(|p: (Role, String)| (p.0, p.1@)).push((m.role, m.content@)));
                assert(self@.chat.messages.take(i + 1) =~= self@.chat.messages.take(i as int).push(self@.chat.messages[i as int]));
            }
            i = i + 1;
        }
        proof {
            assert(self@.chat.messages.take(i as int) =~= self@.chat.messages);
        }
        history
    }

    /// Takes the model's reply, or the request's failure, as the assistant's
    /// message and ends the request.
    pub fn finish_chat_send(&mut self, reply: Result<String, String>)
        ensures
            final(self)@ == (AppView {
                chat: ChatView {
                    messages: old(self)@.chat.messages.push((Role::Assistant, chat_reply_text(reply))),
                    in_flight: false,
                    ..old(self)@.chat
                },
                ..old(self)@
            }),
    {
        self.chat.in_flight = false;
        let text = match reply {
            Ok(r) => r,
            Err(e) => {
                let mut t = String::from_str("(request to Groq failed: ");
                t.append(e.as_str());
                t.append(")");
                t
            },
        };
        let ghost before = self.chat.messages@;
        self.chat.messages.push(ChatMessage { role: Role::Assistant, content: text });
        proof {
            assert(self.chat.messages@.map_values(|m: ChatMessage| crate::chat::message_view(m))
                =~= before.map_values(|m: ChatMessage| crate::chat::message_view(m)).push(
                    (Role::Assistant, chat_reply_text(reply)),
                ));
        }
    }
}

/// Moving the selection keeps it on a finding: down never passes the last
/// one, up never passes the first, and each moves by at most one.
pub proof fn law_selection_stays_in_list(selected: nat, len: nat)
    requires
        selected < len,
    ensures
        next_selection(selected, len) < len,
        previous_selection(selected) < len,
        selected <= next_selection(selected, len) <= selected + 1,
        selected - 1 <= previous_selection(selected) <= selected,
        next_selection(selected, len) == selected <==> selected + 1 == len,
        previous_selection(selected) == selected <==> selected == 0,
{
}

/// While a fix is on offer, every key but y, n and Esc is ignored.
pub proof fn law_fix_prompt_takes_keys<S>(a: AppView<S>, key: KeyInput)
    requires
        a.fix_prompt is Some,
        key != KeyInput::Char('y'),
        key != KeyInput::Char('n'),
        key != KeyInput::Esc,
    ensures
        key_outcome(a, key) == (a, KeyAction::Nothing),
{
}

/// A finding that is not reachable gets no fix: nothing is offered and the
/// model is not asked.
pub proof fn law_no_fix_for_unreachable<S>(a: AppView<S>)
    requires
        selected_of(a) matches Some(x) && !x.reachable,
    ensures
        fix_request_outcome(a).0.fix_prompt == a.fix_prompt,
        fix_request_outcome(a).1 is None,
{
}

/// A reachable finding whose advisory lists a patched version gets the
/// version bump on offer, and the model is not asked.
pub proof fn law_patched_version_needs_no_model<S>(a: AppView<S>)
    requires
        selected_of(a) matches Some(x) && x.reachable && x.vulnerability.fixed_version is Some,
    ensures
        fix_request_outcome(a).0.fix_prompt matches Some(f) && f.kind is VersionBump,
        fix_request_outcome(a).1 is None,
{
}

/// The model is asked for a mitigation exactly for a selected reachable
/// finding without a patched version, and about that finding.
pub proof fn law_model_only_without_patch<S>(a: AppView<S>)
    ensures
        fix_request_outcome(a).1 is Some <==> (selected_of(a) matches Some(x) && x.reachable
            && x.vulnerability.fixed_version is None),
        fix_request_outcome(a).1 matches Some(v) ==> selected_of(a) matches Some(x) && v == x.vulnerability,
{
}

/// The scorecard of the selected finding, line by line, with its numbers
/// written as `base_severity`, `centrality`, `weight` and `risk_score`: the
/// advisory id, the package, the risk formula and its terms, the summary,
/// then the fixed version if one is listed and the fix hint if the finding
/// is reachable. Without a selected finding it says so.
pub open spec fn scorecard_text<S>(
    selected: Option<RiskAssessment<S>>,
    base_severity: Seq<char>,
    centrality: Seq<char>,
    weight: Seq<char>,
    risk_score: Seq<char>,
) -> Seq<Seq<char>> {
    match selected {
        None => seq!["No vulnerability selected."@],
        Some(a) => seq![
            a.vulnerability.id@,
            a.vulnerability.package.name@ + "@"@ + a.vulnerability.package.version@,
            ""@,
            "risk = base_severity * reachable * (1 + w * centrality)"@,
            "  base_severity  "@ + base_severity,
            "  reachable      "@ + bool_text(a.reachable),
            "  centrality     "@ + centrality + "  (w="@ + weight + ")"@,
            "  ─────────────────────────"@,
            "  risk_score     "@ + risk_score,
            ""@,
            a.vulnerability.summary@,
        ] + fixed_lines(a.vulnerability.fixed_version) + hint_lines(a.reachable),
    }
}

/// The scorecard's note of the fixed version, if one is listed.
pub open spec fn fixed_lines(fixed: Option<String>) -> Seq<Seq<char>> {
    match fixed {
        Some(v) => seq![""@, "fixed in "@ + v@],
        None => Seq::empty(),
    }
}

/// The scorecard's fix hint, shown for a reachable finding.
pub open spec fn hint_lines(reachable: bool) -> Seq<Seq<char>> {
    if reachable {
        seq![""@, "[f] propose a fix"@]
    } else {
        Seq::empty()
    }
}

fn push_text(lines: &mut Vec<String>, text: String)
    ensures
        views(final(lines)@) == views(old(lines)@).push(text@),
{
    let ghost before = lines@;
    lines.push(text);
    assert(views(lines@) =~= views(before).push(text@));
}

fn joined(a: &str, b: &str) -> (res: String)
    ensures
        res@ == a@ + b@,
{
    let mut s = String::from_str(a);
    s.append(b);
    s
}

/// The lines of the scorecard for the selected finding; the caller writes
/// the numbers and styles each line.
pub fn scorecard_lines<S>(app: &App<S>, base_severity: &str, centrality: &str, weight: &str, risk_score: &str) -> (res: Vec<String>)
    ensures
        views(res@) == scorecard_text(selected_of(app@), base_severity@, centrality@, weight@, risk_score@),
{
    let mut lines: Vec<String> = Vec::new();
    proof {
        reveal_strlit("");
    }
    match app.selected_assessment() {
        None => {
            push_text(&mut lines, String::from_str("No vulnerability selected."));
            assert(views(lines@) =~= scorecard_text(selected_of(app@), base_severity@, centrality@, weight@, risk_score@));
        },
        Some(a) => {
            let v = &a.vulnerability;
            push_text(&mut lines, v.id.clone());
            let mut package = v.package.name.clone();
            package.append("@");
            package.append(v.package.version.as_str());
            push_text(&mut lines, package);
            push_text(&mut lines, String::new());
            push_text(&mut lines, String::from_str("risk = base_severity * reachable * (1 + w * centrality)"));
            push_text(&mut lines, joined("  base_severity  ", base_severity));
            let r = bool_string(a.reachable);
            push_text(&mut lines, joined("  reachable      ", r.as_str()));
            let mut c = joined("  centrality     ", centrality);
            c.append("  (w=");
            c.append(weight);
            c.append(")");
            push_text(&mut lines, c);
            push_text(&mut lines, String::from_str("  ─────────────────────────"));
            push_text(&mut lines, joined("  risk_score     ", risk_score));
            push_text(&mut lines, String::new());
            push_text(&mut lines, v.summary.clone());
            let ghost head = views(lines@);
            let ghost expected_head = seq![
                v.id@,
                v.package.name@ + "@"@ + v.package.version@,
                ""@,
                "risk = base_severity * reachable * (1 + w * centrality)"@,
                "  base_severity  "@ + base_severity@,
                "  reachable      "@ + bool_text(a.reachable),
                "  centrality     "@ + centrality@ + "  (w="@ + weight@ + ")"@,
                "  ─────────────────────────"@,
                "  risk_score     "@ + risk_score@,
                ""@,
                v.summary@,
            ];
            assert(head.len() == 11);
            assert forall|k: int| 0 <= k < 11 implies head[k] == expected_head[k] by {
                assert(""@ == Seq::<char>::empty());
            }
            assert(head =~= expected_head);
            match &v.fixed_version {
                Some(f) => {
                    push_text(&mut lines, String::new());
                    push_text(&mut lines, joined("fixed in ", f.as_str()));
                    assert(views(lines@) =~= head + fixed_lines(a.vulnerability.fixed_version));
                },
                None => {
                    assert(views(lines@) =~= head + fixed_lines(a.vulnerability.fixed_version));
                },
            }
            let ghost mid = views(lines@);
            if a.reachable {
                push_text(&mut lines, String::new());
                push_text(&mut lines, String::from_str("[f] propose a fix"));
            }
            assert(views(lines@) =~= mid + hint_lines(a.reachable));
            proof {
                assert(views(lines@) =~= scorecard_text(selected_of(app@), base_severity@, centrality@, weight@, risk_score@));
            }
        },
    }
    lines
}

/// While a fix is on offer, Esc does what n does: the offer is withdrawn
/// and "[FIX] dismissed." is logged, with nothing else changed and no
/// further action asked for.
pub proof fn law_esc_dismisses_like_n<S>(a: AppView<S>)
    requires
        a.fix_prompt is Some,
    ensures
        key_outcome(a, KeyInput::Esc) == key_outcome(a, KeyInput::Char('n')),
        key_outcome(a, KeyInput::Esc).0 == (AppView { fix_prompt: None, log: a.log.push("[FIX] dismissed."@), ..a }),
        key_outcome(a, KeyInput::Esc).1 == KeyAction::Nothing,
        key_outcome(a, KeyInput::Char('y')) == (a, KeyAction::ConfirmFix),
{
}

} // verus!
