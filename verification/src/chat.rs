//! Chat kit: transcript items, the composer, interactive prompts and link
//! cards. The transcript paint lives with the UI; here are the data and the
//! decisions (when a draft may be sent, what a prompt answers).

use vstd::prelude::*;
use crate::strs::{str_chars, is_ws, is_whitespace};
use crate::markdown::{safe_url, is_safe_target};
use crate::strs::spec_trim;
use crate::tone::Tone;
use crate::primitives::{tracked_caption, trim_hair_end, hair_spaced, str_upper};

verus! {

/* ---------------- transcript ---------------- */

/// Who authored a message.
#[derive(Clone, Copy, Debug, PartialEq, Eq, Structural)]
pub enum Role {
    User,
    Assistant,
    System,
}

/// Tool-call lifecycle.
#[derive(Clone, Copy, Debug, PartialEq, Eq, Structural)]
pub enum ToolStatus {
    Running,
    Done,
    Error,
}

impl Role {
    /// The caption a message shows when it carries no name.
    pub fn default_name(self) -> (s: &'static str)
        ensures
            s@ == match self {
                Role::User => "You"@,
                Role::Assistant => "Assistant"@,
                Role::System => "System"@,
            },
    {
        proof {
            reveal_strlit("You");
            reveal_strlit("Assistant");
            reveal_strlit("System");
        }
        match self {
            Role::User => "You",
            Role::Assistant => "Assistant",
            Role::System => "System",
        }
    }

    /// The user's own messages sit on the right; the others on the left.
    pub fn right_aligned(self) -> (b: bool)
        ensures
            b == (self == Role::User),
    {
        match self {
            Role::User => true,
            _ => false,
        }
    }

    /// A message's caption: its name, or the role's default name.
    pub fn caption<'a>(self, name: Option<&'a str>) -> (s: &'a str)
        ensures
            s@ == match name {
                Some(n) => n@,
                None => match self {
                    Role::User => "You"@,
                    Role::Assistant => "Assistant"@,
                    Role::System => "System"@,
                },
            },
    {
        match name {
            Some(n) => n,
            None => self.default_name(),
        }
    }
}

impl ToolStatus {
    /// The status mark of a tool call and its tone: a spinner while
    /// running, a check when done, a cross on error.
    pub fn mark(self) -> (m: (char, Tone))
        ensures
            m == match self {
                ToolStatus::Running => ('\u{27f3}', Tone::Info),
                ToolStatus::Done => ('\u{2713}', Tone::Success),
                ToolStatus::Error => ('\u{2717}', Tone::Danger),
            },
    {
        match self {
            ToolStatus::Running => ('\u{27f3}', Tone::Info),
            ToolStatus::Done => ('\u{2713}', Tone::Success),
            ToolStatus::Error => ('\u{2717}', Tone::Danger),
        }
    }
}

/// One transcript entry.
#[derive(Clone, Debug)]
pub enum ChatItem {
    Message {
        role: Role,
        name: Option<String>,
        time: Option<String>,
        /// Body markdown.
        markdown: String,
    },
    ToolCall {
        title: String,
        status: ToolStatus,
        /// Collapsible mono detail (tool args/result).
        body: Option<String>,
    },
    /// A centered labelled rule ("Today", "New messages", …).
    Divider(String),
    /// Animated typing indicator.
    Typing,
}

/// A message by `role` with body `markdown`, no name or time.
pub open spec fn is_message(item: ChatItem, role: Role, markdown: Seq<char>) -> bool {
    item matches ChatItem::Message { role: r, name, time, markdown: m } && r == role && name is None
        && time is None && m@ == markdown
}

impl ChatItem {
    /// A divider's caption as shown, tracked out like an eyebrow (see
    /// [`tracked_caption`]); `None` for every other item.
    pub fn divider_caption(&self) -> (c: Option<String>)
        ensures
            match self {
                ChatItem::Divider(label) => c matches Some(t) && t@ == trim_hair_end(
                    hair_spaced(str_upper(label@)),
                ),
                _ => c is None,
            },
    {
        match self {
            ChatItem::Divider(label) => Some(tracked_caption(label.as_str())),
            _ => None,
        }
    }

    pub fn user(markdown: &str) -> (item: ChatItem)
        ensures
            is_message(item, Role::User, markdown@),
    {
        ChatItem::Message { role: Role::User, name: None, time: None, markdown: markdown.to_owned() }
    }

    pub fn assistant(markdown: &str) -> (item: ChatItem)
        ensures
            is_message(item, Role::Assistant, markdown@),
    {
        ChatItem::Message {
            role: Role::Assistant,
            name: None,
            time: None,
            markdown: markdown.to_owned(),
        }
    }

    pub fn system(markdown: &str) -> (item: ChatItem)
        ensures
            is_message(item, Role::System, markdown@),
    {
        ChatItem::Message { role: Role::System, name: None, time: None, markdown: markdown.to_owned() }
    }

    pub fn tool(title: &str, status: ToolStatus) -> (item: ChatItem)
        ensures
            item matches ChatItem::ToolCall { title: t, status: s, body } && t@ == title@ && s == status
                && body is None,
    {
        ChatItem::ToolCall { title: title.to_owned(), status, body: None }
    }

    pub fn tool_with(title: &str, status: ToolStatus, body: &str) -> (item: ChatItem)
        ensures
            item matches ChatItem::ToolCall { title: t, status: s, body: Some(b) } && t@ == title@ && s
                == status && b@ == body@,
    {
        ChatItem::ToolCall { title: title.to_owned(), status, body: Some(body.to_owned()) }
    }
}

/// Transcript scroll state: `stick` follows the tail until the user
/// scrolls up.
#[derive(Clone, Copy, Debug)]
pub struct ChatViewState {
    pub stick: bool,
}

impl Default for ChatViewState {
    /// A fresh transcript follows its tail.
    fn default() -> (s: ChatViewState)
        ensures
            s.stick,
    {
        ChatViewState { stick: true }
    }
}

impl ChatViewState {
    /// A fresh transcript follows its tail.
    pub fn new() -> (s: ChatViewState)
        ensures
            s.stick,
    {
        ChatViewState { stick: true }
    }
}

/* ---------------- composer ---------------- */

/// The composer grows with its draft up to this many rows.
pub const MAX_ROWS: usize = 5;

/// The message composer bound to a draft.
pub struct Composer<'a> {
    text: &'a mut String,
    placeholder: &'a str,
}

/// How many `'\n'` the first `k` characters of `s` hold.
pub open spec fn newlines(s: Seq<char>, k: int) -> int
    decreases k,
{
    if k <= 0 || k > s.len() {
        0
    } else {
        newlines(s, k - 1) + if s[k - 1] == '\n' { 1int } else { 0int }
    }
}

/// Whether `s` holds only whitespace.
pub open spec fn is_blank(s: Seq<char>) -> bool {
    forall|i: int| 0 <= i < s.len() ==> is_ws(#[trigger] s[i])
}

impl<'a> Composer<'a> {
    pub fn new(text: &'a mut String) -> (c: Composer<'a>)
        ensures
            c.spec_text() == *old(text),
            c.spec_placeholder()@ == "Message\u{2026} (Enter send \u{b7} Shift+Enter newline)"@,
    {
        let placeholder = "Message\u{2026} (Enter send \u{b7} Shift+Enter newline)";
        Composer { text, placeholder }
    }

    pub fn placeholder(self, placeholder: &'a str) -> (c: Composer<'a>)
        ensures
            c.spec_text() == self.spec_text(),
            c.spec_placeholder() == placeholder,
    {
        Composer { placeholder, ..self }
    }

    pub closed spec fn spec_text(&self) -> String {
        *self.text
    }

    pub closed spec fn spec_placeholder(&self) -> &'a str {
        self.placeholder
    }

    /// The well's height in rows: one per line of the draft, from one up to
    /// [`MAX_ROWS`].
    pub fn rows(&self) -> (r: usize)
        ensures
            r == if newlines(self.spec_text()@, self.spec_text()@.len() as int) + 1 > MAX_ROWS {
                MAX_ROWS as int
            } else {
                newlines(self.spec_text()@, self.spec_text()@.len() as int) + 1
            },
    {
        let chars = str_chars(self.text.as_str());
        let mut count: usize = 1;
        let mut k: usize = 0;
        while k < chars.len()
            invariant
                k <= chars.len(),
                chars@ == self.spec_text()@,
                count == if newlines(chars@, k as int) + 1 > MAX_ROWS {
                    MAX_ROWS as int
                } else {
                    newlines(chars@, k as int) + 1
                },
            decreases chars.len() - k,
        {
            if chars[k] == '\n' && count < MAX_ROWS {
                count += 1;
            }
            k += 1;
        }
        count
    }

    /// Whether this frame sends the draft: Enter (without Shift/Ctrl) in the
    /// focused well or a click on Send, and the draft is not blank.
    pub fn submits(&self, enter_send: bool, send_clicked: bool) -> (b: bool)
        ensures
            b == ((enter_send || send_clicked) && !is_blank(self.spec_text()@)),
    {
        if !(enter_send || send_clicked) {
            return false;
        }
        let chars = str_chars(self.text.as_str());
        let mut k: usize = 0;
        while k < chars.len()
            invariant
                k <= chars.len(),
                chars@ == self.spec_text()@,
                enter_send || send_clicked,
                forall|i: int| 0 <= i < k ==> is_ws(#[trigger] chars@[i]),
            decreases chars.len() - k,
        {
            if !is_whitespace(chars[k]) {
                assert(!is_ws(chars@[k as int]));
                return true;
            }
            k += 1;
        }
        false
    }
}

/* ---------------- link cards ---------------- */

/// A link preview card; a click opens the link when its scheme is safe.
pub struct LinkCard<'a> {
    title: &'a str,
    url: &'a str,
    description: Option<&'a str>,
}

impl<'a> LinkCard<'a> {
    pub fn new(title: &'a str, url: &'a str) -> (c: LinkCard<'a>)
        ensures
            c.spec_title() == title,
            c.spec_url() == url,
            c.spec_description() is None,
    {
        LinkCard { title, url, description: None }
    }

    pub fn description(self, description: &'a str) -> (c: LinkCard<'a>)
        ensures
            c.spec_title() == self.spec_title(),
            c.spec_url() == self.spec_url(),
            c.spec_description() == Some(description),
    {
        LinkCard { description: Some(description), ..self }
    }

    pub closed spec fn spec_title(&self) -> &'a str {
        self.title
    }

    pub closed spec fn spec_url(&self) -> &'a str {
        self.url
    }

    pub closed spec fn spec_description(&self) -> Option<&'a str> {
        self.description
    }

    /// What a click opens: the trimmed link when its scheme is safe,
    /// nothing otherwise.
    pub fn open_target(&self) -> (r: Option<&'a str>)
        ensures
            r is Some <==> is_safe_target(spec_trim(self.spec_url()@)),
            r matches Some(t) ==> t@ == spec_trim(self.spec_url()@),
    {
        safe_url(self.url)
    }
}

/* ---------------- prompts ---------------- */

/// Which control a prompt renders.
#[derive(Clone, Debug)]
pub enum PromptControl {
    Buttons(Vec<String>),
    Radio(Vec<String>),
    Checkbox(Vec<String>),
    Select(Vec<String>),
}

/// The question plus its answer control.
#[derive(Clone, Debug)]
pub struct ChatPromptData {
    pub question: String,
    pub control: PromptControl,
}

impl ChatPromptData {
    pub fn new(question: &str, control: PromptControl) -> (d: ChatPromptData)
        ensures
            d.question@ == question@,
            d.control == control,
    {
        ChatPromptData { question: question.to_owned(), control }
    }
}

/// The select dropdown's state: the chosen option, if any.
#[derive(Clone, Copy, Debug)]
pub struct SelectState {
    pub value: Option<usize>,
}

/// App-owned control state of a prompt.
#[derive(Clone, Debug)]
pub struct ChatPromptState {
    /// Radio selection.
    pub choice: Option<usize>,
    /// Checkbox states (resized to the option count on show).
    pub checks: Vec<bool>,
    /// Select dropdown state.
    pub select: SelectState,
}

/// The committed answer.
#[derive(Clone, Debug, PartialEq, Eq)]
pub enum PromptAnswer {
    Button(usize),
    Radio(usize),
    Checks(Vec<usize>),
    Select(usize),
}

/// The options of a control.
pub open spec fn control_options(c: PromptControl) -> Seq<String> {
    match c {
        PromptControl::Buttons(o) => o@,
        PromptControl::Radio(o) => o@,
        PromptControl::Checkbox(o) => o@,
        PromptControl::Select(o) => o@,
    }
}

/// The indices of the set checks among the first `k`, in order.
pub open spec fn checked(checks: Seq<bool>, k: int) -> Seq<usize>
    decreases k,
{
    if k <= 0 || k > checks.len() {
        Seq::empty()
    } else if checks[k - 1] {
        checked(checks, k - 1).push((k - 1) as usize)
    } else {
        checked(checks, k - 1)
    }
}

impl ChatPromptState {
    pub fn new() -> (s: ChatPromptState)
        ensures
            s.choice is None,
            s.checks@.len() == 0,
            s.select.value is None,
    {
        ChatPromptState { choice: None, checks: Vec::new(), select: SelectState { value: None } }
    }

    /// Fit the checkbox states to `n` options: extra states are dropped,
    /// missing ones start unchecked.
    pub fn fit_checks(&mut self, n: usize)
        ensures
            final(self).choice == old(self).choice,
            final(self).select == old(self).select,
            final(self).checks@ == if n <= old(self).checks@.len() {
                old(self).checks@.take(n as int)
            } else {
                old(self).checks@ + Seq::new((n - old(self).checks@.len()) as nat, |i: int| false)
            },
    {
        if n <= self.checks.len() {
            self.checks.truncate(n);
        } else {
            let ghost start = self.checks@;
            let ghost choice0 = self.choice;
            let ghost select0 = self.select;
            while self.checks.len() < n
                invariant
                    self.choice == choice0,
                    self.select == select0,
                    start.len() <= self.checks@.len() <= n,
                    self.checks@ == start + Seq::new((self.checks@.len() - start.len()) as nat, |i: int| false),
                decreases n - self.checks@.len(),
            {
                let ghost before = self.checks@;
                self.checks.push(false);
                assert(self.checks@ =~= start + Seq::new((self.checks@.len() - start.len()) as nat, |i: int| false));
            }
        }
    }

    /// The checked options' indices, in order.
    pub fn checked_indices(&self) -> (out: Vec<usize>)
        ensures
            out@ == checked(self.checks@, self.checks@.len() as int),
    {
        let mut out: Vec<usize> = Vec::new();
        let mut k: usize = 0;
        while k < self.checks.len()
            invariant
                k <= self.checks.len(),
                out@ == checked(self.checks@, k as int),
            decreases self.checks.len() - k,
        {
            if self.checks[k] {
                out.push(k);
            }
            k += 1;
        }
        out
    }
}

/// Whether the Submit button is disabled: a radio with nothing chosen, a
/// checkbox list with nothing checked, a select with no value. Button
/// prompts have no Submit.
pub open spec fn spec_submit_disabled(control: PromptControl, state: ChatPromptState) -> bool {
    match control {
        PromptControl::Buttons(_) => false,
        PromptControl::Radio(_) => state.choice is None,
        PromptControl::Checkbox(_) => forall|i: int| 0 <= i < state.checks@.len() ==> !#[trigger] state.checks@[i],
        PromptControl::Select(_) => state.select.value is None,
    }
}

/// A prompt: `ChatPrompt::new(&data)`.
#[derive(Clone, Copy, Debug)]
pub struct ChatPrompt<'a> {
    data: &'a ChatPromptData,
}

impl<'a> ChatPrompt<'a> {
    pub fn new(data: &'a ChatPromptData) -> (p: ChatPrompt<'a>)
        ensures
            p.spec_data() == data,
    {
        ChatPrompt { data }
    }

    pub closed spec fn spec_data(&self) -> &'a ChatPromptData {
        self.data
    }

    /// Whether the Submit button is disabled (see [`spec_submit_disabled`]).
    pub fn submit_disabled(&self, state: &ChatPromptState) -> (b: bool)
        ensures
            b == spec_submit_disabled(self.spec_data().control, *state),
    {
        match &self.data.control {
            PromptControl::Buttons(_) => false,
            PromptControl::Radio(_) => state.choice.is_none(),
            PromptControl::Checkbox(_) => {
                let mut k: usize = 0;
                while k < state.checks.len()
                    invariant
                        k <= state.checks.len(),
                        self.spec_data().control is Checkbox,
                        forall|i: int| 0 <= i < k ==> !#[trigger] state.checks@[i],
                    decreases state.checks.len() - k,
                {
                    if state.checks[k] {
                        assert(state.checks@[k as int]);
                        return false;
                    }
                    k += 1;
                }
                true
            },
            PromptControl::Select(_) => state.select.value.is_none(),
        }
    }

    /// The answer a Submit commits: the chosen radio option, the checked
    /// options, or the selected option (none while nothing is chosen).
    pub fn submit_answer(&self, state: &ChatPromptState) -> (a: Option<PromptAnswer>)
        ensures
            !(self.spec_data().control is Checkbox) ==> a == match self.spec_data().control {
                PromptControl::Radio(_) => match state.choice {
                    Some(i) => Some(PromptAnswer::Radio(i)),
                    None => None,
                },
                PromptControl::Select(_) => match state.select.value {
                    Some(i) => Some(PromptAnswer::Select(i)),
                    None => None,
                },
                _ => None,
            },
            self.spec_data().control is Checkbox ==> (a matches Some(PromptAnswer::Checks(v)) && v@
                == checked(state.checks@, state.checks@.len() as int)),
    {
        match &self.data.control {
            PromptControl::Buttons(_) => None,
            PromptControl::Radio(_) => match state.choice {
                Some(i) => Some(PromptAnswer::Radio(i)),
                None => None,
            },
            PromptControl::Checkbox(_) => Some(PromptAnswer::Checks(state.checked_indices())),
            PromptControl::Select(_) => match state.select.value {
                Some(i) => Some(PromptAnswer::Select(i)),
                None => None,
            },
        }
    }

    /// The answer a click on button `i` commits, for a button prompt.
    pub fn button_answer(&self, i: usize) -> (a: Option<PromptAnswer>)
        ensures
            a == if self.spec_data().control is Buttons && i < control_options(
                self.spec_data().control,
            ).len() {
                Some(PromptAnswer::Button(i))
            } else {
                None
            },
    {
        match &self.data.control {
            PromptControl::Buttons(options) => if i < options.len() {
                Some(PromptAnswer::Button(i))
            } else {
                None
            },
            _ => None,
        }
    }
}

} // verus!
