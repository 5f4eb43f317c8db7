//! Embedded terminal: the session lifecycle, the debounced grid sync that
//! keeps the vt100 screen and the engine in step with the measured well,
//! paste framing, the bytes a frame of captured input sends, and the xterm
//! 256-colour table. The engine channels and the painting of the screen are
//! not part of this library: their caller hands the session what arrived and
//! performs the action it answers.

use vstd::prelude::*;
use vstd::string::StringSliceAdditionalSpecFns;
use vstd::utf8::encode_utf8;
use crate::strs::{decimal, spec_decimal, str_chars, string_of};

verus! {

/// vt100 scrollback lines.
pub const SCROLLBACK: usize = 2000;

/// Where the session is in its lifecycle. `Exited`/`Error` are terminal but
/// keep the last screen visible; a restart re-opens the session.
#[derive(Clone, Debug, PartialEq)]
pub enum TermStatus {
    /// Session opened, waiting for the engine's `ready` frame.
    Connecting,
    /// Live: tty bytes flow both ways.
    Ready,
    /// The shell/remote process exited with this code.
    Exited(i32),
    /// The engine reported an error (spawn/connect/auth failure).
    Error(String),
    /// The stream closed without an exit report, or the session was
    /// disconnected.
    Closed,
}

/// SSH connection parameters.
pub struct SshOptions {
    pub host: String,
    /// Default 22 (see [`SshOptions::new`]).
    pub port: u16,
    pub username: String,
    pub password: String,
}

impl SshOptions {
    pub fn new(host: &str, username: &str, password: &str) -> (o: SshOptions)
        ensures
            o.host@ == host@,
            o.port == 22,
            o.username@ == username@,
            o.password@ == password@,
    {
        SshOptions {
            host: host.to_owned(),
            port: 22,
            username: username.to_owned(),
            password: password.to_owned(),
        }
    }
}

/* ---------------- vt100 screen ---------------- */

/// A `vt100::Parser`, held as it is: the paint reads its screen.
#[verifier::external_body]
pub struct VtParser {
    /// The parser itself, which the paint reads.
    pub inner: vt100::Parser,
}

/// One thing done to a vt100 screen after it was made: tty output fed to
/// it, or a resize to `(rows, cols)`.
pub enum ScreenOp {
    Fed(Seq<u8>),
    Resized(u16, u16),
}

/// What a vt100 parser has been given since it was made, in order: the tty
/// output fed to it and the resizes. Its screen (cells, cursor, modes,
/// scrollback) is a function of the size it was made with and these.
pub uninterp spec fn vt_ops(p: VtParser) -> Seq<ScreenOp>;

/// The `(rows, cols)` a vt100 parser was made with.
pub uninterp spec fn vt_made(p: VtParser) -> (u16, u16);

/// `vt100::Parser::new`: a blank screen of `rows` x `cols` keeping
/// `scrollback` lines of history, given nothing yet. Both sizes must be
/// non-zero (vt100 computes `rows - 1` and `cols - 1`).
#[verifier::external_body]
fn vt_new(rows: u16, cols: u16, scrollback: usize) -> (p: VtParser)
    requires
        rows >= 1,
        cols >= 1,
    ensures
        vt_ops(p) == Seq::<ScreenOp>::empty(),
        vt_made(p) == (rows, cols),
{
    VtParser { inner: vt100::Parser::new(rows, cols, scrollback) }
}

/// `vt100::Parser::process`: feeds tty output into the screen, after
/// everything fed before it.
#[verifier::external_body]
fn vt_process(parser: &mut VtParser, bytes: &[u8])
    ensures
        vt_ops(*final(parser)) == vt_ops(*old(parser)).push(ScreenOp::Fed(bytes@)),
        vt_made(*final(parser)) == vt_made(*old(parser)),
{
    parser.inner.process(bytes);
}

/// `vt100::Screen::set_size` on the parser's screen: resizes both grids to
/// `rows` x `cols`. Both sizes must be non-zero (vt100 computes `rows - 1`
/// and `cols - 1`).
#[verifier::external_body]
fn vt_set_size(parser: &mut VtParser, rows: u16, cols: u16)
    requires
        rows >= 1,
        cols >= 1,
    ensures
        vt_ops(*final(parser)) == vt_ops(*old(parser)).push(ScreenOp::Resized(rows, cols)),
        vt_made(*final(parser)) == vt_made(*old(parser)),
{
    parser.inner.screen_mut().set_size(rows, cols);
}

/// The vt100 screen of a session, with the size it was last given.
pub struct TermScreen {
    parser: VtParser,
    rows: u16,
    cols: u16,
}

impl TermScreen {
    /// A blank screen of `rows` x `cols`.
    pub fn new(rows: u16, cols: u16) -> (s: TermScreen)
        requires
            rows >= 1,
            cols >= 1,
        ensures
            s.size() == (rows, cols),
            s.made() == (rows, cols),
            s.ops() == Seq::<ScreenOp>::empty(),
    {
        TermScreen { parser: vt_new(rows, cols, SCROLLBACK), rows, cols }
    }

    /// `(rows, cols)` as last set.
    pub closed spec fn size(&self) -> (u16, u16) {
        (self.rows, self.cols)
    }

    /// What the screen has been given since it was made, in order.
    pub closed spec fn ops(&self) -> Seq<ScreenOp> {
        vt_ops(self.parser)
    }

    /// The size the screen was made with.
    pub closed spec fn made(&self) -> (u16, u16) {
        vt_made(self.parser)
    }

    /// The parser the screen is held in.
    pub closed spec fn spec_parser(&self) -> VtParser {
        self.parser
    }

    pub fn rows_cols(&self) -> (r: (u16, u16))
        ensures
            r == self.size(),
    {
        (self.rows, self.cols)
    }

    /// Feed tty output: the bytes go to the screen after everything before
    /// them; the size stays.
    pub fn process(&mut self, bytes: &[u8])
        ensures
            final(self).size() == old(self).size(),
            final(self).ops() == old(self).ops().push(ScreenOp::Fed(bytes@)),
            final(self).made() == old(self).made(),
    {
        vt_process(&mut self.parser, bytes);
    }

    /// Resize to `rows` x `cols`.
    pub fn set_size(&mut self, rows: u16, cols: u16)
        requires
            rows >= 1,
            cols >= 1,
        ensures
            final(self).size() == (rows, cols),
            final(self).ops() == old(self).ops().push(ScreenOp::Resized(rows, cols)),
            final(self).made() == old(self).made(),
    {
        vt_set_size(&mut self.parser, rows, cols);
        self.rows = rows;
        self.cols = cols;
    }

    /// The parser, for painting.
    pub fn parser(&self) -> (p: &VtParser)
        ensures
            *p == self.spec_parser(),
    {
        &self.parser
    }
}

/* ---------------- session lifecycle ---------------- */

/// What arrived from the engine: tty output, a control frame, a control
/// frame that did not parse, or the end of the stream.
#[derive(Clone, Debug)]
pub enum TermFrame {
    Bytes(Vec<u8>),
    Ready,
    Exit(i32),
    Error(String),
    Malformed,
    Closed,
}

/// Whether the session is still starting or running.
pub open spec fn is_live(s: TermStatus) -> bool {
    s is Connecting || s is Ready
}

/// The status after a frame: control frames set it; the end of the stream
/// closes a live session and leaves an ended one as it was.
pub open spec fn status_after(s: TermStatus, f: TermFrame) -> TermStatus {
    match f {
        TermFrame::Ready => TermStatus::Ready,
        TermFrame::Exit(code) => TermStatus::Exited(code),
        TermFrame::Error(message) => TermStatus::Error(message),
        TermFrame::Closed => if is_live(s) {
            TermStatus::Closed
        } else {
            s
        },
        _ => s,
    }
}

/// The end of the stream closes a live session and keeps an ended one's
/// exit code or error.
pub proof fn lemma_close_keeps_outcome(s: TermStatus)
    ensures
        is_live(s) ==> status_after(s, TermFrame::Closed) == TermStatus::Closed,
        !is_live(s) ==> status_after(s, TermFrame::Closed) == s,
        status_after(status_after(s, TermFrame::Closed), TermFrame::Closed) == status_after(
            s,
            TermFrame::Closed,
        ),
{
}

/// What the grid sync asks of the caller this frame.
#[derive(Clone, Copy, Debug, PartialEq, Eq, Structural)]
pub enum GridAction {
    /// Send the `start` frame with this grid.
    Start { cols: u16, rows: u16 },
    /// Send a `resize` frame with this grid.
    Resize { cols: u16, rows: u16 },
    /// A new size was seen: note the time and check again once the debounce
    /// window has passed.
    Arm,
    /// The size is still settling: check again when the window closes.
    Wait,
    /// Nothing to do.
    Idle,
}

/// One terminal session: the screen, the lifecycle status, and the grid
/// the engine believes.
pub struct TermSession {
    pub screen: TermScreen,
    status: TermStatus,
    /// Whether the engine channels are still held.
    connected: bool,
    /// Whether the `start` frame went out.
    started: bool,
    /// Current grid as `(cols, rows)`.
    grid: (u16, u16),
    /// A measured size waiting for the debounce window.
    pending: Option<(u16, u16)>,
}

impl TermSession {
    pub closed spec fn spec_status(&self) -> TermStatus {
        self.status
    }

    pub closed spec fn spec_connected(&self) -> bool {
        self.connected
    }

    pub closed spec fn spec_started(&self) -> bool {
        self.started
    }

    pub closed spec fn spec_grid(&self) -> (u16, u16) {
        self.grid
    }

    pub closed spec fn spec_pending(&self) -> Option<(u16, u16)> {
        self.pending
    }

    /// What the session's screen has been given since it was made.
    pub closed spec fn screen_ops(&self) -> Seq<ScreenOp> {
        self.screen.ops()
    }

    /// The size the session's screen was made with.
    pub closed spec fn screen_made(&self) -> (u16, u16) {
        self.screen.made()
    }

    /// The screen agrees with the grid, which is at least 2 x 2.
    pub closed spec fn wf(&self) -> bool {
        &&& self.grid.0 >= 2
        &&& self.grid.1 >= 2
        &&& self.screen.size() == (self.grid.1, self.grid.0)
    }

    /// A session just opened: connecting, on an 80 x 24 screen, `start` not
    /// yet sent.
    pub fn open() -> (s: TermSession)
        ensures
            s.wf(),
            s.spec_status() == TermStatus::Connecting,
            s.spec_connected(),
            !s.spec_started(),
            s.spec_grid() == (80u16, 24u16),
            s.spec_pending() is None,
            s.screen_made() == (24u16, 80u16),
            s.screen_ops() == Seq::<ScreenOp>::empty(),
    {
        TermSession {
            screen: TermScreen::new(24, 80),
            status: TermStatus::Connecting,
            connected: true,
            started: false,
            grid: (80, 24),
            pending: None,
        }
    }

    pub fn status(&self) -> (s: &TermStatus)
        ensures
            *s == self.spec_status(),
    {
        &self.status
    }

    pub fn is_connected(&self) -> (b: bool)
        ensures
            b == self.spec_connected(),
    {
        self.connected
    }

    /// Take one frame from the engine: tty output goes to the screen,
    /// control frames move the status, a malformed frame is ignored, and
    /// the end of the stream drops the channels.
    pub fn on_frame(&mut self, frame: TermFrame)
        requires
            old(self).wf(),
        ensures
            final(self).wf(),
            final(self).spec_status() == status_after(old(self).spec_status(), frame),
            final(self).spec_connected() == (old(self).spec_connected() && !(frame is Closed)),
            final(self).spec_started() == old(self).spec_started(),
            final(self).spec_grid() == old(self).spec_grid(),
            final(self).spec_pending() == old(self).spec_pending(),
            final(self).screen_made() == old(self).screen_made(),
            final(self).screen_ops() == match frame {
                TermFrame::Bytes(b) => old(self).screen_ops().push(ScreenOp::Fed(b@)),
                _ => old(self).screen_ops(),
            },
    {
        match frame {
            TermFrame::Bytes(bytes) => {
                self.screen.process(bytes.as_slice());
            },
            TermFrame::Ready => {
                self.status = TermStatus::Ready;
            },
            TermFrame::Exit(code) => {
                self.status = TermStatus::Exited(code);
            },
            TermFrame::Error(message) => {
                self.status = TermStatus::Error(message);
            },
            TermFrame::Malformed => {},
            TermFrame::Closed => {
                if matches!(self.status, TermStatus::Connecting | TermStatus::Ready) {
                    self.status = TermStatus::Closed;
                }
                self.connected = false;
            },
        }
    }

    /// Drop the channels, ending the session. The status becomes `Closed`
    /// unless the session already ended with an exit code or error.
    pub fn disconnect(&mut self)
        requires
            old(self).wf(),
        ensures
            final(self).wf(),
            !final(self).spec_connected(),
            final(self).spec_status() == status_after(old(self).spec_status(), TermFrame::Closed),
            final(self).spec_started() == old(self).spec_started(),
            final(self).spec_grid() == old(self).spec_grid(),
            final(self).spec_pending() == old(self).spec_pending(),
            final(self).screen_made() == old(self).screen_made(),
            final(self).screen_ops() == old(self).screen_ops(),
    {
        self.connected = false;
        if matches!(self.status, TermStatus::Connecting | TermStatus::Ready) {
            self.status = TermStatus::Closed;
        }
    }

    /// Re-open on a fresh screen of the current grid: connecting again,
    /// `start` to be sent anew.
    pub fn restart(&mut self)
        requires
            old(self).wf(),
        ensures
            final(self).wf(),
            final(self).spec_status() == TermStatus::Connecting,
            final(self).spec_connected(),
            !final(self).spec_started(),
            final(self).spec_grid() == old(self).spec_grid(),
            final(self).spec_pending() is None,
            final(self).screen_made() == (old(self).spec_grid().1, old(self).spec_grid().0),
            final(self).screen_ops() == Seq::<ScreenOp>::empty(),
    {
        let rows = if self.grid.1 < 2 { 2 } else { self.grid.1 };
        let cols = if self.grid.0 < 2 { 2 } else { self.grid.0 };
        self.screen = TermScreen::new(rows, cols);
        self.grid = (cols, rows);
        self.status = TermStatus::Connecting;
        self.connected = true;
        self.started = false;
        self.pending = None;
    }

    /// Follow the measured grid `(cols, rows)`, which the well clamps to at
    /// least 2 x 2. The first call sizes the
    /// screen and asks for `start`; later a new size is applied (screen
    /// resized, `resize` asked for) only once it has held still for the
    /// debounce window, which `settled` reports for the pending size.
    pub fn sync_grid(&mut self, cols: u16, rows: u16, settled: bool) -> (a: GridAction)
        requires
            old(self).wf(),
            cols >= 2,
            rows >= 2,
        ensures
            final(self).wf(),
            final(self).spec_status() == old(self).spec_status(),
            final(self).spec_connected() == old(self).spec_connected(),
            final(self).spec_started() == old(self).spec_started(),
            final(self).screen_made() == old(self).screen_made(),
            final(self).screen_ops() == if a is Start || a is Resize {
                old(self).screen_ops().push(ScreenOp::Resized(rows, cols))
            } else {
                old(self).screen_ops()
            },
            !old(self).spec_started() ==> {
                &&& a == GridAction::Start { cols, rows }
                &&& final(self).spec_grid() == (cols, rows)
                &&& final(self).spec_pending() == old(self).spec_pending()
            },
            old(self).spec_started() && old(self).spec_grid() == (cols, rows) ==> {
                &&& a == GridAction::Idle
                &&& final(self).spec_grid() == old(self).spec_grid()
                &&& final(self).spec_pending() is None
            },
            old(self).spec_started() && old(self).spec_grid() != (cols, rows) && old(self).spec_pending()
                == Some((cols, rows)) ==> if settled {
                &&& a == GridAction::Resize { cols, rows }
                &&& final(self).spec_grid() == (cols, rows)
                &&& final(self).spec_pending() is None
            } else {
                &&& a == GridAction::Wait
                &&& final(self).spec_grid() == old(self).spec_grid()
                &&& final(self).spec_pending() == old(self).spec_pending()
            },
            old(self).spec_started() && old(self).spec_grid() != (cols, rows) && old(self).spec_pending()
                != Some((cols, rows)) ==> {
                &&& a == GridAction::Arm
                &&& final(self).spec_grid() == old(self).spec_grid()
                &&& final(self).spec_pending() == Some((cols, rows))
            },
    {
        if !self.started {
            self.screen.set_size(rows, cols);
            self.grid = (cols, rows);
            return GridAction::Start { cols, rows };
        }
        if cols == self.grid.0 && rows == self.grid.1 {
            self.pending = None;
            return GridAction::Idle;
        }
        let same_pending = match self.pending {
            Some((c, r)) => c == cols && r == rows,
            None => false,
        };
        if same_pending {
            if settled {
                self.screen.set_size(rows, cols);
                self.grid = (cols, rows);
                self.pending = None;
                GridAction::Resize { cols, rows }
            } else {
                GridAction::Wait
            }
        } else {
            self.pending = Some((cols, rows));
            GridAction::Arm
        }
    }

    /// Record whether the `start` frame went out; a failed send leaves the
    /// session unstarted (the stream's end reports it closed).
    pub fn start_sent(&mut self, sent: bool)
        requires
            old(self).wf(),
        ensures
            final(self).wf(),
            final(self).spec_started() == (old(self).spec_started() || sent),
            final(self).spec_status() == old(self).spec_status(),
            final(self).spec_connected() == old(self).spec_connected(),
            final(self).spec_grid() == old(self).spec_grid(),
            final(self).spec_pending() == old(self).spec_pending(),
            final(self).screen_made() == old(self).screen_made(),
            final(self).screen_ops() == old(self).screen_ops(),
    {
        if sent {
            self.started = true;
        }
    }
}

/* ---------------- overlays ---------------- */

/// What the well shows over the screen for a status.
#[derive(Clone, Debug)]
pub enum TermOverlay {
    /// Live: nothing over the screen.
    Clear,
    /// A centred `connecting…` note.
    Connecting,
    /// A finished session: a dimmed screen with a centred message.
    Ended(String),
    /// An engine error: a danger banner across the top with the message.
    Banner(String),
}

/// The decimal form of `n`, with a `-` when negative.
pub open spec fn signed_decimal(n: int) -> Seq<char> {
    if n < 0 {
        seq!['-'] + spec_decimal((-n) as nat)
    } else {
        spec_decimal(n as nat)
    }
}

fn signed_digits(n: i32) -> (out: Vec<char>)
    ensures
        out@ == signed_decimal(n as int),
{
    if n < 0 {
        let magnitude: u64 = (-(n as i64)) as u64;
        let digits = decimal(magnitude);
        let mut out: Vec<char> = Vec::new();
        out.push('-');
        let mut k: usize = 0;
        while k < digits.len()
            invariant
                k <= digits@.len(),
                out@ == seq!['-'] + digits@.take(k as int),
            decreases digits@.len() - k,
        {
            out.push(digits[k]);
            k += 1;
            assert(out@ =~= seq!['-'] + digits@.take(k as int));
        }
        assert(digits@.take(digits@.len() as int) =~= digits@);
        out
    } else {
        decimal(n as u64)
    }
}

/// The message over a session that exited with `code`.
pub open spec fn exit_message(code: i32) -> Seq<char> {
    "process exited (code "@ + signed_decimal(code as int) + seq![')']
}

/// The message over a session that closed.
pub open spec fn closed_message() -> Seq<char> {
    "session closed"@
}

impl TermStatus {
    /// What the well shows over the screen: nothing while live, a note
    /// while connecting, the exit code or `session closed` over a dimmed
    /// screen when finished, the error message in a banner.
    pub fn overlay(&self) -> (o: TermOverlay)
        ensures
            match self {
                TermStatus::Ready => o is Clear,
                TermStatus::Connecting => o is Connecting,
                TermStatus::Exited(code) => o matches TermOverlay::Ended(m) && m@ == exit_message(*code),
                TermStatus::Closed => o matches TermOverlay::Ended(m) && m@ == closed_message(),
                TermStatus::Error(message) => o matches TermOverlay::Banner(m) && m@ == message@,
            },
    {
        match self {
            TermStatus::Ready => TermOverlay::Clear,
            TermStatus::Connecting => TermOverlay::Connecting,
            TermStatus::Exited(code) => {
                let mut out = str_chars("process exited (code ");
                let digits = signed_digits(*code);
                let ghost head = out@;
                let mut k: usize = 0;
                while k < digits.len()
                    invariant
                        k <= digits@.len(),
                        out@ == head + digits@.take(k as int),
                    decreases digits@.len() - k,
                {
                    out.push(digits[k]);
                    k += 1;
                    assert(out@ =~= head + digits@.take(k as int));
                }
                assert(digits@.take(digits@.len() as int) =~= digits@);
                out.push(')');
                TermOverlay::Ended(string_of(&out))
            },
            TermStatus::Closed => TermOverlay::Ended("session closed".to_owned()),
            TermStatus::Error(message) => TermOverlay::Banner(message.clone()),
        }
    }
}

/* ---------------- input ---------------- */

/// The bracketed-paste start marker, `ESC [ 2 0 0 ~`.
pub open spec fn paste_open() -> Seq<u8> {
    seq![0x1bu8, 0x5bu8, 0x32u8, 0x30u8, 0x30u8, 0x7eu8]
}

/// The bracketed-paste end marker, `ESC [ 2 0 1 ~`.
pub open spec fn paste_close() -> Seq<u8> {
    seq![0x1bu8, 0x5bu8, 0x32u8, 0x30u8, 0x31u8, 0x7eu8]
}

/// The bytes a paste sends: the text's UTF-8, framed by the bracketed-paste
/// markers when the running program asked for them.
pub fn paste_bytes(text: &str, bracketed: bool) -> (out: Vec<u8>)
    ensures
        out@ == if bracketed {
            paste_open() + text.spec_bytes() + paste_close()
        } else {
            text.spec_bytes()
        },
{
    let body = text.as_bytes();
    let mut out: Vec<u8> = Vec::new();
    if bracketed {
        out.push(0x1b);
        out.push(0x5b);
        out.push(0x32);
        out.push(0x30);
        out.push(0x30);
        out.push(0x7e);
    }
    let ghost start = out@;
    let mut k: usize = 0;
    while k < body.len()
        invariant
            k <= body@.len(),
            body@ == text.spec_bytes(),
            start == if bracketed { paste_open() } else { Seq::<u8>::empty() },
            out@ == start + body@.take(k as int),
        decreases body@.len() - k,
    {
        out.push(body[k]);
        k += 1;
        proof {
            assert(body@.take(k as int) =~= body@.take(k - 1) + seq![body@[k - 1]]);
            assert(out@ =~= start + body@.take(k as int));
        }
    }
    assert(body@.take(body@.len() as int) =~= body@);
    if bracketed {
        out.push(0x1b);
        out.push(0x5b);
        out.push(0x32);
        out.push(0x30);
        out.push(0x31);
        out.push(0x7e);
        assert(out@ =~= paste_open() + text.spec_bytes() + paste_close());
    } else {
        assert(out@ =~= text.spec_bytes());
    }
    out
}

/// The bytes a paste of text `t` sends (see [`paste_bytes`]).
pub open spec fn spec_paste(t: Seq<char>, bracketed: bool) -> Seq<u8> {
    if bracketed {
        paste_open() + encode_utf8(t) + paste_close()
    } else {
        encode_utf8(t)
    }
}

/// One input event of a frame while the terminal holds the keyboard.
pub enum TermInput {
    /// A key press or release: whether it is the Q key, its modifiers, and
    /// the bytes the shared key table encodes it to (none for a key with no
    /// sequence of its own).
    Key { pressed: bool, is_q: bool, ctrl: bool, shift: bool, alt: bool, encoded: Option<Vec<u8>> },
    /// Text the key presses produced.
    Text(String),
    /// A paste.
    Paste(String),
}

/// The bytes to send, whether a Ctrl/Alt chord was seen (its text is then
/// suppressed), and whether the capture-release chord was pressed, after
/// the events `evs`.
pub open spec fn spec_input(evs: Seq<TermInput>, bracketed: bool) -> (Seq<u8>, bool, bool)
    decreases evs.len(),
{
    if evs.len() == 0 {
        (Seq::empty(), false, false)
    } else {
        let (bytes, saw, release) = spec_input(evs.drop_last(), bracketed);
        match evs.last() {
            TermInput::Key { pressed, is_q, ctrl, shift, alt, encoded } => if pressed && is_q && ctrl
                && shift {
                (bytes, saw, true)
            } else if pressed {
                match encoded {
                    Some(seq) => (bytes + seq@, saw || ctrl || alt, release),
                    None => (bytes, saw, release),
                }
            } else {
                (bytes, saw, release)
            },
            TermInput::Text(t) => if saw {
                (bytes, saw, release)
            } else {
                (bytes + encode_utf8(t@), saw, release)
            },
            TermInput::Paste(t) => (bytes + spec_paste(t@, bracketed), saw, release),
        }
    }
}

/// A paste adds exactly the pasted text's UTF-8 to what the frame sends,
/// framed by `ESC [200~` and `ESC [201~` only when the program asked for
/// bracketed paste; it neither suppresses nor releases anything.
pub proof fn lemma_paste_framing(evs: Seq<TermInput>, t: String, bracketed: bool)
    ensures
        spec_input(evs.push(TermInput::Paste(t)), bracketed).0 == spec_input(evs, bracketed).0 + (
        if bracketed {
            seq![0x1bu8, 0x5bu8, 0x32u8, 0x30u8, 0x30u8, 0x7eu8] + encode_utf8(t@) + seq![
                0x1bu8,
                0x5bu8,
                0x32u8,
                0x30u8,
                0x31u8,
                0x7eu8,
            ]
        } else {
            encode_utf8(t@)
        }),
        spec_input(evs.push(TermInput::Paste(t)), bracketed).1 == spec_input(evs, bracketed).1,
        spec_input(evs.push(TermInput::Paste(t)), bracketed).2 == spec_input(evs, bracketed).2,
        spec_input(seq![TermInput::Paste(t)], false).0 == encode_utf8(t@),
{
    assert(evs.push(TermInput::Paste(t)).drop_last() =~= evs);
    assert(seq![TermInput::Paste(t)].drop_last() =~= Seq::<TermInput>::empty());
    assert(spec_input(Seq::<TermInput>::empty(), false).0 == Seq::<u8>::empty());
    assert(Seq::<u8>::empty() + encode_utf8(t@) =~= encode_utf8(t@));
}

/// Ctrl+Shift+Q releases the keyboard and sends nothing; a pressed key
/// with a sequence sends exactly that sequence; text is sent as UTF-8 until
/// a Ctrl or Alt chord has been sent in the frame, and not after it.
pub proof fn lemma_key_and_text(evs: Seq<TermInput>, t: String, seq: Vec<u8>, ctrl: bool, alt: bool, bracketed: bool)
    ensures
        ({
            let before = spec_input(evs, bracketed);
            let quit = spec_input(
                evs.push(TermInput::Key { pressed: true, is_q: true, ctrl: true, shift: true, alt, encoded: Some(seq) }),
                bracketed,
            );
            let key = spec_input(
                evs.push(TermInput::Key { pressed: true, is_q: false, ctrl, shift: false, alt, encoded: Some(seq) }),
                bracketed,
            );
            let chord_then_text = spec_input(
                evs.push(TermInput::Key { pressed: true, is_q: false, ctrl: true, shift: false, alt, encoded: Some(seq) }).push(
                    TermInput::Text(t),
                ),
                bracketed,
            );
            let text = spec_input(evs.push(TermInput::Text(t)), bracketed);
            &&& quit.0 == before.0 && quit.2
            &&& key.0 == before.0 + seq@
            &&& chord_then_text.0 == before.0 + seq@
            &&& !before.1 ==> text.0 == before.0 + encode_utf8(t@)
        }),
{
    let k1 = TermInput::Key { pressed: true, is_q: true, ctrl: true, shift: true, alt, encoded: Some(seq) };
    let k2 = TermInput::Key { pressed: true, is_q: false, ctrl, shift: false, alt, encoded: Some(seq) };
    let k3 = TermInput::Key { pressed: true, is_q: false, ctrl: true, shift: false, alt, encoded: Some(seq) };
    assert(evs.push(k1).drop_last() =~= evs);
    assert(evs.push(k2).drop_last() =~= evs);
    assert(evs.push(k3).drop_last() =~= evs);
    assert(evs.push(k3).push(TermInput::Text(t)).drop_last() =~= evs.push(k3));
    assert(evs.push(TermInput::Text(t)).drop_last() =~= evs);
    let before = spec_input(evs, bracketed);
    assert(spec_input(evs.push(k1), bracketed) == (before.0, before.1, true));
    assert(spec_input(evs.push(k2), bracketed).0 == before.0 + seq@);
    let mid = spec_input(evs.push(k3), bracketed);
    assert(mid == (before.0 + seq@, true, before.2));
    assert(spec_input(evs.push(k3).push(TermInput::Text(t)), bracketed) == mid);
    if !before.1 {
        assert(spec_input(evs.push(TermInput::Text(t)), bracketed).0 == before.0 + encode_utf8(t@));
    }
}

fn append_bytes(out: &mut Vec<u8>, more: &[u8])
    ensures
        final(out)@ == old(out)@ + more@,
{
    let ghost start = out@;
    let mut k: usize = 0;
    while k < more.len()
        invariant
            k <= more@.len(),
            out@ == start + more@.take(k as int),
        decreases more@.len() - k,
    {
        out.push(more[k]);
        k += 1;
        assert(out@ =~= start + more@.take(k as int));
    }
    assert(more@.take(more@.len() as int) =~= more@);
}

/// A frame of captured input: the bytes to send to the session, and
/// whether Ctrl+Shift+Q released the keyboard. Keys send their encoded
/// sequence; text is sent as UTF-8 unless a Ctrl/Alt chord came before it
/// in the frame (some platforms also report a chord as text); a paste is
/// framed when the program asked for bracketed paste; the release chord is
/// never sent.
pub fn input_bytes(evs: &Vec<TermInput>, bracketed: bool) -> (r: (Vec<u8>, bool))
    ensures
        r.0@ == spec_input(evs@, bracketed).0,
        r.1 == spec_input(evs@, bracketed).2,
{
    let mut bytes: Vec<u8> = Vec::new();
    let mut saw = false;
    let mut release = false;
    let mut k: usize = 0;
    while k < evs.len()
        invariant
            k <= evs@.len(),
            (bytes@, saw, release) == spec_input(evs@.take(k as int), bracketed),
        decreases evs@.len() - k,
    {
        proof {
            assert(evs@.take(k + 1).drop_last() =~= evs@.take(k as int));
            assert(evs@.take(k + 1).last() == evs@[k as int]);
        }
        match &evs[k] {
            TermInput::Key { pressed, is_q, ctrl, shift, alt, encoded } => {
                if *pressed && *is_q && *ctrl && *shift {
                    release = true;
                } else if *pressed {
                    match encoded {
                        Some(seq) => {
                            append_bytes(&mut bytes, seq.as_slice());
                            if *ctrl || *alt {
                                saw = true;
                            }
                        },
                        None => {},
                    }
                }
            },
            TermInput::Text(t) => {
                if !saw {
                    append_bytes(&mut bytes, t.as_str().as_bytes());
                }
            },
            TermInput::Paste(t) => {
                let framed = paste_bytes(t.as_str(), bracketed);
                append_bytes(&mut bytes, framed.as_slice());
            },
        }
        k += 1;
    }
    assert(evs@.take(evs@.len() as int) =~= evs@);
    (bytes, release)
}

/* ---------------- palette ---------------- */

/// The theme role each of the sixteen ANSI colours takes.
#[derive(Clone, Copy, Debug, PartialEq, Eq, Structural)]
pub enum AnsiRole {
    /// Black: the pressed surface.
    SurfacePressed,
    /// Red: the danger base.
    DangerBase,
    /// Green: the success base.
    SuccessBase,
    /// Yellow: the warning base.
    WarningBase,
    /// Blue: the accent base.
    AccentBase,
    /// Magenta: the danger and accent bases blended half and half.
    DangerAccentBase,
    /// Cyan: the info base.
    InfoBase,
    /// White: secondary text.
    TextSecondary,
    /// Bright black: tertiary text.
    TextTertiary,
    /// Bright red: the danger foreground.
    DangerFg,
    /// Bright green: the success foreground.
    SuccessFg,
    /// Bright yellow: the warning foreground.
    WarningFg,
    /// Bright blue: the accent foreground.
    AccentFg,
    /// Bright magenta: the danger and accent foregrounds blended.
    DangerAccentFg,
    /// Bright cyan: the info foreground.
    InfoFg,
    /// Bright white: primary text.
    TextPrimary,
}

/// A 256-colour index as the terminal paints it: one of the themed ANSI
/// sixteen, or a fixed RGB of the xterm table.
#[derive(Clone, Copy, Debug, PartialEq, Eq, Structural)]
pub enum XtermColor {
    Themed(AnsiRole),
    Rgb(u8, u8, u8),
}

/// The role of ANSI colour `i`, for `i < 16`.
pub open spec fn spec_ansi_role(i: u8) -> AnsiRole {
    if i == 0 {
        AnsiRole::SurfacePressed
    } else if i == 1 {
        AnsiRole::DangerBase
    } else if i == 2 {
        AnsiRole::SuccessBase
    } else if i == 3 {
        AnsiRole::WarningBase
    } else if i == 4 {
        AnsiRole::AccentBase
    } else if i == 5 {
        AnsiRole::DangerAccentBase
    } else if i == 6 {
        AnsiRole::InfoBase
    } else if i == 7 {
        AnsiRole::TextSecondary
    } else if i == 8 {
        AnsiRole::TextTertiary
    } else if i == 9 {
        AnsiRole::DangerFg
    } else if i == 10 {
        AnsiRole::SuccessFg
    } else if i == 11 {
        AnsiRole::WarningFg
    } else if i == 12 {
        AnsiRole::AccentFg
    } else if i == 13 {
        AnsiRole::DangerAccentFg
    } else if i == 14 {
        AnsiRole::InfoFg
    } else {
        AnsiRole::TextPrimary
    }
}

/// The colour of 256-colour index `i`: the theme role of the sixteen ANSI
/// colours, the xterm cube and gray ramp beyond (see [`spec_xterm_rgb`]).
pub fn xterm_color(i: u8) -> (c: XtermColor)
    ensures
        i < 16 ==> c == XtermColor::Themed(spec_ansi_role(i)),
        match spec_xterm_rgb(i) {
            Some((r, g, b)) => c matches XtermColor::Rgb(r2, g2, b2) && r2 == r && g2 == g && b2 == b,
            None => c is Themed,
        },
{
    match xterm_rgb(i) {
        Some((r, g, b)) => XtermColor::Rgb(r, g, b),
        None => {
            let role = if i == 0 {
                AnsiRole::SurfacePressed
            } else if i == 1 {
                AnsiRole::DangerBase
            } else if i == 2 {
                AnsiRole::SuccessBase
            } else if i == 3 {
                AnsiRole::WarningBase
            } else if i == 4 {
                AnsiRole::AccentBase
            } else if i == 5 {
                AnsiRole::DangerAccentBase
            } else if i == 6 {
                AnsiRole::InfoBase
            } else if i == 7 {
                AnsiRole::TextSecondary
            } else if i == 8 {
                AnsiRole::TextTertiary
            } else if i == 9 {
                AnsiRole::DangerFg
            } else if i == 10 {
                AnsiRole::SuccessFg
            } else if i == 11 {
                AnsiRole::WarningFg
            } else if i == 12 {
                AnsiRole::AccentFg
            } else if i == 13 {
                AnsiRole::DangerAccentFg
            } else if i == 14 {
                AnsiRole::InfoFg
            } else {
                AnsiRole::TextPrimary
            };
            XtermColor::Themed(role)
        },
    }
}

/// The role of the terminal's default foreground: primary text (the
/// default background is the well itself).
pub fn default_fg_role() -> (r: AnsiRole)
    ensures
        r == AnsiRole::TextPrimary,
{
    AnsiRole::TextPrimary
}

/// An xterm colour-cube component for cube index `v` in `0..6`.
pub open spec fn cube_level(v: int) -> int {
    if v == 0 {
        0
    } else {
        55 + 40 * v
    }
}

/// The fixed RGB of xterm colour `i` beyond the sixteen themed ones: the
/// 6 x 6 x 6 cube for `16..=231`, the gray ramp for `232..=255`.
pub open spec fn spec_xterm_rgb(i: u8) -> Option<(int, int, int)> {
    if i < 16 {
        None
    } else if i <= 231 {
        let n = i - 16;
        Some((cube_level(n / 36), cube_level((n % 36) / 6), cube_level(n % 6)))
    } else {
        let v = 8 + 10 * (i - 232);
        Some((v, v, v))
    }
}

fn cube_component(v: u8) -> (c: u8)
    requires
        v < 6,
    ensures
        c == cube_level(v as int),
{
    if v == 0 {
        0
    } else {
        55 + 40 * v
    }
}

/// The RGB of 256-colour index `i` when it is fixed by the xterm table;
/// `None` for the sixteen ANSI colours, which follow the theme.
pub fn xterm_rgb(i: u8) -> (c: Option<(u8, u8, u8)>)
    ensures
        match spec_xterm_rgb(i) {
            Some((r, g, b)) => c matches Some((r2, g2, b2)) && r2 == r && g2 == g && b2 == b,
            None => c is None,
        },
{
    if i < 16 {
        None
    } else if i <= 231 {
        let n = i - 16;
        Some((cube_component(n / 36), cube_component((n % 36) / 6), cube_component(n % 6)))
    } else {
        let v = 8 + 10 * (i - 232);
        Some((v, v, v))
    }
}

} // verus!
