use forge_egui::term::{default_fg_role, input_bytes, paste_bytes, xterm_color, xterm_rgb, AnsiRole, TermInput, XtermColor, GridAction, SshOptions, TermFrame, TermOverlay, TermSession, TermStatus};

#[test]
fn color_cube_and_gray_ramp_math() {
    // Cube corners and a mid gray, per the xterm component table.
    assert_eq!(xterm_rgb(16), Some((0, 0, 0)));
    assert_eq!(xterm_rgb(21), Some((0, 0, 255)));
    assert_eq!(xterm_rgb(231), Some((255, 255, 255)));
    assert_eq!(xterm_rgb(244), Some((128, 128, 128)));
    assert_eq!(xterm_rgb(255), Some((238, 238, 238)));
}

#[test]
fn ansi_sixteen_follow_the_theme() {
    for i in 0..16u8 {
        assert_eq!(xterm_rgb(i), None);
    }
    assert_eq!(xterm_rgb(196), Some((255, 0, 0)));
    assert_eq!(xterm_rgb(232), Some((8, 8, 8)));
    assert_eq!(xterm_rgb(17), Some((0, 0, 95)));
}

#[test]
fn ssh_options_default_port() {
    let o = SshOptions::new("host.example", "me", "SECRET-REDACTED");
    assert_eq!(o.host, "host.example");
    assert_eq!(o.port, 22);
    assert_eq!(o.username, "me");
    assert_eq!(o.password, "SECRET-REDACTED");
}

#[test]
fn lifecycle_follows_control_frames() {
    let mut s = TermSession::open();
    assert_eq!(*s.status(), TermStatus::Connecting);
    s.on_frame(TermFrame::Ready);
    assert_eq!(*s.status(), TermStatus::Ready);
    s.on_frame(TermFrame::Bytes(b"hello\r\n".to_vec()));
    s.on_frame(TermFrame::Malformed);
    assert_eq!(*s.status(), TermStatus::Ready);
    s.on_frame(TermFrame::Exit(3));
    assert_eq!(*s.status(), TermStatus::Exited(3));
    // The end of the stream keeps the exit code.
    s.on_frame(TermFrame::Closed);
    assert_eq!(*s.status(), TermStatus::Exited(3));
    assert!(!s.is_connected());
}

#[test]
fn disconnect_closes_a_live_session_only() {
    let mut s = TermSession::open();
    s.disconnect();
    assert_eq!(*s.status(), TermStatus::Closed);
    assert!(!s.is_connected());
    let mut s = TermSession::open();
    s.on_frame(TermFrame::Error("auth failed".into()));
    s.disconnect();
    assert_eq!(*s.status(), TermStatus::Error("auth failed".into()));
    s.restart();
    assert_eq!(*s.status(), TermStatus::Connecting);
    assert!(s.is_connected());
}

#[test]
fn grid_sync_debounces_resizes() {
    let mut s = TermSession::open();
    assert_eq!(s.sync_grid(100, 30, false), GridAction::Start { cols: 100, rows: 30 });
    assert_eq!(s.screen.rows_cols(), (30, 100));
    s.start_sent(true);
    assert_eq!(s.sync_grid(100, 30, false), GridAction::Idle);
    assert_eq!(s.sync_grid(120, 30, false), GridAction::Arm);
    assert_eq!(s.sync_grid(120, 30, false), GridAction::Wait);
    assert_eq!(s.sync_grid(120, 40, true), GridAction::Arm);
    assert_eq!(s.sync_grid(120, 40, true), GridAction::Resize { cols: 120, rows: 40 });
    assert_eq!(s.screen.rows_cols(), (40, 120));
    assert_eq!(s.sync_grid(120, 40, true), GridAction::Idle);
}

#[test]
fn a_failed_start_is_sent_again() {
    let mut s = TermSession::open();
    assert_eq!(s.sync_grid(80, 24, false), GridAction::Start { cols: 80, rows: 24 });
    s.start_sent(false);
    assert_eq!(s.sync_grid(80, 24, false), GridAction::Start { cols: 80, rows: 24 });
}

#[test]
fn paste_is_framed_only_when_bracketed() {
    assert_eq!(paste_bytes("ls", false), b"ls".to_vec());
    assert_eq!(paste_bytes("ls", true), b"\x1b[200~ls\x1b[201~".to_vec());
    assert_eq!(paste_bytes("é", false), "é".as_bytes().to_vec());
    assert_eq!(paste_bytes("", true), b"\x1b[200~\x1b[201~".to_vec());
}

#[test]
fn status_overlays_name_the_outcome() {
    assert!(matches!(TermStatus::Ready.overlay(), TermOverlay::Clear));
    assert!(matches!(TermStatus::Connecting.overlay(), TermOverlay::Connecting));
    assert!(matches!(TermStatus::Exited(0).overlay(), TermOverlay::Ended(m) if m == "process exited (code 0)"));
    assert!(matches!(TermStatus::Exited(-9).overlay(), TermOverlay::Ended(m) if m == "process exited (code -9)"));
    assert!(matches!(TermStatus::Exited(i32::MIN).overlay(), TermOverlay::Ended(m) if m == "process exited (code -2147483648)"));
    assert!(matches!(TermStatus::Exited(130).overlay(), TermOverlay::Ended(m) if m == "process exited (code 130)"));
    assert!(matches!(TermStatus::Closed.overlay(), TermOverlay::Ended(m) if m == "session closed"));
    assert!(matches!(TermStatus::Error("auth failed".into()).overlay(), TermOverlay::Banner(m) if m == "auth failed"));
}

#[test]
fn ansi_colours_take_theme_roles() {
    assert_eq!(xterm_color(0), XtermColor::Themed(AnsiRole::SurfacePressed));
    assert_eq!(xterm_color(1), XtermColor::Themed(AnsiRole::DangerBase));
    assert_eq!(xterm_color(7), XtermColor::Themed(AnsiRole::TextSecondary));
    assert_eq!(xterm_color(9), XtermColor::Themed(AnsiRole::DangerFg));
    assert_eq!(xterm_color(15), XtermColor::Themed(AnsiRole::TextPrimary));
    assert_eq!(xterm_color(21), XtermColor::Rgb(0, 0, 255));
    assert_eq!(xterm_color(244), XtermColor::Rgb(128, 128, 128));
    assert_eq!(default_fg_role(), AnsiRole::TextPrimary);
}

fn key(is_q: bool, ctrl: bool, shift: bool, alt: bool, encoded: Option<&[u8]>) -> TermInput {
    TermInput::Key { pressed: true, is_q, ctrl, shift, alt, encoded: encoded.map(|e| e.to_vec()) }
}

#[test]
fn captured_input_becomes_bytes() {
    // Typing: text passes through; an arrow key sends its sequence.
    let evs = vec![TermInput::Text("ls".into()), key(false, false, false, false, Some(b"\x1b[A"))];
    assert_eq!(input_bytes(&evs, false), (b"ls\x1b[A".to_vec(), false));
    // A Ctrl chord suppresses the text reported after it in the frame.
    let evs = vec![key(false, true, false, false, Some(b"\x03")), TermInput::Text("c".into())];
    assert_eq!(input_bytes(&evs, false), (b"\x03".to_vec(), false));
    // Ctrl+Shift+Q releases the keyboard and sends nothing.
    let evs = vec![key(true, true, true, false, Some(b"\x11"))];
    assert_eq!(input_bytes(&evs, false), (Vec::new(), true));
    // Released keys and keys without a sequence send nothing; pastes are framed.
    let evs = vec![
        TermInput::Key { pressed: false, is_q: false, ctrl: false, shift: false, alt: false, encoded: Some(b"x".to_vec()) },
        key(false, false, false, false, None),
        TermInput::Paste("hi".into()),
    ];
    assert_eq!(input_bytes(&evs, true), (b"\x1b[200~hi\x1b[201~".to_vec(), false));
}
