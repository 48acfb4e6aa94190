//! Host-side surfaces: keymaps as extension values, key-description
//! parsing, value rendering, and the frame proxy channels.

use rselisp::{
    BasicEvent, Event, EventModifiers, FrameCmd, FrameProxy, Inner, Keymap, Lsp, SyntaxError,
    UserEvent,
};

#[test]
fn parse_key_reads_modifiers_and_key() {
    let km = Keymap::new();
    let ev = km.parse_key("\\C-x").expect("parse failed");
    assert_eq!(
        ev,
        Event {
            basic: BasicEvent::Char('x'),
            modifiers: EventModifiers { control: true, shift: false, alt: false },
        }
    );
    let ev2 = km.parse_key("\\C-\\M-q").expect("parse failed");
    assert_eq!(
        ev2,
        Event {
            basic: BasicEvent::Char('q'),
            modifiers: EventModifiers { control: true, shift: false, alt: true },
        }
    );
}

#[test]
fn parse_key_reads_escaped_backslash() {
    let km = Keymap::new();
    let ev = km.parse_key("\\\\").expect("parse failed");
    assert_eq!(ev.basic, BasicEvent::Char('\\'));
}

#[test]
fn parse_key_rejects_bad_descriptions() {
    let km = Keymap::new();
    assert_eq!(km.parse_key("\\Q-x").err(), Some(SyntaxError::UnknownEscape('Q')));
    assert_eq!(km.parse_key("\\").err(), Some(SyntaxError::TruncatedEscape));
    assert_eq!(km.parse_key("\\Cx").err(), Some(SyntaxError::ExpectedDash));
    assert_eq!(km.parse_key("").err(), Some(SyntaxError::EmptyKey));
    assert_eq!(km.parse_key("xy").err(), Some(SyntaxError::TrailingKey));
}

#[test]
fn keymap_lookup_finds_latest_binding() {
    let mut km = Keymap::new();
    let key = km.parse_key("\\C-f").expect("parse failed");
    km.define_key(key, Inner::sym("forward"));
    km.define_key(key, Inner::sym("forward-again"));
    match km.lookup_key(&key) {
        Some(Inner::Sym(s)) => assert_eq!(s, "forward-again"),
        other => panic!("unexpected lookup result: {:?}", other.is_some()),
    }
    let other_key = km.parse_key("q").expect("parse failed");
    assert!(km.lookup_key(&other_key).is_none());
}

#[test]
fn keymap_travels_through_the_language() {
    let mut lsp = Lsp::new();
    let km = lsp.make_keymap();
    lsp.set_global("mymap".to_owned(), &km);
    let ast = lsp.read(&"(keymapp mymap)".to_owned()).expect("read failed");
    let v = lsp.eval(&ast).expect("eval failed");
    assert!(matches!(v, Inner::Sym(s) if s == "t"));
    let ast2 = lsp
        .read(&"(define-key mymap \"\\C-f\" 'forward)".to_owned())
        .expect("read failed");
    let stored = lsp.eval(&ast2).expect("eval failed");
    // The stored action is a shared reference cell.
    assert!(matches!(stored, Inner::Ref(_)));
}

#[test]
fn keymapp_is_empty_list_on_plain_values() {
    let mut lsp = Lsp::new();
    let ast = lsp.read(&"(keymapp 5)".to_owned()).expect("read failed");
    let v = lsp.eval(&ast).expect("eval failed");
    assert!(matches!(v, Inner::Sxp(s) if s.len() == 0));
}

#[test]
fn keymapp_accepts_a_list_headed_by_the_keymap_symbol() {
    let mut lsp = Lsp::new();
    let ast = lsp.read(&"(keymapp '(keymap))".to_owned()).expect("read failed");
    let v = lsp.eval(&ast).expect("eval failed");
    assert!(matches!(v, Inner::Sym(s) if s == "t"));
}

#[test]
fn rendering_integers_and_lists() {
    let cells: Vec<Inner> = Vec::new();
    let s = rselisp::display::display_string(&cells, &Inner::Int(-17));
    assert_eq!(s, "-17");
    let z = rselisp::display::display_string(&cells, &Inner::Int(0));
    assert_eq!(z, "0");
    let mut lsp = Lsp::new();
    let ast = lsp.read(&"'(1 \"two\" three)".to_owned()).expect("read failed");
    let v = lsp.eval(&ast).expect("eval failed");
    let cells2: Vec<Inner> = Vec::new();
    let txt = rselisp::display::display_string(&cells2, &v);
    assert_eq!(txt, "(1 \"two\" three)");
    let nil_txt = rselisp::display::display_string(&cells2, &Inner::nil());
    assert_eq!(nil_txt, "nil");
}

#[test]
fn print_returns_its_argument() {
    let mut lsp = Lsp::new();
    let ast = lsp.read(&"(print 42)".to_owned()).expect("read failed");
    let v = lsp.eval(&ast).expect("eval failed");
    assert!(matches!(v, Inner::Int(42)));
}

#[test]
fn frame_proxy_carries_commands_and_events() {
    let (cmd_send, cmd_recv) = std::sync::mpsc::channel::<FrameCmd>();
    let (evt_send, evt_recv) = std::sync::mpsc::channel::<UserEvent>();
    let proxy = FrameProxy::new(cmd_send, evt_recv);
    proxy.show().expect("send failed");
    match cmd_recv.recv().expect("recv failed") {
        FrameCmd::Show => {},
        _ => panic!("wrong command came through"),
    }
    evt_send.send(UserEvent::Quit).expect("send failed");
    assert_eq!(proxy.listen().expect("listen failed"), UserEvent::Quit);
    proxy.quit().expect("send failed");
    match cmd_recv.recv().expect("recv failed") {
        FrameCmd::Quit => {},
        _ => panic!("wrong command came through"),
    }
}

#[test]
fn define_key_downcast_mismatch_is_a_type_failure() {
    let mut lsp = Lsp::new();
    let ast = lsp
        .read(&"(define-key 5 \"x\" 'act)".to_owned())
        .expect("read failed");
    assert_eq!(
        lsp.eval(&ast).err(),
        Some(rselisp::EvalError::Type(rselisp::TypeMismatch::DowncastTag))
    );
}

#[test]
fn define_key_wants_a_key_description_string() {
    let mut lsp = Lsp::new();
    let km = lsp.make_keymap();
    lsp.set_global("mymap".to_owned(), &km);
    let ast = lsp.read(&"(define-key mymap 5 'act)".to_owned()).expect("read failed");
    assert_eq!(
        lsp.eval(&ast).err(),
        Some(rselisp::EvalError::Type(rselisp::TypeMismatch::ExpectedString))
    );
}

#[test]
fn define_key_reports_bad_key_descriptions() {
    let mut lsp = Lsp::new();
    let km = lsp.make_keymap();
    lsp.set_global("mymap".to_owned(), &km);
    let ast = lsp
        .read(&"(define-key mymap \"\\Q-x\" 'act)".to_owned())
        .expect("read failed");
    assert_eq!(
        lsp.eval(&ast).err(),
        Some(rselisp::EvalError::Syntax(SyntaxError::UnknownEscape('Q')))
    );
}
