use transmission::command::{try_parse, AppEvent};
use transmission::console::{App, InputMode, Key};

fn parse(line: &str) -> Option<AppEvent> {
    try_parse(&line.to_string())
}

#[test]
fn parses_ping_with_one_number() {
    assert_eq!(parse("ping 12"), Some(AppEvent::SendPing(12)));
    assert_eq!(parse("  ping\t65535  "), Some(AppEvent::SendPing(65535)));
    assert_eq!(parse("ping +7"), Some(AppEvent::SendPing(7)));
}

#[test]
fn rejects_ping_out_of_range_or_malformed() {
    assert_eq!(parse("ping 65536"), None);
    assert_eq!(parse("ping -1"), None);
    assert_eq!(parse("ping +"), None);
    assert_eq!(parse("ping 1x"), None);
    assert_eq!(parse("ping"), None);
    assert_eq!(parse("ping 1 2"), None);
}

#[test]
fn parses_adc_channel() {
    assert_eq!(parse("adc 3"), Some(AppEvent::SampleAdc(3)));
    assert_eq!(parse("adc 255"), Some(AppEvent::SampleAdc(255)));
    assert_eq!(parse("adc 256"), None);
}

#[test]
fn parses_quit_and_rejects_unknown() {
    assert_eq!(parse("quit"), Some(AppEvent::Quit));
    assert_eq!(parse("quit now"), Some(AppEvent::Quit));
    assert_eq!(parse("Quit"), None);
    assert_eq!(parse("hello"), None);
    assert_eq!(parse(""), None);
    assert_eq!(parse("   "), None);
}

#[test]
fn unicode_white_space_separates_words() {
    assert_eq!(parse("ping\u{3000}5"), Some(AppEvent::SendPing(5)));
    assert_eq!(parse("\u{a0}quit"), Some(AppEvent::Quit));
}

#[test]
fn app_default_is_empty_and_normal() {
    let app = App::default();
    assert!(app.input.is_empty());
    assert_eq!(app.input_mode, InputMode::Normal);
    assert!(app.messages.is_empty());
}

#[test]
fn editing_a_line_and_entering_it() {
    let mut app = App::default();
    assert_eq!(app.handle_key(Key::Char('x')), AppEvent::Idle);
    assert_eq!(app.input_mode, InputMode::Normal);
    assert_eq!(app.handle_key(Key::Char('e')), AppEvent::Idle);
    assert_eq!(app.input_mode, InputMode::Editing);
    for c in "ping 41".chars() {
        assert_eq!(app.handle_key(Key::Char(c)), AppEvent::Idle);
    }
    assert_eq!(app.handle_key(Key::Backspace), AppEvent::Idle);
    assert_eq!(app.handle_key(Key::Char('2')), AppEvent::Idle);
    assert_eq!(app.handle_key(Key::Enter), AppEvent::SendPing(42));
    assert!(app.input.is_empty());
    for c in "bogus".chars() {
        app.handle_key(Key::Char(c));
    }
    assert_eq!(app.handle_key(Key::Enter), AppEvent::Input("bogus".to_string()));
    assert_eq!(app.handle_key(Key::Esc), AppEvent::Idle);
    assert_eq!(app.input_mode, InputMode::Normal);
    assert_eq!(app.handle_key(Key::Char('q')), AppEvent::Quit);
}
