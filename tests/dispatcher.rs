use robar::config::{ColorConfig, ColorProfiles};
use robar::dispatch::{validate_request, Action, BarState, Dispatcher, Event};
use robar::error::ErrorKind;
use robar::request::{encode, Request};

fn profiles() -> ColorProfiles {
    let mut p = ColorProfiles::new();
    p.insert("low".to_string(), ColorConfig::new(0x00ff00, 0x000000, 0xffffff));
    p.insert("high".to_string(), ColorConfig::new(0xff0000, 0x000000, 0xffffff));
    p
}

fn show_req(profile: &str, value: u8) -> Request {
    Request::Show { profile: profile.to_string(), value }
}

#[test]
fn validation_unknown_profile() {
    let err = validate_request(&profiles(), &encode(&show_req("missing", 10))).unwrap_err();
    assert_eq!(err.kind, ErrorKind::UnknownProfile("missing".to_string()));
    assert_eq!(err.description, "Color profile `missing` not found.");
}

#[test]
fn validation_out_of_range() {
    let err = validate_request(&profiles(), &encode(&show_req("low", 150))).unwrap_err();
    assert_eq!(err.kind, ErrorKind::OutOfRange);
    assert_eq!(err.context, "processing request");
    assert_eq!(err.description, "Expected `value` in [0, 100].");
}

#[test]
fn validation_unknown_profile_reported_first() {
    let err = validate_request(&profiles(), &encode(&show_req("missing", 150))).unwrap_err();
    assert_eq!(err.kind, ErrorKind::UnknownProfile("missing".to_string()));
}

#[test]
fn validation_malformed() {
    let err = validate_request(&profiles(), &[42, 1]).unwrap_err();
    assert_eq!(err.kind, ErrorKind::Malformed);
    let err = validate_request(&profiles(), &[]).unwrap_err();
    assert_eq!(err.kind, ErrorKind::Malformed);
}

#[test]
fn validation_accepts() {
    let p = profiles();
    assert_eq!(validate_request(&p, &encode(&show_req("low", 100))).unwrap(), show_req("low", 100));
    assert_eq!(validate_request(&p, &encode(&Request::Hide)).unwrap(), Request::Hide);
    assert_eq!(validate_request(&p, &encode(&Request::Stop)).unwrap(), Request::Stop);
    assert_eq!(validate_request(&p, &encode(&Request::Empty)).unwrap(), Request::Empty);
}

#[test]
fn show_then_timeout_then_stop() {
    let mut d = Dispatcher::new(1000, profiles());
    assert_eq!(d.state(), &BarState::Idle);
    assert_eq!(d.wait_limit(), None);
    let a = d.handle(Event::Request(show_req("low", 30)));
    assert_eq!(a, Action::Paint { value: 30, colors: ColorConfig::new(0x00ff00, 0, 0xffffff) });
    assert_eq!(d.state(), &BarState::Showing { profile: "low".to_string(), value: 30 });
    assert_eq!(d.wait_limit(), Some(1000));
    assert_eq!(d.handle(Event::Timeout), Action::Clear);
    assert_eq!(d.state(), &BarState::Idle);
    assert_eq!(d.handle(Event::Timeout), Action::Nothing);
    assert_eq!(d.handle(Event::Request(Request::Stop)), Action::Exit);
    assert!(d.is_stopped());
}

#[test]
fn stop_from_every_state() {
    let mut idle = Dispatcher::new(1000, profiles());
    assert_eq!(idle.handle(Event::Request(Request::Stop)), Action::Exit);
    assert!(idle.is_stopped());
    let mut showing = Dispatcher::new(1000, profiles());
    showing.handle(Event::Request(show_req("high", 5)));
    assert_eq!(showing.handle(Event::Request(Request::Stop)), Action::Exit);
    assert!(showing.is_stopped());
    assert_eq!(showing.handle(Event::Request(show_req("high", 5))), Action::Nothing);
    assert_eq!(showing.handle(Event::Request(Request::Stop)), Action::Nothing);
    assert_eq!(showing.state(), &BarState::Stopped);
}

#[test]
fn zero_timeout_disables_auto_hide() {
    let mut d = Dispatcher::new(0, profiles());
    d.handle(Event::Request(show_req("low", 1)));
    assert_eq!(d.wait_limit(), None);
}

#[test]
fn repeated_hide_is_idempotent() {
    let mut d = Dispatcher::new(1000, profiles());
    d.handle(Event::Request(show_req("low", 70)));
    assert_eq!(d.handle(Event::Request(Request::Hide)), Action::Clear);
    for _ in 0..3 {
        assert_eq!(d.handle(Event::Request(Request::Hide)), Action::Nothing);
        assert_eq!(d.state(), &BarState::Idle);
    }
}

#[test]
fn empty_is_a_no_op() {
    let mut d = Dispatcher::new(1000, profiles());
    assert_eq!(d.handle(Event::Request(Request::Empty)), Action::Nothing);
    assert_eq!(d.state(), &BarState::Idle);
    d.handle(Event::Request(show_req("high", 42)));
    assert_eq!(d.handle(Event::Request(Request::Empty)), Action::Nothing);
    assert_eq!(d.state(), &BarState::Showing { profile: "high".to_string(), value: 42 });
}

#[test]
fn invalid_show_is_ignored() {
    let mut d = Dispatcher::new(1000, profiles());
    assert_eq!(d.handle(Event::Request(show_req("missing", 10))), Action::Nothing);
    assert_eq!(d.handle(Event::Request(show_req("low", 101))), Action::Nothing);
    assert_eq!(d.state(), &BarState::Idle);
}

#[test]
fn last_show_wins() {
    let mut d = Dispatcher::new(500, profiles());
    d.handle(Event::Request(show_req("low", 10)));
    let a = d.handle(Event::Request(show_req("high", 90)));
    assert_eq!(a, Action::Paint { value: 90, colors: ColorConfig::new(0xff0000, 0, 0xffffff) });
    assert_eq!(d.state(), &BarState::Showing { profile: "high".to_string(), value: 90 });
}
