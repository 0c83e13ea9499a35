use robar::config::{parse_color, ColorConfig, ColorProfiles, Direction};
use robar::screen::{screen_at, ScreenInfo};

#[test]
fn profiles_lookup() {
    let mut p = ColorProfiles::new();
    assert_eq!(p.get(&"low".to_string()), None);
    p.insert("low".to_string(), ColorConfig::new(1, 2, 3));
    p.insert("high".to_string(), ColorConfig::new(4, 5, 6));
    assert_eq!(p.get(&"low".to_string()), Some(ColorConfig::new(1, 2, 3)));
    assert!(p.contains(&"high".to_string()));
    assert!(!p.contains(&"mid".to_string()));
    p.insert("low".to_string(), ColorConfig::new(7, 8, 9));
    assert_eq!(p.get(&"low".to_string()), Some(ColorConfig::new(7, 8, 9)));
}

#[test]
fn color_config_fields() {
    let c = ColorConfig::new(0x112233, 0x445566, 0x778899);
    assert_eq!(c.foreground, 0x112233);
    assert_eq!(c.background, 0x445566);
    assert_eq!(c.border, 0x778899);
    assert_ne!(Direction::Up, Direction::Down);
}

#[test]
fn colors_parse() {
    assert_eq!(parse_color("#ff8000"), Some(0xff8000));
    assert_eq!(parse_color("#FFffFFff"), Some(0xffffffff));
    assert_eq!(parse_color("#0"), Some(0));
    assert_eq!(parse_color("#100000000"), None);
    assert_eq!(parse_color("#"), None);
    assert_eq!(parse_color(""), None);
    assert_eq!(parse_color("#12g4"), None);
    assert_eq!(parse_color("x00ff00"), Some(0x00ff00));
    assert_eq!(parse_color("#00000000ff"), Some(0xff));
    assert_eq!(parse_color("#+ff"), Some(0xff));
    assert_eq!(parse_color("#+"), None);
    for text in ["#ff8000", "#+1a", "#+", "#", "#-1", "#1 ", "#FFFFFFFF", "#100000000", "#g"] {
        assert_eq!(parse_color(text), u32::from_str_radix(&text[1..], 16).ok(), "{:?}", text);
    }
}

#[test]
fn pointer_screen() {
    let screens = vec![
        ScreenInfo { width: 1920, height: 1080, x: 0, y: 0 },
        ScreenInfo { width: 1280, height: 1024, x: 1920, y: 0 },
    ];
    assert_eq!(screen_at(&screens, 10, 10), Some(screens[0]));
    assert_eq!(screen_at(&screens, 1920, 1023), Some(screens[1]));
    assert_eq!(screen_at(&screens, 1919, 1079), Some(screens[0]));
    assert_eq!(screen_at(&screens, 1919, 1080), None);
    assert_eq!(screen_at(&screens, -1, 0), None);
    assert_eq!(screen_at(&Vec::new(), 0, 0), None);
}
