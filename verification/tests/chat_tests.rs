use minecraft_packet::{Chat, ChatColor, ChatComponent};

fn component(text: &str, color: ChatColor, bold: bool) -> ChatComponent {
    ChatComponent {
        bold,
        italic: false,
        underlined: false,
        strikethrough: false,
        obfuscated: false,
        color,
        message: text.to_owned(),
    }
}

#[test]
fn empty_chat_has_no_components() {
    let c = Chat::new();
    assert_eq!(c.len(), 0);
    assert_eq!(c.to_string(), "{\"translate\":\"\",\"with\":[]}");
}

#[test]
fn append_puts_components_last() {
    let c = Chat::new()
        .append(component("a", ChatColor::Red, false))
        .append(component("b", ChatColor::Blue, true));
    assert_eq!(c.len(), 2);
    match &c {
        Chat::Cons(first, rest) => {
            assert_eq!(first.message, "a");
            match rest.as_ref() {
                Chat::Cons(second, tail) => {
                    assert_eq!(second.message, "b");
                    assert!(matches!(tail.as_ref(), Chat::Nil));
                }
                Chat::Nil => panic!("second component missing"),
            }
        }
        Chat::Nil => panic!("first component missing"),
    }
}

#[test]
fn prepend_puts_components_first() {
    let c = Chat::new()
        .append(component("b", ChatColor::Red, false))
        .prepend(component("a", ChatColor::Red, false));
    assert_eq!(c.len(), 2);
    match &c {
        Chat::Cons(first, _) => assert_eq!(first.message, "a"),
        Chat::Nil => panic!("component missing"),
    }
}

#[test]
fn component_json_is_exact() {
    let c = component("Hi", ChatColor::BrightGreen, true);
    assert_eq!(
        c.to_string(),
        "{\"text\":\"Hi\",\"bold\":\"true\",\"italic\":\"false\",\"underlined\":\"false\",\"strikethrough\":\"false\",\"obfuscated\":\"false\",\"color\":\"green\"}"
    );
}

#[test]
fn chat_json_has_one_placeholder_per_component() {
    let c = Chat::new()
        .append(component("x", ChatColor::Gold, false))
        .append(component("y", ChatColor::DarkGray, false));
    let json = c.to_string();
    let first = component("x", ChatColor::Gold, false).to_string();
    let second = component("y", ChatColor::DarkGray, false).to_string();
    assert_eq!(
        json,
        format!("{{\"translate\":\"%s%s\",\"with\":[{},{}]}}", first, second)
    );
}

#[test]
fn color_names() {
    assert_eq!(ChatColor::Black.to_string(), "black");
    assert_eq!(ChatColor::DarkBlue.to_string(), "dark_blue");
    assert_eq!(ChatColor::DarkGreen.to_string(), "dark_green");
    assert_eq!(ChatColor::DarkCyan.to_string(), "dark_cyan");
    assert_eq!(ChatColor::DarkRed.to_string(), "dark_red");
    assert_eq!(ChatColor::Purple.to_string(), "purple");
    assert_eq!(ChatColor::Gold.to_string(), "gold");
    assert_eq!(ChatColor::Gray.to_string(), "gray");
    assert_eq!(ChatColor::DarkGray.to_string(), "dark_gray");
    assert_eq!(ChatColor::Blue.to_string(), "blue");
    assert_eq!(ChatColor::BrightGreen.to_string(), "green");
    assert_eq!(ChatColor::Cyan.to_string(), "cyan");
    assert_eq!(ChatColor::Red.to_string(), "red");
    assert_eq!(ChatColor::Pink.to_string(), "pink");
    assert_eq!(ChatColor::Yellow.to_string(), "yellow");
    assert_eq!(ChatColor::White.to_string(), "white");
}
