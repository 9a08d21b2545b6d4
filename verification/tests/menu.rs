use snipebot::menu::Button;
use snipebot::menu::ButtonStyle;
use snipebot::menu::ParseComponentError;
use snipebot::menu::SnipeMenu;
use snipebot::menu::SnipeType;

#[test]
fn snipe_type_faces() {
    assert_eq!(SnipeType::Relative.emoji(), '\u{23F2}');
    assert_eq!(SnipeType::Absolute.emoji(), '\u{23F0}');
    assert_eq!(SnipeType::Relative.style(), ButtonStyle::Primary);
    assert_eq!(SnipeType::Absolute.style(), ButtonStyle::Secondary);
    assert_eq!(SnipeType::Relative.custom_id(), "in");
    assert_eq!(SnipeType::Absolute.custom_id(), "at");
    assert_eq!(SnipeType::Relative.label(), "時間後");
    assert_eq!(SnipeType::Absolute.label(), "時刻");
}

#[test]
fn snipe_type_is_found_by_its_identifier() {
    assert_eq!(SnipeType::from_custom_id("in"), Some(SnipeType::Relative));
    assert_eq!(SnipeType::from_custom_id("at"), Some(SnipeType::Absolute));
    for kind in [SnipeType::Relative, SnipeType::Absolute] {
        assert_eq!(SnipeType::from_custom_id(kind.custom_id()), Some(kind));
    }
    for id in ["", "In", "at ", "時刻", "on", "inn"] {
        assert_eq!(SnipeType::from_custom_id(id), None);
    }
}

#[test]
fn snipe_type_buttons() {
    assert_eq!(
        SnipeType::Relative.button(),
        Button {
            custom_id: "in".to_string(),
            emoji: '\u{23F2}',
            label: "時間後".to_string(),
            style: ButtonStyle::Primary
        }
    );
    assert_eq!(
        SnipeType::action_row(),
        vec![SnipeType::Absolute.button(), SnipeType::Relative.button()]
    );
    assert_eq!(SnipeType::action_row()[0].custom_id, "at");
}

#[test]
fn snipe_menu_faces() {
    assert_eq!(SnipeMenu::Relative.emoji(), '\u{23F2}');
    assert_eq!(SnipeMenu::Absolute.emoji(), '\u{23F0}');
    assert_eq!(SnipeMenu::Relative.style(), ButtonStyle::Primary);
    assert_eq!(SnipeMenu::Absolute.style(), ButtonStyle::Secondary);
    assert_eq!(SnipeMenu::Relative.label(), "時間後");
    assert_eq!(SnipeMenu::Absolute.label(), "時刻");
    assert_eq!(SnipeMenu::Relative.snipe_type(), SnipeType::Relative);
    assert_eq!(SnipeMenu::Absolute.snipe_type(), SnipeType::Absolute);
}

#[test]
fn snipe_menu_is_read_from_its_label() {
    assert_eq!(SnipeMenu::from_str("時間後"), Ok(SnipeMenu::Relative));
    assert_eq!(SnipeMenu::from_str("時刻"), Ok(SnipeMenu::Absolute));
    for entry in [SnipeMenu::Relative, SnipeMenu::Absolute] {
        assert_eq!(SnipeMenu::from_str(entry.label()), Ok(entry));
    }
}

#[test]
fn snipe_menu_refuses_other_text_and_hands_it_back() {
    for text in ["", "in", "at", "時", "時刻 ", "時間"] {
        assert_eq!(SnipeMenu::from_str(text), Err(ParseComponentError(text.to_string())));
    }
    assert_eq!(
        SnipeMenu::from_str("later").unwrap_err().message(),
        "Failed to parse later as component"
    );
    assert_eq!(ParseComponentError(String::new()).message(), "Failed to parse  as component");
}

#[test]
fn snipe_menu_buttons_are_identified_by_their_label() {
    assert_eq!(
        SnipeMenu::Absolute.button(),
        Button {
            custom_id: "時刻".to_string(),
            emoji: '\u{23F0}',
            label: "時刻".to_string(),
            style: ButtonStyle::Secondary
        }
    );
    assert_eq!(
        SnipeMenu::action_row(),
        vec![SnipeMenu::Absolute.button(), SnipeMenu::Relative.button()]
    );
}
