//! The two ways of reading a time expression, and the buttons that let a
//! user choose between them.

use vstd::prelude::*;
use vstd::string::StringExecFns;
use crate::text::same_text;

verus! {

/// The label of the choice "so long from now".
pub const RELATIVE_LABEL: &'static str = "時間後";

/// The label of the choice "at this time of day".
pub const ABSOLUTE_LABEL: &'static str = "時刻";

/// The identifier of the choice "so long from now".
pub const RELATIVE_ID: &'static str = "in";

/// The identifier of the choice "at this time of day".
pub const ABSOLUTE_ID: &'static str = "at";

/// How prominent a button is.
#[derive(Clone, Copy, Debug, PartialEq, Eq, Structural)]
pub enum ButtonStyle {
    Primary,
    Secondary,
}

/// A button of the selection menu: what the chat platform is asked to show.
#[derive(Clone, Debug, PartialEq, Eq)]
pub struct Button {
    pub custom_id: String,
    pub emoji: char,
    pub label: String,
    pub style: ButtonStyle,
}

/// What a button holds.
pub struct ButtonView {
    pub custom_id: Seq<char>,
    pub emoji: char,
    pub label: Seq<char>,
    pub style: ButtonStyle,
}

impl View for Button {
    type V = ButtonView;

    open spec fn view(&self) -> ButtonView {
        ButtonView {
            custom_id: self.custom_id@,
            emoji: self.emoji,
            label: self.label@,
            style: self.style,
        }
    }
}

/// The text could not be read as a menu entry.
#[derive(Clone, Debug, PartialEq, Eq)]
pub struct ParseComponentError(pub String);

impl View for ParseComponentError {
    type V = Seq<char>;

    /// The text that was refused.
    open spec fn view(&self) -> Seq<char> {
        self.0@
    }
}

impl ParseComponentError {
    /// The error as it is shown.
    pub fn message(&self) -> (text: String)
        ensures
            text@ == "Failed to parse "@ + self@ + " as component"@,
    {
        let mut text = String::from_str("Failed to parse ");
        text.append(self.0.as_str());
        text.append(" as component");
        text
    }
}

/// The clock face that stands for each way of reading a time expression.
pub open spec fn emoji_of(relative: bool) -> char {
    if relative {
        '\u{23F2}'
    } else {
        '\u{23F0}'
    }
}

/// The style of the button of each way.
pub open spec fn style_of(relative: bool) -> ButtonStyle {
    if relative {
        ButtonStyle::Primary
    } else {
        ButtonStyle::Secondary
    }
}

/// The label of each way.
pub open spec fn label_of(relative: bool) -> Seq<char> {
    if relative {
        RELATIVE_LABEL@
    } else {
        ABSOLUTE_LABEL@
    }
}

/// The identifier of each way.
pub open spec fn id_of(relative: bool) -> Seq<char> {
    if relative {
        RELATIVE_ID@
    } else {
        ABSOLUTE_ID@
    }
}

/// A way of reading a time expression, known by its identifier.
#[derive(Clone, Copy, Debug, PartialEq, Eq, Structural)]
pub enum SnipeType {
    /// So long from now.
    Relative,
    /// At this time of day.
    Absolute,
}

/// An entry of the selection menu, known by its label.
#[derive(Clone, Copy, Debug, PartialEq, Eq, Structural)]
pub enum SnipeMenu {
    /// So long from now.
    Relative,
    /// At this time of day.
    Absolute,
}

/// The way that an identifier stands for.
pub open spec fn type_of_id(id: Seq<char>) -> Option<SnipeType> {
    if id == ABSOLUTE_ID@ {
        Some(SnipeType::Absolute)
    } else if id == RELATIVE_ID@ {
        Some(SnipeType::Relative)
    } else {
        None
    }
}

/// The menu entry that a label stands for.
pub open spec fn entry_of_label(label: Seq<char>) -> Option<SnipeMenu> {
    if label == RELATIVE_LABEL@ {
        Some(SnipeMenu::Relative)
    } else if label == ABSOLUTE_LABEL@ {
        Some(SnipeMenu::Absolute)
    } else {
        None
    }
}

impl SnipeType {
    /// Whether this is the way "so long from now".
    pub open spec fn is_relative(self) -> bool {
        self == SnipeType::Relative
    }

    /// The clock face shown on the button.
    pub fn emoji(&self) -> (emoji: char)
        ensures
            emoji == emoji_of(self.is_relative()),
    {
        match self {
            Self::Relative => '\u{23F2}',
            Self::Absolute => '\u{23F0}',
        }
    }

    /// The style of the button.
    pub fn style(&self) -> (style: ButtonStyle)
        ensures
            style == style_of(self.is_relative()),
    {
        match self {
            Self::Relative => ButtonStyle::Primary,
            Self::Absolute => ButtonStyle::Secondary,
        }
    }

    /// The identifier under which the platform reports the user's choice.
    pub fn custom_id(&self) -> (id: &'static str)
        ensures
            id@ == id_of(self.is_relative()),
    {
        match self {
            Self::Relative => RELATIVE_ID,
            Self::Absolute => ABSOLUTE_ID,
        }
    }

    /// The label shown on the button.
    pub fn label(&self) -> (label: &'static str)
        ensures
            label@ == label_of(self.is_relative()),
    {
        match self {
            Self::Relative => RELATIVE_LABEL,
            Self::Absolute => ABSOLUTE_LABEL,
        }
    }

    /// The way that the identifier `id` stands for.
    pub fn from_custom_id(id: &str) -> (kind: Option<SnipeType>)
        ensures
            kind == type_of_id(id@),
    {
        if same_text(id, ABSOLUTE_ID) {
            Some(SnipeType::Absolute)
        } else if same_text(id, RELATIVE_ID) {
            Some(SnipeType::Relative)
        } else {
            None
        }
    }

    /// The button of this way.
    pub fn button(&self) -> (button: Button)
        ensures
            button@ == (ButtonView {
                custom_id: id_of(self.is_relative()),
                emoji: emoji_of(self.is_relative()),
                label: label_of(self.is_relative()),
                style: style_of(self.is_relative()),
            }),
    {
        Button {
            custom_id: String::from_str(self.custom_id()),
            emoji: self.emoji(),
            label: String::from_str(self.label()),
            style: self.style(),
        }
    }

    /// The row of buttons that asks the user for a way: "at this time of day"
    /// first, then "so long from now".
    pub fn action_row() -> (row: Vec<Button>)
        ensures
            row@.len() == 2,
            row@[0]@ == (ButtonView {
                custom_id: id_of(false),
                emoji: emoji_of(false),
                label: label_of(false),
                style: style_of(false),
            }),
            row@[1]@ == (ButtonView {
                custom_id: id_of(true),
                emoji: emoji_of(true),
                label: label_of(true),
                style: style_of(true),
            }),
    {
        let mut row: Vec<Button> = Vec::new();
        row.push(SnipeType::Absolute.button());
        row.push(SnipeType::Relative.button());
        row
    }
}

impl SnipeMenu {
    /// Whether this is the entry "so long from now".
    pub open spec fn is_relative(self) -> bool {
        self == SnipeMenu::Relative
    }

    /// The clock face shown on the button.
    pub fn emoji(&self) -> (emoji: char)
        ensures
            emoji == emoji_of(self.is_relative()),
    {
        match self {
            Self::Relative => '\u{23F2}',
            Self::Absolute => '\u{23F0}',
        }
    }

    /// The style of the button.
    pub fn style(&self) -> (style: ButtonStyle)
        ensures
            style == style_of(self.is_relative()),
    {
        match self {
            Self::Relative => ButtonStyle::Primary,
            Self::Absolute => ButtonStyle::Secondary,
        }
    }

    /// The label of the entry, which is also its identifier.
    pub fn label(&self) -> (label: &'static str)
        ensures
            label@ == label_of(self.is_relative()),
    {
        match self {
            Self::Relative => RELATIVE_LABEL,
            Self::Absolute => ABSOLUTE_LABEL,
        }
    }

    /// The way of reading a time expression that the entry stands for.
    pub fn snipe_type(&self) -> (kind: SnipeType)
        ensures
            kind.is_relative() == self.is_relative(),
    {
        match self {
            Self::Relative => SnipeType::Relative,
            Self::Absolute => SnipeType::Absolute,
        }
    }

    /// Reads a label. A text that is no label comes back in the error.
    pub fn from_str(s: &str) -> (res: Result<SnipeMenu, ParseComponentError>)
        ensures
            match res {
                Ok(entry) => entry_of_label(s@) == Some(entry),
                Err(e) => entry_of_label(s@) is None && e@ == s@,
            },
    {
        if same_text(s, RELATIVE_LABEL) {
            Ok(SnipeMenu::Relative)
        } else if same_text(s, ABSOLUTE_LABEL) {
            Ok(SnipeMenu::Absolute)
        } else {
            Err(ParseComponentError(String::from_str(s)))
        }
    }

    /// The button of this entry.
    pub fn button(&self) -> (button: Button)
        ensures
            button@ == (ButtonView {
                custom_id: label_of(self.is_relative()),
                emoji: emoji_of(self.is_relative()),
                label: label_of(self.is_relative()),
                style: style_of(self.is_relative()),
            }),
    {
        Button {
            custom_id: String::from_str(self.label()),
            emoji: self.emoji(),
            label: String::from_str(self.label()),
            style: self.style(),
        }
    }

    /// The row of buttons of the menu: "at this time of day" first, then "so
    /// long from now".
    pub fn action_row() -> (row: Vec<Button>)
        ensures
            row@.len() == 2,
            row@[0]@ == (ButtonView {
                custom_id: label_of(false),
                emoji: emoji_of(false),
                label: label_of(false),
                style: style_of(false),
            }),
            row@[1]@ == (ButtonView {
                custom_id: label_of(true),
                emoji: emoji_of(true),
                label: label_of(true),
                style: style_of(true),
            }),
    {
        let mut row: Vec<Button> = Vec::new();
        row.push(SnipeMenu::Absolute.button());
        row.push(SnipeMenu::Relative.button());
        row
    }
}

/// Each way is found again from its identifier, and each menu entry from its
/// label.
pub proof fn lemma_choices_round_trip(relative: bool)
    ensures
        type_of_id(id_of(relative)) == Some(
            if relative {
                SnipeType::Relative
            } else {
                SnipeType::Absolute
            },
        ),
        entry_of_label(label_of(relative)) == Some(
            if relative {
                SnipeMenu::Relative
            } else {
                SnipeMenu::Absolute
            },
        ),
{
    reveal_strlit("in");
    reveal_strlit("at");
    reveal_strlit("時間後");
    reveal_strlit("時刻");
    assert(RELATIVE_ID@[0] != ABSOLUTE_ID@[0]);
    assert(RELATIVE_LABEL@.len() != ABSOLUTE_LABEL@.len());
}

} // verus!
