//! Making an action from the last word of a command.

use crate::message::{Message, MessageView, SignalNameType};
use crate::search::{first_where, lemma_first_where_found, lemma_first_where_none};
use crate::text::chars_of;
use crate::util::{decode_letters, position_of};
use vstd::prelude::*;

verus! {

/// How the last word of a command becomes an action.
#[derive(Clone, Copy, Debug, PartialEq, Eq, Structural)]
pub enum ActionBuilder {
    /// The word is the path of a waveform file.
    LoadVcd,
    /// The word is the address of a waveform file.
    LoadVcdFromUrl,
    /// The word names the name type of the focused signal.
    ChangeSignalNameType,
    /// The word names the name type of all signals.
    ForceSignalNameTypes,
    /// The word begins with the label of one of this many displayed signals.
    FocusSignal(usize),
}

/// The test for an underscore.
pub open spec fn is_underscore() -> spec_fn(char) -> bool {
    |c: char| c == '_'
}

/// The name type that `text` names.
pub open spec fn name_type_of(text: Seq<char>) -> Option<SignalNameType> {
    if text == "Local"@ {
        Some(SignalNameType::Local)
    } else if text == "Unique"@ {
        Some(SignalNameType::Unique)
    } else if text == "Global"@ {
        Some(SignalNameType::Global)
    } else {
        None
    }
}

/// The name type that `text` names, or `Local` where it names none.
pub open spec fn name_type_or_local(text: Seq<char>) -> SignalNameType {
    match name_type_of(text) {
        Some(name_type) => name_type,
        None => SignalNameType::Local,
    }
}

/// The part of `text` before its first underscore.
pub open spec fn label_part(text: Seq<char>) -> Seq<char> {
    match first_where(text, is_underscore()) {
        Some(i) => text.take(i),
        None => text,
    }
}

/// The action that `builder` makes from `text`, if it makes one.
pub open spec fn built_action(builder: ActionBuilder, text: Seq<char>) -> Option<MessageView> {
    match builder {
        ActionBuilder::LoadVcd => Some(MessageView::LoadVcd(text)),
        ActionBuilder::LoadVcdFromUrl => Some(MessageView::LoadVcdFromUrl(text)),
        ActionBuilder::ChangeSignalNameType => Some(
            MessageView::ChangeSignalNameType(None, name_type_or_local(text)),
        ),
        ActionBuilder::ForceSignalNameTypes => Some(
            MessageView::ForceSignalNameTypes(name_type_or_local(text)),
        ),
        ActionBuilder::FocusSignal(count) => match position_of(label_part(text)) {
            Some(idx) => if idx < count {
                Some(MessageView::FocusSignal(idx))
            } else {
                None
            },
            None => None,
        },
    }
}

/// Whether `builder` made its action from the default of a closed choice,
/// because `text` names none of the choices.
pub open spec fn built_by_default(builder: ActionBuilder, text: Seq<char>) -> bool {
    match builder {
        ActionBuilder::ChangeSignalNameType | ActionBuilder::ForceSignalNameTypes => name_type_of(
            text,
        ) is None,
        _ => false,
    }
}

/// The name type that `text` names, if it names one.
pub fn parse_name_type(text: &String) -> (name_type: Option<SignalNameType>)
    ensures
        name_type == name_type_of(text@),
{
    if *text == "Local".to_owned() {
        Some(SignalNameType::Local)
    } else if *text == "Unique".to_owned() {
        Some(SignalNameType::Unique)
    } else if *text == "Global".to_owned() {
        Some(SignalNameType::Global)
    } else {
        None
    }
}

/// The characters of `text` before its first underscore.
pub fn label_chars(text: &String) -> (label: Vec<char>)
    ensures
        label@ == label_part(text@),
{
    let chars: Vec<char> = chars_of(text.as_str());
    let mut label: Vec<char> = Vec::new();
    let mut i: usize = 0;
    while i < chars.len()
        invariant
            i <= chars.len(),
            chars@ == text@,
            label@ == chars@.take(i as int),
            forall|j: int| 0 <= j < i ==> chars@[j] != '_',
        decreases chars.len() - i,
    {
        if chars[i] == '_' {
            proof {
                lemma_first_where_found(text@, is_underscore(), i as int);
            }
            return label;
        }
        label.push(chars[i]);
        assert(chars@.take(i + 1) =~= chars@.take(i as int).push(chars@[i as int]));
        i = i + 1;
    }
    proof {
        lemma_first_where_none(text@, is_underscore());
        assert(chars@.take(i as int) =~= chars@);
    }
    label
}

impl ActionBuilder {
    /// The action made from `text`, if one is made, and whether it was made
    /// from the default of a closed choice.
    pub fn build(self, text: String) -> (built: Option<(Message, bool)>)
        ensures
            match built {
                Some((message, defaulted)) => built_action(self, text@) == Some(message@)
                    && defaulted == built_by_default(self, text@),
                None => built_action(self, text@) is None,
            },
    {
        match self {
            ActionBuilder::LoadVcd => Some((Message::LoadVcd(text), false)),
            ActionBuilder::LoadVcdFromUrl => Some((Message::LoadVcdFromUrl(text), false)),
            ActionBuilder::ChangeSignalNameType => match parse_name_type(&text) {
                Some(name_type) => Some((Message::ChangeSignalNameType(None, name_type), false)),
                None => Some((Message::ChangeSignalNameType(None, SignalNameType::Local), true)),
            },
            ActionBuilder::ForceSignalNameTypes => match parse_name_type(&text) {
                Some(name_type) => Some((Message::ForceSignalNameTypes(name_type), false)),
                None => Some((Message::ForceSignalNameTypes(SignalNameType::Local), true)),
            },
            ActionBuilder::FocusSignal(count) => {
                let label: Vec<char> = label_chars(&text);
                match decode_letters(&label) {
                    Some(idx) => if idx < count {
                        Some((Message::FocusSignal(idx), false))
                    } else {
                        None
                    },
                    None => None,
                }
            },
        }
    }
}

} // verus!
