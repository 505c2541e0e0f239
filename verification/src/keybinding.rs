//! The data model: a keyboard shortcut paired with the command it triggers,
//! optionally carrying human-readable documentation.

use vstd::prelude::*;

verus! {

/// Documentation attached to a binding: a one-line description and an
/// optional ordered list of examples.
#[derive(Debug)]
pub struct KeybindingDoc {
    pub description: String,
    pub examples: Option<Vec<String>>,
}

/// Mathematical image of a [`KeybindingDoc`].
pub ghost struct KeybindingDocView {
    pub description: Seq<char>,
    pub examples: Option<Seq<Seq<char>>>,
}

impl View for KeybindingDoc {
    type V = KeybindingDocView;

    open spec fn view(&self) -> KeybindingDocView {
        KeybindingDocView {
            description: self.description@,
            examples: match self.examples {
                Some(ref v) => Some(v.deep_view()),
                None => None,
            },
        }
    }
}

/// One extracted shortcut: the plugin it belongs to (`root`, empty for a
/// binding written directly in the primary syntax), the key sequence
/// (`keymap`), the action (`command`), and its documentation once resolved.
#[derive(Debug)]
pub struct Keybinding {
    pub root: String,
    pub keymap: String,
    pub command: String,
    pub doc: Option<KeybindingDoc>,
}

/// Mathematical image of a [`Keybinding`].
pub ghost struct KeybindingView {
    pub root: Seq<char>,
    pub keymap: Seq<char>,
    pub command: Seq<char>,
    pub doc: Option<KeybindingDocView>,
}

impl View for Keybinding {
    type V = KeybindingView;

    open spec fn view(&self) -> KeybindingView {
        KeybindingView {
            root: self.root@,
            keymap: self.keymap@,
            command: self.command@,
            doc: match self.doc {
                Some(ref d) => Some(d@),
                None => None,
            },
        }
    }
}

/// The views of a sequence of bindings, element for element.
pub open spec fn kb_views(s: Seq<Keybinding>) -> Seq<KeybindingView> {
    s.map_values(|b: Keybinding| b@)
}

impl KeybindingView {
    /// Every binding the library emits keeps a non-empty key sequence and a
    /// non-empty command.
    pub open spec fn wf(self) -> bool {
        self.keymap.len() > 0 && self.command.len() > 0
    }
}

} // verus!
