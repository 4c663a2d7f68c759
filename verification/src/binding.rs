//! Key combinations and the actions they trigger.

use vstd::prelude::*;

verus! {

/// The modifier keys held down in a key combination.
#[derive(Clone, Copy, Debug, PartialEq, Eq, Structural)]
pub struct Modifiers {
    pub ctrl: bool,
    pub alt: bool,
    pub shift: bool,
    pub logo: bool,
}

/// What identifies a binding: its modifiers, its key code and its key symbol.
pub type Combo = (Modifiers, Option<u32>, Option<u32>);

/// A key combination with an optional human-readable description.
///
/// Two bindings are the same binding when their combos are equal; the
/// description takes no part in that.
#[derive(Clone, Debug)]
pub struct Binding {
    pub modifiers: Modifiers,
    pub keycode: Option<u32>,
    pub key: Option<u32>,
    pub description: Option<String>,
}

/// The mathematical value of a [`Binding`].
pub struct BindingView {
    pub combo: Combo,
    pub description: Option<Seq<char>>,
}

impl BindingView {
    /// A binding is set when it names a key, by code or by symbol.
    pub open spec fn is_set(self) -> bool {
        self.combo.1 is Some || self.combo.2 is Some
    }
}

impl View for Binding {
    type V = BindingView;

    open spec fn view(&self) -> BindingView {
        BindingView {
            combo: (self.modifiers, self.keycode, self.key),
            description: match self.description {
                Some(text) => Some(text@),
                None => None,
            },
        }
    }
}

/// The views of a sequence of bindings, in order.
pub open spec fn binding_views(bindings: Seq<Binding>) -> Seq<BindingView> {
    bindings.map_values(|b: Binding| b@)
}

fn same_code(a: Option<u32>, b: Option<u32>) -> (r: bool)
    ensures
        r == (a == b),
{
    match (a, b) {
        (Some(x), Some(y)) => x == y,
        (None, None) => true,
        _ => false,
    }
}

impl Binding {
    /// A binding of the given keys, without a description.
    pub fn new(modifiers: Modifiers, keycode: Option<u32>, key: Option<u32>) -> (r: Binding)
        ensures
            r@.combo == (modifiers, keycode, key),
            r@.description is None,
    {
        Binding { modifiers, keycode, key, description: None }
    }

    /// Whether the binding names a key at all.
    pub fn is_set(&self) -> (r: bool)
        ensures
            r == self@.is_set(),
    {
        self.keycode.is_some() || self.key.is_some()
    }

    /// Whether two bindings are the same key combination.
    pub fn same_combo(&self, other: &Binding) -> (r: bool)
        ensures
            r == (self@.combo == other@.combo),
    {
        self.modifiers.ctrl == other.modifiers.ctrl && self.modifiers.alt == other.modifiers.alt
            && self.modifiers.shift == other.modifiers.shift && self.modifiers.logo
            == other.modifiers.logo && same_code(self.keycode, other.keycode) && same_code(
            self.key,
            other.key,
        )
    }

    /// A copy of the binding.
    pub fn duplicate(&self) -> (r: Binding)
        ensures
            r@ == self@,
    {
        let description = match &self.description {
            Some(text) => Some(text.clone()),
            None => None,
        };
        Binding { modifiers: self.modifiers, keycode: self.keycode, key: self.key, description }
    }

    /// The same key combination under a new description.
    pub fn described(&self, text: &String) -> (r: Binding)
        ensures
            r@.combo == self@.combo,
            r@.description == Some(text@),
    {
        Binding {
            modifiers: self.modifiers,
            keycode: self.keycode,
            key: self.key,
            description: Some(text.clone()),
        }
    }
}

/// What a binding triggers: a command to launch, or an action that the
/// desktop provides under a name.
#[derive(Clone, Debug)]
pub enum Action {
    Spawn(String),
    BuiltIn(String),
}

/// The mathematical value of an [`Action`].
pub enum ActionView {
    Spawn(Seq<char>),
    BuiltIn(Seq<char>),
}

impl ActionView {
    /// The text under which the action is shown.
    pub open spec fn label(self) -> Seq<char> {
        match self {
            ActionView::Spawn(command) => command,
            ActionView::BuiltIn(name) => name,
        }
    }
}

impl View for Action {
    type V = ActionView;

    open spec fn view(&self) -> ActionView {
        match self {
            Action::Spawn(command) => ActionView::Spawn(command@),
            Action::BuiltIn(name) => ActionView::BuiltIn(name@),
        }
    }
}

impl Action {
    /// Whether two actions are the same action.
    pub fn same(&self, other: &Action) -> (r: bool)
        ensures
            r == (self@ == other@),
    {
        match (self, other) {
            (Action::Spawn(a), Action::Spawn(b)) => *a == *b,
            (Action::BuiltIn(a), Action::BuiltIn(b)) => *a == *b,
            _ => false,
        }
    }

    /// A copy of the action.
    pub fn duplicate(&self) -> (r: Action)
        ensures
            r@ == self@,
    {
        match self {
            Action::Spawn(command) => Action::Spawn(command.clone()),
            Action::BuiltIn(name) => Action::BuiltIn(name.clone()),
        }
    }

    /// The text under which the action is shown.
    pub fn label(&self) -> (r: String)
        ensures
            r@ == self@.label(),
    {
        match self {
            Action::Spawn(command) => command.clone(),
            Action::BuiltIn(name) => name.clone(),
        }
    }
}

} // verus!
