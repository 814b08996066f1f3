use vstd::prelude::*;

use crate::properties::{add_result, Identifier, Properties, Property, PropertyModel};
use crate::text::{spec_trim, trim};
use crate::value::{Value, ValueModel};

verus! {

/// Actions that apply to an attribute while it is being compiled.
#[derive(Debug)]
pub enum Action {
    /// Applies a name and value.
    With(String, Value),
    /// Extends the current namespace.
    Extend(Identifier),
    /// Configures a property.
    Config(Identifier, Property),
    /// A doc comment.
    Doc(String),
    /// Sets a property.
    SetProperty(String, Property),
}

/// The data of an action: each field by its view.
pub enum ActionModel {
    With(Seq<char>, ValueModel),
    Extend((Seq<char>, Seq<char>)),
    Config((Seq<char>, Seq<char>), PropertyModel),
    Doc(Seq<char>),
    SetProperty(Seq<char>, PropertyModel),
}

impl View for Action {
    type V = ActionModel;

    open spec fn view(&self) -> ActionModel {
        match *self {
            Action::With(n, v) => ActionModel::With(n@, v@),
            Action::Extend(i) => ActionModel::Extend(i@),
            Action::Config(i, p) => ActionModel::Config(i@, p@),
            Action::Doc(d) => ActionModel::Doc(d@),
            Action::SetProperty(n, p) => ActionModel::SetProperty(n@, p@),
        }
    }
}

/// Returns an action that applies the name and value.
pub fn with(name: &str, value: Value) -> (a: Action)
    ensures
        a@ == ActionModel::With(name@, value@),
{
    Action::With(name.to_string(), value)
}

/// Returns an action that extends the namespace with `ident`.
pub fn extend(ident: &Identifier) -> (a: Action)
    ensures
        a@ == ActionModel::Extend(ident@),
{
    Action::Extend(ident.clone())
}

/// Returns a doc comment action, the comment without surrounding white
/// space.
pub fn doc(comment: &str) -> (a: Action)
    ensures
        a@ == ActionModel::Doc(spec_trim(comment@)),
{
    Action::Doc(trim(comment).to_string())
}

/// Returns an action that configures `config` under `config_ident`.
pub fn config(config_ident: &Identifier, property: &Property) -> (a: Action)
    ensures
        a@ == ActionModel::Config(config_ident@, property@),
{
    Action::Config(config_ident.clone(), property.clone())
}

/// Returns an action that sets the property.
pub fn set(name: &str, property: Property) -> (a: Action)
    ensures
        a@ == ActionModel::SetProperty(name@, property@),
{
    Action::SetProperty(name.to_string(), property)
}

/// A list of actions waiting to be applied.
#[derive(Debug)]
pub struct ActionBuffer {
    actions: Vec<Action>,
}

impl View for ActionBuffer {
    type V = Seq<ActionModel>;

    closed spec fn view(&self) -> Seq<ActionModel> {
        self.actions@.map_values(|a: Action| a@)
    }
}

impl ActionBuffer {
    /// Returns an empty buffer.
    pub fn new() -> (b: ActionBuffer)
        ensures
            b@ == Seq::<ActionModel>::empty(),
    {
        let b = ActionBuffer { actions: Vec::new() };
        assert(b@ =~= Seq::<ActionModel>::empty());
        b
    }

    fn push(&mut self, action: Action)
        ensures
            final(self)@ == old(self)@.push(action@),
    {
        self.actions.push(action);
        assert(self@ =~= old(self)@.push(action@));
    }

    /// Returns the buffer with an action that applies the name and value.
    pub fn with(self, name: &str, value: Value) -> (b: ActionBuffer)
        ensures
            b@ == self@.push(ActionModel::With(name@, value@)),
    {
        let mut b = self;
        b.push(self::with(name, value));
        b
    }

    /// Returns the buffer with an action that extends the namespace.
    pub fn extend(self, ident: Identifier) -> (b: ActionBuffer)
        ensures
            b@ == self@.push(ActionModel::Extend(ident@)),
    {
        let mut b = self;
        b.push(self::extend(&ident));
        b
    }

    /// Returns the buffer with a doc comment, trimmed.
    pub fn doc(self, comment: &str) -> (b: ActionBuffer)
        ensures
            b@ == self@.push(ActionModel::Doc(spec_trim(comment@))),
    {
        let mut b = self;
        b.push(self::doc(comment));
        b
    }

    /// Returns the buffer with an action that sets the property.
    pub fn set(self, name: &str, property: Property) -> (b: ActionBuffer)
        ensures
            b@ == self@.push(ActionModel::SetProperty(name@, property@)),
    {
        let mut b = self;
        b.push(self::set(name, property));
        b
    }

    /// Adds an action that configures `config` under `config_ident`.
    pub fn push_config(&mut self, config_ident: &Identifier, property: &Property)
        ensures
            final(self)@ == old(self)@.push(ActionModel::Config(config_ident@, property@)),
    {
        self.push(self::config(config_ident, property));
    }

    /// Returns the actions, in the order they were added.
    pub fn iter_actions(&self) -> (actions: &Vec<Action>)
        ensures
            actions@.map_values(|a: Action| a@) == self@,
    {
        &self.actions
    }
}

/// Stores documentation: recognizes the actions that carry doc comments.
pub struct Documentation;

impl Documentation {
    /// True if one of the actions is a doc comment, the case in which the
    /// documentation is shown.
    pub fn has_doc(actions: &Vec<Action>) -> (r: bool)
        ensures
            r == exists|i: int| 0 <= i < actions@.len() && actions@[i] is Doc,
    {
        let mut i: usize = 0;
        while i < actions.len()
            invariant
                i <= actions@.len(),
                forall|k: int| 0 <= k < i ==> !(actions@[k] is Doc),
            decreases actions@.len() - i,
        {
            if let Action::Doc(_) = &actions[i] {
                return true;
            }
            i = i + 1;
        }
        false
    }
}

/// The property map after the `With` actions of `actions`, in order, were
/// added to `m`; other actions leave it as it is.
pub open spec fn apply_withs(m: Map<Seq<char>, PropertyModel>, actions: Seq<ActionModel>) -> Map<Seq<char>, PropertyModel>
    decreases actions.len(),
{
    if actions.len() == 0 {
        m
    } else {
        let before = apply_withs(m, actions.drop_last());
        match actions.last() {
            ActionModel::With(name, v) => before.insert(
                name,
                add_result(if before.contains_key(name) { Some(before[name]) } else { None }, v),
            ),
            _ => before,
        }
    }
}

/// The identifiers of the `Extend` actions of `actions`, in order.
pub open spec fn extensions_of(actions: Seq<ActionModel>) -> Seq<(Seq<char>, Seq<char>)>
    decreases actions.len(),
{
    if actions.len() == 0 {
        Seq::empty()
    } else {
        let rest = extensions_of(actions.drop_last());
        match actions.last() {
            ActionModel::Extend(i) => rest.push(i),
            _ => rest,
        }
    }
}

/// The data of a root: its identifier, value and actions, by their views.
pub struct RootModel {
    pub ident: (Seq<char>, Seq<char>),
    pub value: ValueModel,
    pub actions: Seq<ActionModel>,
}

/// An attribute of a block: its identifier, its value, and the actions
/// that initialize it.
#[derive(Debug)]
pub struct Root {
    ident: Identifier,
    value: Value,
    initialize: Vec<Action>,
}

impl View for Root {
    type V = RootModel;

    open spec fn view(&self) -> RootModel {
        RootModel { ident: self.spec_ident(), value: self.spec_value(), actions: self.spec_actions() }
    }
}

impl Root {
    /// The identifier of the root.
    pub closed spec fn spec_ident(&self) -> (Seq<char>, Seq<char>) {
        self.ident@
    }

    /// The value of the root.
    pub closed spec fn spec_value(&self) -> ValueModel {
        self.value@
    }

    /// Returns the identifier of the root.
    pub fn ident(&self) -> (i: &Identifier)
        ensures
            i@ == self.spec_ident(),
    {
        &self.ident
    }

    /// Returns the value of the root.
    pub fn value(&self) -> (v: &Value)
        ensures
            v@ == self.spec_value(),
    {
        &self.value
    }

    /// The actions that initialize the root, in order.
    pub closed spec fn spec_actions(&self) -> Seq<ActionModel> {
        self.initialize@.map_values(|a: Action| a@)
    }

    /// Returns the root with the identifier and value, and no actions.
    pub fn new(ident: Identifier, value: Value) -> (r: Root)
        ensures
            r.spec_ident() == ident@,
            r.spec_value() == value@,
            r.spec_actions() == Seq::<ActionModel>::empty(),
    {
        let r = Root { ident, value, initialize: Vec::new() };
        assert(r.spec_actions() =~= Seq::<ActionModel>::empty());
        r
    }

    /// Returns the identifiers that the root is extended with, in order.
    pub fn extensions(&self) -> (exts: Vec<&Identifier>)
        ensures
            exts@.map_values(|i: &Identifier| i@) == extensions_of(self.spec_actions()),
    {
        let ghost actions = self.spec_actions();
        let mut exts: Vec<&Identifier> = Vec::new();
        let mut i: usize = 0;
        while i < self.initialize.len()
            invariant
                i <= self.initialize@.len(),
                actions == self.initialize@.map_values(|a: Action| a@),
                exts@.map_values(|x: &Identifier| x@) == extensions_of(actions.take(i as int)),
            decreases self.initialize@.len() - i,
        {
            proof {
                assert(actions.take(i + 1).drop_last() =~= actions.take(i as int));
                assert(actions[i as int] == self.initialize@[i as int]@);
            }
            match &self.initialize[i] {
                Action::Extend(ident) => {
                    let ghost before = exts@;
                    exts.push(ident);
                    proof {
                        assert(exts@.map_values(|x: &Identifier| x@) =~= before.map_values(
                            |x: &Identifier| x@,
                        ).push(ident@));
                    }
                },
                _ => {},
            }
            i = i + 1;
        }
        assert(actions.take(self.initialize@.len() as int) =~= actions);
        exts
    }

    /// Returns the actions that initialize the root, in order.
    pub fn action_buffer(&self) -> (actions: &Vec<Action>)
        ensures
            actions@.map_values(|a: Action| a@) == self.spec_actions(),
    {
        &self.initialize
    }

    /// Adds an initializing action.
    pub fn push(&mut self, action: Action)
        ensures
            final(self).spec_ident() == old(self).spec_ident(),
            final(self).spec_value() == old(self).spec_value(),
            final(self).spec_actions() == old(self).spec_actions().push(action@),
    {
        self.initialize.push(action);
        assert(self.spec_actions() =~= old(self).spec_actions().push(action@));
    }

    /// Returns the root with an action that applies the name and value.
    pub fn with(self, name: &str, value: Value) -> (r: Root)
        ensures
            r.spec_ident() == self.spec_ident(),
            r.spec_value() == self.spec_value(),
            r.spec_actions() == self.spec_actions().push(ActionModel::With(name@, value@)),
    {
        let mut r = self;
        r.push(self::with(name, value));
        r
    }

    /// Returns the root with an action that extends it with `ident`.
    pub fn extend(self, ident: &Identifier) -> (r: Root)
        ensures
            r.spec_ident() == self.spec_ident(),
            r.spec_value() == self.spec_value(),
            r.spec_actions() == self.spec_actions().push(ActionModel::Extend(ident@)),
    {
        let mut r = self;
        r.push(self::extend(ident));
        r
    }

    /// Returns the properties that the root is built with: owned by its
    /// identifier, with the names and values of its `With` actions added in
    /// order.
    pub fn properties(&self) -> (p: Properties)
        ensures
            p@.owner == self.spec_ident(),
            p@.map() == apply_withs(Map::empty(), self.spec_actions()),
    {
        properties_of_withs(self.ident.clone(), &self.initialize)
    }
}

/// Returns the properties owned by `owner` with the names and values of
/// the `With` actions of `actions` added in order.
pub fn properties_of_withs(owner: Identifier, actions: &Vec<Action>) -> (p: Properties)
    ensures
        p@.owner == owner@,
        p@.map() == apply_withs(Map::empty(), actions@.map_values(|a: Action| a@)),
{
    let ghost models = actions@.map_values(|a: Action| a@);
    let ghost o = owner@;
    let mut p = Properties::new(owner);
    proof {
        assert(p@.map() =~= Map::<Seq<char>, PropertyModel>::empty()) by {
            assert forall|n: Seq<char>| !p@.map().contains_key(n) by {
                crate::properties::lemma_find_name(p@.entries, n);
            }
        }
        assert(models.take(0) =~= Seq::<ActionModel>::empty());
    }
    let mut i: usize = 0;
    while i < actions.len()
        invariant
            i <= actions@.len(),
            models == actions@.map_values(|a: Action| a@),
            p@.owner == o,
            p@.map() == apply_withs(Map::empty(), models.take(i as int)),
        decreases actions@.len() - i,
    {
        proof {
            assert(models.take(i + 1).drop_last() =~= models.take(i as int));
            assert(models[i as int] == actions@[i as int]@);
        }
        match &actions[i] {
            Action::With(name, value) => {
                let ghost before = p@;
                p.add(name.as_str(), value.clone());
                proof {
                    let m = before.map();
                    assert(before.lookup(name@) == if m.contains_key(name@) {
                        Some(m[name@])
                    } else {
                        None::<PropertyModel>
                    });
                }
            },
            _ => {},
        }
        i = i + 1;
    }
    assert(models.take(actions@.len() as int) =~= models);
    p
}

} // verus!
