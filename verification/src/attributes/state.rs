//! The items of an `impl` of a widget, what is noted of them, and the items
//! that the generated `impl` is put together from.

use crate::attributes::property::{Binding, PropertyModelMap, WidgetMap};
use vstd::prelude::*;

verus! {

/// An item of the `impl`, as far as the generation depends on it.
pub enum ImplEntry {
    /// A constant.
    Const,
    /// A macro call.
    Macro,
    /// A method: its name, its return type if it declares one, and the type
    /// of its second parameter if it has one with a type.
    Method { ident: String, output: Option<String>, second_input: Option<String> },
    /// An associated type, with its name.
    Type { ident: String },
}

/// What an item of the `impl` is taken for.
#[derive(Clone, Copy, Debug, PartialEq, Eq, Structural)]
pub enum Role {
    /// The macro that holds the view.
    ViewMacro,
    /// The method `container`.
    ContainerMethod,
    /// The method `model`.
    ModelMethod,
    /// The method `subscriptions`.
    Subscriptions,
    /// The method `update`.
    Update,
    /// The method `update_command`.
    UpdateCommand,
    /// The associated type `Container`.
    ContainerType,
    /// The associated type `Model`.
    ModelType,
}

/// Why an item of the `impl` is refused.
#[derive(Clone, Copy, Debug, PartialEq, Eq, Structural)]
pub enum ItemError {
    /// A constant stands in the `impl`.
    UnexpectedConst,
    /// A method has a name that is none of the five.
    UnexpectedMethod,
    /// The method `model` declares no return type.
    MissingReturnType,
    /// The method `update` has no second parameter with a type.
    MissingEventType,
    /// An associated type is neither `Container` nor `Model`.
    UnexpectedType,
}

/// The first item that is refused: its position and the reason.
#[derive(Clone, Copy, Debug, PartialEq, Eq, Structural)]
pub struct ScanError {
    pub index: usize,
    pub error: ItemError,
}

/// The text of a name that may be missing.
pub open spec fn text(name: Option<String>) -> Option<Seq<char>> {
    match name {
        Some(name) => Some(name@),
        None => None,
    }
}

/// Whether `ident` is the word `word`.
fn is_word(ident: &String, word: &str) -> (same: bool)
    ensures
        same == (ident@ == word@),
{
    let owned = word.to_owned();
    *ident == owned
}

/// A copy of a name that may be missing.
fn copy_name(name: &Option<String>) -> (copy: Option<String>)
    ensures
        text(copy) == text(*name),
{
    match name {
        Some(name) => Some(name.clone()),
        None => None,
    }
}

impl ImplEntry {
    /// What the item is taken for, or why it is refused.
    pub open spec fn role(self) -> Result<Role, ItemError> {
        match self {
            ImplEntry::Const => Err(ItemError::UnexpectedConst),
            ImplEntry::Macro => Ok(Role::ViewMacro),
            ImplEntry::Method { ident, output, second_input } => {
                if ident@ == "container"@ {
                    Ok(Role::ContainerMethod)
                } else if ident@ == "model"@ {
                    if output.is_some() {
                        Ok(Role::ModelMethod)
                    } else {
                        Err(ItemError::MissingReturnType)
                    }
                } else if ident@ == "subscriptions"@ {
                    Ok(Role::Subscriptions)
                } else if ident@ == "update"@ {
                    if second_input.is_some() {
                        Ok(Role::Update)
                    } else {
                        Err(ItemError::MissingEventType)
                    }
                } else if ident@ == "update_command"@ {
                    Ok(Role::UpdateCommand)
                } else {
                    Err(ItemError::UnexpectedMethod)
                }
            },
            ImplEntry::Type { ident } => {
                if ident@ == "Container"@ {
                    Ok(Role::ContainerType)
                } else if ident@ == "Model"@ {
                    Ok(Role::ModelType)
                } else {
                    Err(ItemError::UnexpectedType)
                }
            },
        }
    }

    /// Whether the item is taken for `role`.
    pub open spec fn plays(self, role: Role) -> bool {
        self.role() == Ok::<Role, ItemError>(role)
    }

    /// Whether the item goes into the generated `impl` as it is.
    pub open spec fn passes(self) -> bool {
        self.plays(Role::ModelMethod) || self.plays(Role::Subscriptions) || self.plays(
            Role::UpdateCommand,
        )
    }

    /// The return type of the method, as text.
    pub open spec fn output(self) -> Option<Seq<char>> {
        match self {
            ImplEntry::Method { output, .. } => text(output),
            _ => None,
        }
    }

    /// The type of the second parameter of the method, as text.
    pub open spec fn second_input(self) -> Option<Seq<char>> {
        match self {
            ImplEntry::Method { second_input, .. } => text(second_input),
            _ => None,
        }
    }

    /// Says what the item is taken for, or why it is refused.
    pub fn classify(&self) -> (role: Result<Role, ItemError>)
        ensures
            role == self.role(),
    {
        match self {
            ImplEntry::Const => Err(ItemError::UnexpectedConst),
            ImplEntry::Macro => Ok(Role::ViewMacro),
            ImplEntry::Method { ident, output, second_input } => {
                if is_word(ident, "container") {
                    Ok(Role::ContainerMethod)
                } else if is_word(ident, "model") {
                    if output.is_some() {
                        Ok(Role::ModelMethod)
                    } else {
                        Err(ItemError::MissingReturnType)
                    }
                } else if is_word(ident, "subscriptions") {
                    Ok(Role::Subscriptions)
                } else if is_word(ident, "update") {
                    if second_input.is_some() {
                        Ok(Role::Update)
                    } else {
                        Err(ItemError::MissingEventType)
                    }
                } else if is_word(ident, "update_command") {
                    Ok(Role::UpdateCommand)
                } else {
                    Err(ItemError::UnexpectedMethod)
                }
            },
            ImplEntry::Type { ident } => {
                if is_word(ident, "Container") {
                    Ok(Role::ContainerType)
                } else if is_word(ident, "Model") {
                    Ok(Role::ModelType)
                } else {
                    Err(ItemError::UnexpectedType)
                }
            },
        }
    }
}

/// The position of the last of the first `upto` items that is taken for
/// `role`.
pub open spec fn last_of(items: Seq<ImplEntry>, role: Role, upto: int) -> Option<usize>
    decreases upto,
{
    if upto <= 0 || upto > items.len() {
        None
    } else if items[upto - 1].plays(role) {
        Some((upto - 1) as usize)
    } else {
        last_of(items, role, upto - 1)
    }
}

/// The positions of those of the first `upto` items that go into the
/// generated `impl` as they are, in their order.
pub open spec fn passed(items: Seq<ImplEntry>, upto: int) -> Seq<usize>
    decreases upto,
{
    if upto <= 0 || upto > items.len() {
        Seq::empty()
    } else if items[upto - 1].passes() {
        passed(items, upto - 1).push((upto - 1) as usize)
    } else {
        passed(items, upto - 1)
    }
}

/// What `last_of` gives is the position of an item that is taken for `role`
/// and that no such item follows; it gives none only where there is none.
pub proof fn lemma_last_of(items: Seq<ImplEntry>, role: Role, upto: int)
    requires
        0 <= upto <= items.len() <= usize::MAX,
    ensures
        match last_of(items, role, upto) {
            Some(at) => at < upto && items[at as int].plays(role) && forall|later: int|
                at < later < upto ==> !(#[trigger] items[later]).plays(role),
            None => forall|any: int| 0 <= any < upto ==> !(#[trigger] items[any]).plays(role),
        },
    decreases upto,
{
    if upto > 0 {
        lemma_last_of(items, role, upto - 1);
    }
}

/// What is noted of an `impl`, as text and positions.
pub struct StateView {
    pub container_method: Option<usize>,
    pub container_type: Option<usize>,
    pub model_type: Option<usize>,
    pub msg_type: Option<Seq<char>>,
    pub properties_model_map: Option<Set<Binding>>,
    pub root_widget: Option<Seq<char>>,
    pub root_widget_type: Option<Seq<char>>,
    pub update_method: Option<usize>,
    pub view_macro: Option<usize>,
    pub widget_model_type: Option<Seq<char>>,
    pub widgets: Map<Seq<char>, Seq<char>>,
}

/// What is noted of an `impl` while its generated form is made. An item is
/// noted by its position among the items, a type by its text.
pub struct State {
    pub container_method: Option<usize>,
    pub container_type: Option<usize>,
    pub model_type: Option<usize>,
    pub msg_type: Option<String>,
    pub properties_model_map: Option<PropertyModelMap>,
    pub root_widget: Option<String>,
    pub root_widget_type: Option<String>,
    pub update_method: Option<usize>,
    pub view_macro: Option<usize>,
    pub widget_model_type: Option<String>,
    /// Map widget ident to widget type.
    pub widgets: WidgetMap,
}

impl View for State {
    type V = StateView;

    open spec fn view(&self) -> StateView {
        StateView {
            container_method: self.container_method,
            container_type: self.container_type,
            model_type: self.model_type,
            msg_type: text(self.msg_type),
            properties_model_map: match self.properties_model_map {
                Some(map) => Some(map@),
                None => None,
            },
            root_widget: text(self.root_widget),
            root_widget_type: text(self.root_widget_type),
            update_method: self.update_method,
            view_macro: self.view_macro,
            widget_model_type: text(self.widget_model_type),
            widgets: self.widgets@,
        }
    }
}

/// Where an item of the generated `impl` comes from.
pub enum Origin {
    /// The `impl` declares it, at this position.
    Declared(usize),
    /// It is made from this name.
    Derived(String),
}

/// Where an item of the generated `impl` comes from, as text.
pub enum OriginView {
    Declared(usize),
    Derived(Seq<char>),
}

impl View for Origin {
    type V = OriginView;

    open spec fn view(&self) -> OriginView {
        match self {
            Origin::Declared(index) => OriginView::Declared(*index),
            Origin::Derived(name) => OriginView::Derived(name@),
        }
    }
}

/// An item of the generated `impl`.
pub enum Piece {
    /// The item at this position, as it is.
    Kept(usize),
    /// The method that builds the view.
    View,
    /// The associated type `Model`: declared, or the return type of `model`.
    ModelType(Origin),
    /// The associated type `Container`: declared, or the type of the root
    /// widget.
    ContainerType(Origin),
    /// The method `update` at this position, with the property updates added.
    Update(usize),
    /// The method `container`: declared, or one that gives the root widget.
    Container(Origin),
}

/// An item of the generated `impl`, as text.
pub enum PieceView {
    Kept(usize),
    View,
    ModelType(OriginView),
    ContainerType(OriginView),
    Update(usize),
    Container(OriginView),
}

impl View for Piece {
    type V = PieceView;

    open spec fn view(&self) -> PieceView {
        match self {
            Piece::Kept(index) => PieceView::Kept(*index),
            Piece::View => PieceView::View,
            Piece::ModelType(origin) => PieceView::ModelType(origin@),
            Piece::ContainerType(origin) => PieceView::ContainerType(origin@),
            Piece::Update(index) => PieceView::Update(*index),
            Piece::Container(origin) => PieceView::Container(origin@),
        }
    }
}

/// What is missing to put the generated `impl` together.
#[derive(Clone, Copy, Debug, PartialEq, Eq, Structural)]
pub enum PlanError {
    /// The `impl` holds no macro with the view.
    NoViewMacro,
    /// The view has no root widget.
    NoRootWidget,
    /// The root widget has no type.
    NoRootWidgetType,
    /// The `impl` has neither the type `Model` nor a method `model`.
    NoWidgetModelType,
    /// The `impl` has no method `update`.
    NoUpdateMethod,
    /// The dependencies of the properties were not gathered.
    NoPropertiesModelMap,
}

/// The declared item if there is one, else what is made from `name`.
pub open spec fn origin(declared: Option<usize>, name: Option<Seq<char>>) -> OriginView {
    match declared {
        Some(index) => OriginView::Declared(index),
        None => OriginView::Derived(name.unwrap()),
    }
}

impl StateView {
    /// What is noted of the first `upto` of `items`.
    pub open spec fn scanned(items: Seq<ImplEntry>, upto: int) -> StateView {
        StateView {
            container_method: last_of(items, Role::ContainerMethod, upto),
            container_type: last_of(items, Role::ContainerType, upto),
            model_type: last_of(items, Role::ModelType, upto),
            msg_type: match last_of(items, Role::Update, upto) {
                Some(at) => items[at as int].second_input(),
                None => None,
            },
            properties_model_map: None,
            root_widget: None,
            root_widget_type: None,
            update_method: last_of(items, Role::Update, upto),
            view_macro: last_of(items, Role::ViewMacro, upto),
            widget_model_type: match last_of(items, Role::ModelMethod, upto) {
                Some(at) => items[at as int].output(),
                None => None,
            },
            widgets: Map::empty(),
        }
    }

    /// What is missing to put the generated `impl` together: the first of
    /// the things that are looked for in turn.
    pub open spec fn missing(self) -> Option<PlanError> {
        if self.view_macro.is_none() {
            Some(PlanError::NoViewMacro)
        } else if self.root_widget.is_none() {
            Some(PlanError::NoRootWidget)
        } else if self.root_widget_type.is_none() {
            Some(PlanError::NoRootWidgetType)
        } else if self.model_type.is_none() && self.widget_model_type.is_none() {
            Some(PlanError::NoWidgetModelType)
        } else if self.update_method.is_none() {
            Some(PlanError::NoUpdateMethod)
        } else if self.properties_model_map.is_none() {
            Some(PlanError::NoPropertiesModelMap)
        } else {
            None
        }
    }

    /// The state after the root widget was entered among the widgets.
    pub open spec fn rooted(self) -> StateView {
        StateView {
            widgets: self.widgets.insert(self.root_widget.unwrap(), self.root_widget_type.unwrap()),
            ..self
        }
    }

    /// The items of the generated `impl`, in their order: the items kept as
    /// they are, the view that is made from the macro, the type of the model,
    /// the type of the container, `update`, and `container`.
    pub open spec fn plan(self, kept: Seq<usize>) -> Seq<PieceView> {
        Seq::new(kept.len(), |i: int| PieceView::Kept(kept[i])) + seq![
            PieceView::View,
            PieceView::ModelType(origin(self.model_type, self.widget_model_type)),
            PieceView::ContainerType(origin(self.container_type, self.root_widget_type)),
            PieceView::Update(self.update_method.unwrap()),
            PieceView::Container(origin(self.container_method, self.root_widget)),
        ]
    }
}

/// The items of `pieces`, as text.
pub open spec fn views(pieces: Seq<Piece>) -> Seq<PieceView> {
    Seq::new(pieces.len(), |i: int| pieces[i]@)
}

/// The declared item if there is one, else what is made from `name`.
fn origin_of(declared: Option<usize>, name: &Option<String>) -> (from: Origin)
    requires
        declared.is_some() || name.is_some(),
    ensures
        from@ == origin(declared, text(*name)),
{
    match declared {
        Some(index) => Origin::Declared(index),
        None => match name {
            Some(name) => Origin::Derived(name.clone()),
            None => Origin::Declared(0),
        },
    }
}

impl State {
    /// The state before anything is noted.
    pub fn new() -> (state: Self)
        ensures
            state@ == StateView::scanned(Seq::empty(), 0),
    {
        State {
            container_method: None,
            container_type: None,
            model_type: None,
            msg_type: None,
            properties_model_map: None,
            root_widget: None,
            root_widget_type: None,
            update_method: None,
            view_macro: None,
            widget_model_type: None,
            widgets: WidgetMap::new(),
        }
    }

    /// Goes through the items of an `impl` in their order and notes what each
    /// is taken for. Of two items with one role the later one counts.
    ///
    /// It fails at the first item that is refused, with its position and the
    /// reason. Otherwise it returns what was noted, and the positions of the
    /// items that go into the generated `impl` as they are.
    pub fn scan(items: &Vec<ImplEntry>) -> (result: Result<(State, Vec<usize>), ScanError>)
        ensures
            match result {
                Ok((state, kept)) => {
                    &&& forall|i: int| 0 <= i < items.len() ==> (#[trigger] items[i]).role().is_ok()
                    &&& state@ == StateView::scanned(items@, items.len() as int)
                    &&& kept@ == passed(items@, items.len() as int)
                },
                Err(refused) => {
                    &&& refused.index < items.len()
                    &&& items[refused.index as int].role() == Err::<Role, ItemError>(refused.error)
                    &&& forall|i: int| 0 <= i < refused.index ==> (#[trigger] items[i]).role().is_ok()
                },
            },
    {
        let mut state = State::new();
        let mut kept: Vec<usize> = Vec::new();
        let mut i: usize = 0;
        while i < items.len()
            invariant
                i <= items.len(),
                forall|done: int| 0 <= done < i ==> (#[trigger] items[done]).role().is_ok(),
                state@ == StateView::scanned(items@, i as int),
                kept@ == passed(items@, i as int),
            decreases items.len() - i,
        {
            let item = &items[i];
            match item.classify() {
                Err(error) => {
                    return Err(ScanError { index: i, error });
                },
                Ok(role) => {
                    match role {
                        Role::ViewMacro => {
                            state.view_macro = Some(i);
                        },
                        Role::ContainerMethod => {
                            state.container_method = Some(i);
                        },
                        Role::ModelMethod => {
                            if let ImplEntry::Method { output, .. } = item {
                                state.widget_model_type = copy_name(output);
                            }
                            kept.push(i);
                        },
                        Role::Subscriptions => {
                            kept.push(i);
                        },
                        Role::Update => {
                            if let ImplEntry::Method { second_input, .. } = item {
                                state.msg_type = copy_name(second_input);
                            }
                            state.update_method = Some(i);
                        },
                        Role::UpdateCommand => {
                            kept.push(i);
                        },
                        Role::ContainerType => {
                            state.container_type = Some(i);
                        },
                        Role::ModelType => {
                            state.model_type = Some(i);
                        },
                    }
                },
            }
            proof {
                assert(state@.widgets =~= Map::<Seq<char>, Seq<char>>::empty());
            }
            i += 1;
        }
        Ok((state, kept))
    }

    /// Puts the generated `impl` together, once the view was read: the root
    /// widget is entered among the widgets, and the items are listed in
    /// their order.
    ///
    /// It fails, and changes nothing, where something is missing: the macro
    /// with the view, the root widget, its type, a type for the model, the
    /// method `update`, or the dependencies of the properties, looked for in
    /// this order.
    pub fn finish(&mut self, kept: &Vec<usize>) -> (result: Result<Vec<Piece>, PlanError>)
        ensures
            match result {
                Ok(pieces) => {
                    &&& old(self)@.missing().is_none()
                    &&& final(self)@ == old(self)@.rooted()
                    &&& views(pieces@) == old(self)@.plan(kept@)
                },
                Err(missing) => {
                    &&& old(self)@.missing() == Some(missing)
                    &&& final(self)@ == old(self)@
                },
            },
    {
        if self.view_macro.is_none() {
            return Err(PlanError::NoViewMacro);
        }
        let root_widget = match &self.root_widget {
            Some(name) => name.clone(),
            None => {
                return Err(PlanError::NoRootWidget);
            },
        };
        let root_widget_type = match &self.root_widget_type {
            Some(name) => name.clone(),
            None => {
                return Err(PlanError::NoRootWidgetType);
            },
        };
        if self.model_type.is_none() && self.widget_model_type.is_none() {
            return Err(PlanError::NoWidgetModelType);
        }
        let update = match self.update_method {
            Some(index) => index,
            None => {
                return Err(PlanError::NoUpdateMethod);
            },
        };
        if self.properties_model_map.is_none() {
            return Err(PlanError::NoPropertiesModelMap);
        }
        let mut pieces: Vec<Piece> = Vec::new();
        let mut i: usize = 0;
        while i < kept.len()
            invariant
                i <= kept.len(),
                pieces.len() == i,
                forall|done: int| 0 <= done < i ==> (#[trigger] pieces[done])@ == PieceView::Kept(kept[done]),
            decreases kept.len() - i,
        {
            pieces.push(Piece::Kept(kept[i]));
            i += 1;
        }
        pieces.push(Piece::View);
        pieces.push(Piece::ModelType(origin_of(self.model_type, &self.widget_model_type)));
        pieces.push(Piece::ContainerType(origin_of(self.container_type, &self.root_widget_type)));
        pieces.push(Piece::Update(update));
        pieces.push(Piece::Container(origin_of(self.container_method, &self.root_widget)));
        self.widgets.insert(root_widget, root_widget_type);
        proof {
            assert(views(pieces@) =~= old(self)@.plan(kept@));
        }
        Ok(pieces)
    }
}

/// Whether the path of a macro, given by its segments, is `view`.
pub fn is_view_macro(segments: &Vec<String>) -> (is_view: bool)
    ensures
        is_view == (segments.len() == 1 && segments[0]@ == "view"@),
{
    segments.len() == 1 && is_word(&segments[0], "view")
}

} // verus!
