//! The widgets that a view declares, and what is gathered from them.

use crate::attributes::property::{Binding, Property, PropertyModelMap, PropertyView, WidgetMap};
use vstd::prelude::*;

verus! {

/// A property as the view declares it: its name, the expression that gives
/// its value, and the fields of the model that the expression reads.
pub struct PropertyDecl {
    pub name: String,
    pub expr: String,
    pub model_variables: Vec<String>,
}

impl PropertyDecl {
    /// Whether the expression reads the field `variable` of the model, as one
    /// of the first `upto` fields it reads.
    pub open spec fn reads(self, upto: int, variable: Seq<char>) -> bool {
        exists|k: int|
            0 <= k < upto && k < self.model_variables.len() && (
            #[trigger] self.model_variables[k])@ == variable
    }

    /// Whether this property, declared on the widget `widget_name`, gives the
    /// dependency `binding`.
    pub open spec fn binds(self, widget_name: Seq<char>, binding: Binding) -> bool {
        &&& binding.property == PropertyView { expr: self.expr@, name: self.name@, widget_name }
        &&& self.reads(self.model_variables.len() as int, binding.variable)
    }

    /// One more field read is one more field that may be `variable`.
    pub proof fn lemma_reads_next(self, upto: int, variable: Seq<char>)
        requires
            0 <= upto < self.model_variables.len(),
        ensures
            self.reads(upto + 1, variable) <==> self.reads(upto, variable)
                || self.model_variables[upto]@ == variable,
    {
        if self.reads(upto, variable) {
            let k = choose|k: int|
                0 <= k < upto && k < self.model_variables.len() && (
                #[trigger] self.model_variables[k])@ == variable;
            assert(0 <= k < upto + 1);
        }
        if self.reads(upto + 1, variable) {
            let k = choose|k: int|
                0 <= k < upto + 1 && k < self.model_variables.len() && (
                #[trigger] self.model_variables[k])@ == variable;
            if k < upto {
                assert(self.reads(upto, variable));
            }
        }
    }
}

/// Whether one of the first `upto` of `properties`, declared on the widget
/// `widget_name`, gives the dependency `binding`.
pub open spec fn declares(
    properties: Seq<PropertyDecl>,
    widget_name: Seq<char>,
    upto: int,
    binding: Binding,
) -> bool {
    exists|i: int|
        0 <= i < upto && i < properties.len() && (#[trigger] properties[i]).binds(
            widget_name,
            binding,
        )
}

/// One more property is one more that may give the dependency.
pub proof fn lemma_declares_next(
    properties: Seq<PropertyDecl>,
    widget_name: Seq<char>,
    upto: int,
    binding: Binding,
)
    requires
        0 <= upto < properties.len(),
    ensures
        declares(properties, widget_name, upto + 1, binding) <==> declares(
            properties,
            widget_name,
            upto,
            binding,
        ) || properties[upto].binds(widget_name, binding),
{
    if declares(properties, widget_name, upto, binding) {
        let i = choose|i: int|
            0 <= i < upto && i < properties.len() && (#[trigger] properties[i]).binds(
                widget_name,
                binding,
            );
        assert(0 <= i < upto + 1);
    }
    if declares(properties, widget_name, upto + 1, binding) {
        let i = choose|i: int|
            0 <= i < upto + 1 && i < properties.len() && (#[trigger] properties[i]).binds(
                widget_name,
                binding,
            );
        if i < upto {
            assert(declares(properties, widget_name, upto, binding));
        }
    }
}

/// A widget as the view declares it.
pub enum WidgetDecl {
    /// A widget of the toolkit, with its properties and the widgets in it.
    Gtk { name: String, typ: String, properties: Vec<PropertyDecl>, children: Vec<WidgetDecl> },
    /// A component, which keeps its own view.
    Relm { name: String, typ: String },
}

impl WidgetDecl {
    /// The widgets declared directly in this one.
    pub open spec fn children(self) -> Seq<WidgetDecl> {
        match self {
            WidgetDecl::Gtk { children, .. } => children@,
            WidgetDecl::Relm { .. } => Seq::empty(),
        }
    }

    /// The name and the type of this widget.
    pub open spec fn heading(self) -> (Seq<char>, Seq<char>) {
        match self {
            WidgetDecl::Gtk { name, typ, .. } => (name@, typ@),
            WidgetDecl::Relm { name, typ } => (name@, typ@),
        }
    }

    /// The properties declared on this widget itself.
    pub open spec fn properties(self) -> Seq<PropertyDecl> {
        match self {
            WidgetDecl::Gtk { properties, .. } => properties@,
            WidgetDecl::Relm { .. } => Seq::empty(),
        }
    }

    /// Whether a toolkit widget among the first `upto` children, or in one
    /// of them, declares a property that gives the dependency `binding`.
    pub open spec fn child_binds(self, upto: int, binding: Binding) -> bool
        decreases self, 0nat,
    {
        exists|j: int|
            0 <= j < upto && j < self.children().len() && (#[trigger] self.children()[j]).binds(
                binding,
            )
    }

    /// Whether this widget, or a toolkit widget in it, declares a property
    /// that gives the dependency `binding`. What a component declares is its
    /// own matter.
    pub open spec fn binds(self, binding: Binding) -> bool
        decreases self, 1nat,
    {
        match self {
            WidgetDecl::Gtk { name, typ, properties, children } => {
                ||| declares(properties@, name@, properties.len() as int, binding)
                ||| self.child_binds(children.len() as int, binding)
            },
            WidgetDecl::Relm { .. } => false,
        }
    }

    /// One more child is one more widget that may give the dependency.
    pub proof fn lemma_child_binds_next(self, upto: int, binding: Binding)
        requires
            0 <= upto < self.children().len(),
        ensures
            self.child_binds(upto + 1, binding) <==> self.child_binds(upto, binding)
                || self.children()[upto].binds(binding),
    {
        if self.child_binds(upto, binding) {
            let j = choose|j: int|
                0 <= j < upto && j < self.children().len() && (#[trigger] self.children()[j]).binds(
                    binding,
                );
            assert(0 <= j < upto + 1);
        }
        if self.child_binds(upto + 1, binding) {
            let j = choose|j: int|
                0 <= j < upto + 1 && j < self.children().len() && (
                #[trigger] self.children()[j]).binds(binding);
            if j < upto {
                assert(self.child_binds(upto, binding));
            }
        }
    }

    /// The dependencies that this widget and the toolkit widgets in it
    /// declare.
    pub open spec fn bindings(self) -> Set<Binding> {
        Set::new(|binding: Binding| self.binds(binding))
    }

    /// The names and types of the widgets in the first `upto` children, each
    /// child with all that is in it before the next.
    pub open spec fn lead(self, upto: nat) -> Seq<(Seq<char>, Seq<char>)>
        decreases self, upto,
    {
        if upto == 0 || upto > self.children().len() {
            Seq::empty()
        } else {
            self.lead((upto - 1) as nat) + self.children()[upto - 1].declared()
        }
    }

    /// The names and types of this widget and of all the widgets in it, each
    /// widget before those in it, and these in the order of the view.
    pub open spec fn declared(self) -> Seq<(Seq<char>, Seq<char>)>
        decreases self, self.children().len() + 1,
    {
        seq![self.heading()] + self.lead(self.children().len())
    }

    /// The name of the widget.
    pub fn name(&self) -> (name: &String)
        ensures
            name@ == self.heading().0,
    {
        match self {
            WidgetDecl::Gtk { name, .. } => name,
            WidgetDecl::Relm { name, .. } => name,
        }
    }

    /// The type of the widget.
    pub fn typ(&self) -> (typ: &String)
        ensures
            typ@ == self.heading().1,
    {
        match self {
            WidgetDecl::Gtk { typ, .. } => typ,
            WidgetDecl::Relm { typ, .. } => typ,
        }
    }
}

/// The table `widgets` after the widgets of `listing` whose name is in
/// `needed` were inserted one after the other.
pub open spec fn retain(
    widgets: Map<Seq<char>, Seq<char>>,
    listing: Seq<(Seq<char>, Seq<char>)>,
    needed: Set<Seq<char>>,
) -> Map<Seq<char>, Seq<char>>
    decreases listing.len(),
{
    if listing.len() == 0 {
        widgets
    } else {
        let before = retain(widgets, listing.drop_last(), needed);
        if needed.contains(listing.last().0) {
            before.insert(listing.last().0, listing.last().1)
        } else {
            before
        }
    }
}

/// To insert from two listings one after the other is to insert from the two
/// joined.
pub proof fn lemma_retain_joined(
    widgets: Map<Seq<char>, Seq<char>>,
    first: Seq<(Seq<char>, Seq<char>)>,
    second: Seq<(Seq<char>, Seq<char>)>,
    needed: Set<Seq<char>>,
)
    ensures
        retain(retain(widgets, first, needed), second, needed) == retain(
            widgets,
            first + second,
            needed,
        ),
    decreases second.len(),
{
    if second.len() == 0 {
        assert(first + second =~= first);
    } else {
        lemma_retain_joined(widgets, first, second.drop_last(), needed);
        assert((first + second).drop_last() =~= first + second.drop_last());
        assert((first + second).last() == second.last());
    }
}

/// A widget is in the table afterwards if it was there before or if it is
/// listed and needed, and no other.
pub proof fn lemma_retain_keys(
    widgets: Map<Seq<char>, Seq<char>>,
    listing: Seq<(Seq<char>, Seq<char>)>,
    needed: Set<Seq<char>>,
    name: Seq<char>,
)
    ensures
        retain(widgets, listing, needed).contains_key(name) <==> widgets.contains_key(name) || (
        needed.contains(name) && exists|i: int|
            0 <= i < listing.len() && (#[trigger] listing[i]).0 == name),
    decreases listing.len(),
{
    if listing.len() > 0 {
        let shorter = listing.drop_last();
        lemma_retain_keys(widgets, shorter, needed, name);
        if exists|i: int| 0 <= i < shorter.len() && (#[trigger] shorter[i]).0 == name {
            let i = choose|i: int| 0 <= i < shorter.len() && (#[trigger] shorter[i]).0 == name;
            assert(listing[i].0 == name);
        }
        if exists|i: int| 0 <= i < listing.len() && (#[trigger] listing[i]).0 == name {
            let i = choose|i: int| 0 <= i < listing.len() && (#[trigger] listing[i]).0 == name;
            if i < shorter.len() {
                assert(shorter[i].0 == name);
            }
        }
    }
}

/// Gathers the dependencies of a view: for every property that `widget` or a
/// toolkit widget in it declares, and every field of the model that the
/// property's expression reads, the dependency of the property on the field
/// is added to `map`.
pub fn get_properties_model_map(widget: &WidgetDecl, map: &mut PropertyModelMap)
    ensures
        final(map)@ == old(map)@.union(widget.bindings()),
    decreases widget,
{
    match widget {
        WidgetDecl::Gtk { name, typ, properties, children } => {
            let mut i: usize = 0;
            while i < properties.len()
                invariant
                    i <= properties.len(),
                    forall|binding: Binding|
                        map@.contains(binding) <==> old(map)@.contains(binding) || declares(
                            properties@,
                            name@,
                            i as int,
                            binding,
                        ),
                decreases properties.len() - i,
            {
                add_property(&properties[i], name, map);
                proof {
                    assert forall|binding: Binding|
                        map@.contains(binding) <==> old(map)@.contains(binding) || declares(
                            properties@,
                            name@,
                            i + 1,
                            binding,
                        ) by {
                        lemma_declares_next(properties@, name@, i as int, binding);
                    }
                }
                i += 1;
            }
            let ghost own = map@;
            let mut j: usize = 0;
            while j < children.len()
                invariant
                    j <= children.len(),
                    widget == (WidgetDecl::Gtk {
                        name: *name,
                        typ: *typ,
                        properties: *properties,
                        children: *children,
                    }),
                    forall|binding: Binding|
                        #![trigger map@.contains(binding)]
                        map@.contains(binding) <==> own.contains(binding) || widget.child_binds(
                            j as int,
                            binding,
                        ),
                decreases children.len() - j,
            {
                proof {
                    assert(widget.children() == children@);
                    assert(decreases_to!(widget => *children));
                    assert(decreases_to!(*children => children[j as int]));
                }
                get_properties_model_map(&children[j], map);
                proof {
                    assert forall|binding: Binding|
                        #![trigger map@.contains(binding)]
                        map@.contains(binding) <==> own.contains(binding) || widget.child_binds(
                            j + 1,
                            binding,
                        ) by {
                        widget.lemma_child_binds_next(j as int, binding);
                    }
                }
                j += 1;
            }
            proof {
                assert(map@ =~= old(map)@.union(widget.bindings()));
            }
        },
        WidgetDecl::Relm { .. } => {
            proof {
                assert(map@ =~= old(map)@.union(widget.bindings()));
            }
        },
    }
}

/// Adds to `map` what the property `decl` of the widget `widget_name` depends
/// on: one dependency for each field of the model that its expression reads.
fn add_property(decl: &PropertyDecl, widget_name: &String, map: &mut PropertyModelMap)
    ensures
        forall|binding: Binding|
            final(map)@.contains(binding) <==> old(map)@.contains(binding) || decl.binds(
                widget_name@,
                binding,
            ),
{
    let ghost given = PropertyView { expr: decl.expr@, name: decl.name@, widget_name: widget_name@ };
    let mut k: usize = 0;
    while k < decl.model_variables.len()
        invariant
            k <= decl.model_variables.len(),
            given == (PropertyView { expr: decl.expr@, name: decl.name@, widget_name: widget_name@ }),
            forall|binding: Binding|
                map@.contains(binding) <==> old(map)@.contains(binding) || (binding.property
                    == given && decl.reads(k as int, binding.variable)),
        decreases decl.model_variables.len() - k,
    {
        let property = Property {
            expr: decl.expr.clone(),
            name: decl.name.clone(),
            widget_name: widget_name.clone(),
        };
        map.insert(decl.model_variables[k].clone(), property);
        proof {
            assert forall|binding: Binding|
                map@.contains(binding) <==> old(map)@.contains(binding) || (binding.property
                    == given && decl.reads(k + 1, binding.variable)) by {
                decl.lemma_reads_next(k as int, binding.variable);
            }
        }
        k += 1;
    }
}

/// Only add widgets that are needed by the update() function: every widget
/// among `widget` and those in it whose name has a property in `map` is
/// inserted into `widgets` with its type, in the order of the view.
pub fn add_widgets(widget: &WidgetDecl, widgets: &mut WidgetMap, map: &PropertyModelMap)
    ensures
        final(widgets)@ == retain(old(widgets)@, widget.declared(), map.widget_names()),
    decreases widget,
{
    let ghost needed = map.widget_names();
    let to_add = map.mentions_widget(widget.name());
    if to_add {
        widgets.insert(widget.name().clone(), widget.typ().clone());
    }
    proof {
        let single = seq![widget.heading()];
        assert(single.drop_last() =~= Seq::<(Seq<char>, Seq<char>)>::empty());
        assert(retain(old(widgets)@, single.drop_last(), needed) == old(widgets)@);
        assert(widgets@ == retain(old(widgets)@, single, needed));
    }
    match widget {
        WidgetDecl::Gtk { name, typ, properties, children } => {
            let mut j: usize = 0;
            while j < children.len()
                invariant
                    j <= children.len(),
                    needed == map.widget_names(),
                    widget == (WidgetDecl::Gtk {
                        name: *name,
                        typ: *typ,
                        properties: *properties,
                        children: *children,
                    }),
                    widgets@ == retain(
                        old(widgets)@,
                        seq![widget.heading()] + widget.lead(j as nat),
                        needed,
                    ),
                decreases children.len() - j,
            {
                proof {
                    assert(decreases_to!(widget => *children));
                    assert(decreases_to!(*children => children[j as int]));
                }
                add_widgets(&children[j], widgets, map);
                proof {
                    let so_far = seq![widget.heading()] + widget.lead(j as nat);
                    let next = children[j as int].declared();
                    lemma_retain_joined(old(widgets)@, so_far, next, needed);
                    assert(widget.lead((j + 1) as nat) == widget.lead(j as nat) + next);
                    assert(so_far + next =~= seq![widget.heading()] + widget.lead((j + 1) as nat));
                }
                j += 1;
            }
        },
        WidgetDecl::Relm { .. } => {
            proof {
                assert(widget.lead(0) =~= Seq::<(Seq<char>, Seq<char>)>::empty());
                assert(seq![widget.heading()] + widget.lead(0) =~= seq![widget.heading()]);
            }
        },
    }
}

} // verus!
