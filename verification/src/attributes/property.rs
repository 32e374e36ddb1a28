//! Properties bound to the model, and the two tables kept about them.

use vstd::prelude::*;

verus! {

/// A property of a widget whose value is computed from the model.
#[derive(Debug)]
pub struct Property {
    /// The expression that gives the value.
    pub expr: String,
    /// The name of the property.
    pub name: String,
    /// The name of the widget that has the property.
    pub widget_name: String,
}

/// A property, as text.
pub struct PropertyView {
    pub expr: Seq<char>,
    pub name: Seq<char>,
    pub widget_name: Seq<char>,
}

impl View for Property {
    type V = PropertyView;

    open spec fn view(&self) -> PropertyView {
        PropertyView { expr: self.expr@, name: self.name@, widget_name: self.widget_name@ }
    }
}

impl Property {
    /// Whether two properties are the same text.
    pub fn same(&self, other: &Property) -> (same: bool)
        ensures
            same == (self@ == other@),
    {
        self.expr == other.expr && self.name == other.name && self.widget_name
            == other.widget_name
    }

}

impl Clone for Property {
    fn clone(&self) -> (copy: Property)
        ensures
            copy@ == self@,
    {
        Property {
            expr: self.expr.clone(),
            name: self.name.clone(),
            widget_name: self.widget_name.clone(),
        }
    }
}

/// One dependency: the value of `property` is computed from the field
/// `variable` of the model.
pub struct Binding {
    pub variable: Seq<char>,
    pub property: PropertyView,
}

/// For each field of the model, the properties that are computed from it.
///
/// It is a set of dependencies: to record one twice is to record it once.
pub struct PropertyModelMap {
    entries: Vec<(String, Property)>,
}

impl View for PropertyModelMap {
    type V = Set<Binding>;

    closed spec fn view(&self) -> Set<Binding> {
        Set::new(|binding: Binding| Self::lists(self.entries@, binding))
    }
}

impl PropertyModelMap {
    /// Whether `binding` is among `entries`.
    pub closed spec fn lists(entries: Seq<(String, Property)>, binding: Binding) -> bool {
        exists|i: int|
            0 <= i < entries.len() && (#[trigger] entries[i]).0@ == binding.variable
                && entries[i].1@ == binding.property
    }

    #[verifier::type_invariant]
    spec fn distinct(self) -> bool {
        forall|i: int, j: int|
            0 <= i < j < self.entries.len() ==> !((#[trigger] self.entries[i]).0@
                == (#[trigger] self.entries[j]).0@ && self.entries[i].1@ == self.entries[j].1@)
    }

    /// The names of the widgets that have a property in the table.
    pub open spec fn widget_names(self) -> Set<Seq<char>> {
        Set::new(
            |name: Seq<char>|
                exists|binding: Binding|
                    self@.contains(binding) && binding.property.widget_name == name,
        )
    }

    /// The empty table.
    pub fn new() -> (map: Self)
        ensures
            map@ == Set::<Binding>::empty(),
    {
        let map = PropertyModelMap { entries: Vec::new() };
        assert(map@ =~= Set::<Binding>::empty());
        map
    }

    /// The number of dependencies in the table.
    pub fn len(&self) -> (count: usize)
        ensures
            count == self@.len(),
            self@.finite(),
    {
        proof {
            use_type_invariant(self);
            Self::lemma_count(self.entries@);
        }
        self.entries.len()
    }

    /// A list without repetition lists as many dependencies as it is long.
    proof fn lemma_count(entries: Seq<(String, Property)>)
        requires
            forall|i: int, j: int|
                0 <= i < j < entries.len() ==> !((#[trigger] entries[i]).0@ == (
                #[trigger] entries[j]).0@ && entries[i].1@ == entries[j].1@),
        ensures
            Set::new(|binding: Binding| Self::lists(entries, binding)).finite(),
            Set::new(|binding: Binding| Self::lists(entries, binding)).len() == entries.len(),
        decreases entries.len(),
    {
        let all = Set::new(|binding: Binding| Self::lists(entries, binding));
        if entries.len() == 0 {
            assert(all =~= Set::<Binding>::empty());
        } else {
            let shorter = entries.drop_last();
            let rest = Set::new(|binding: Binding| Self::lists(shorter, binding));
            let last = Binding { variable: entries.last().0@, property: entries.last().1@ };
            assert forall|i: int, j: int| 0 <= i < j < shorter.len() implies !((
            #[trigger] shorter[i]).0@ == (#[trigger] shorter[j]).0@ && shorter[i].1@
                == shorter[j].1@) by {
                assert(shorter[i] == entries[i] && shorter[j] == entries[j]);
            }
            Self::lemma_count(shorter);
            assert(!rest.contains(last)) by {
                if rest.contains(last) {
                    let i = choose|i: int|
                        0 <= i < shorter.len() && (#[trigger] shorter[i]).0@ == last.variable
                            && shorter[i].1@ == last.property;
                    assert(shorter[i] == entries[i]);
                    assert(entries[i].0@ == entries[entries.len() - 1].0@);
                }
            }
            assert(all =~= rest.insert(last)) by {
                assert forall|binding: Binding| all.contains(binding) <==> rest.insert(
                    last,
                ).contains(binding) by {
                    if Self::lists(entries, binding) {
                        let i = choose|i: int|
                            0 <= i < entries.len() && (#[trigger] entries[i]).0@
                                == binding.variable && entries[i].1@ == binding.property;
                        if i < shorter.len() {
                            assert(shorter[i] == entries[i]);
                        }
                    }
                    if Self::lists(shorter, binding) {
                        let i = choose|i: int|
                            0 <= i < shorter.len() && (#[trigger] shorter[i]).0@
                                == binding.variable && shorter[i].1@ == binding.property;
                        assert(shorter[i] == entries[i]);
                    }
                    if binding == last {
                        assert(entries[entries.len() - 1].0@ == binding.variable);
                    }
                }
            }
        }
    }

    /// Whether the table holds no dependency.
    pub fn is_empty(&self) -> (empty: bool)
        ensures
            empty == (self@ == Set::<Binding>::empty()),
    {
        let empty = self.entries.len() == 0;
        proof {
            if empty {
                assert(self@ =~= Set::<Binding>::empty());
            } else {
                let first = Binding {
                    variable: self.entries[0].0@,
                    property: self.entries[0].1@,
                };
                assert(Self::lists(self.entries@, first));
                assert(self@.contains(first));
            }
        }
        empty
    }

    /// Whether the table holds the dependency of `property` on `variable`.
    pub fn contains(&self, variable: &String, property: &Property) -> (found: bool)
        ensures
            found == self@.contains(Binding { variable: variable@, property: property@ }),
    {
        let mut at: usize = 0;
        while at < self.entries.len()
            invariant
                at <= self.entries.len(),
                forall|i: int|
                    0 <= i < at ==> !((#[trigger] self.entries[i]).0@ == variable@
                        && self.entries[i].1@ == property@),
            decreases self.entries.len() - at,
        {
            let entry = &self.entries[at];
            if entry.0 == *variable && entry.1.same(property) {
                return true;
            }
            at += 1;
        }
        false
    }

    /// Records that `property` is computed from the field `variable`. Returns
    /// whether this was not known before.
    pub fn insert(&mut self, variable: String, property: Property) -> (added: bool)
        ensures
            final(self)@ == old(self)@.insert(Binding { variable: variable@, property: property@ }),
            added == !old(self)@.contains(Binding { variable: variable@, property: property@ }),
    {
        let ghost binding = Binding { variable: variable@, property: property@ };
        proof {
            use_type_invariant(&*self);
        }
        if self.contains(&variable, &property) {
            assert(self@ =~= old(self)@.insert(binding));
            return false;
        }
        let ghost before = self.entries@;
        let mut entries: Vec<(String, Property)> = Vec::new();
        std::mem::swap(&mut entries, &mut self.entries);
        entries.push((variable, property));
        self.entries = entries;
        proof {
            let after = self.entries@;
            assert forall|other: Binding|
                Self::lists(after, other) <==> Self::lists(before, other) || other
                    == binding by {
                if Self::lists(before, other) {
                    let i = choose|i: int|
                        0 <= i < before.len() && (#[trigger] before[i]).0@ == other.variable
                            && before[i].1@ == other.property;
                    assert(after[i] == before[i]);
                }
                if other == binding {
                    assert(after[after.len() - 1].0@ == other.variable);
                }
                if Self::lists(after, other) {
                    let i = choose|i: int|
                        0 <= i < after.len() && (#[trigger] after[i]).0@ == other.variable
                            && after[i].1@ == other.property;
                    if i < before.len() {
                        assert(after[i] == before[i]);
                    }
                }
            }
            assert(self@ =~= old(self)@.insert(binding));
        }
        true
    }

    /// Whether some property in the table belongs to the widget `name`.
    pub fn mentions_widget(&self, name: &String) -> (found: bool)
        ensures
            found == self.widget_names().contains(name@),
    {
        let mut at: usize = 0;
        while at < self.entries.len()
            invariant
                at <= self.entries.len(),
                forall|i: int| 0 <= i < at ==> (#[trigger] self.entries[i]).1.widget_name@ != name@,
            decreases self.entries.len() - at,
        {
            if self.entries[at].1.widget_name == *name {
                proof {
                    let binding = Binding {
                        variable: self.entries[at as int].0@,
                        property: self.entries[at as int].1@,
                    };
                    assert(Self::lists(self.entries@, binding));
                    assert(self@.contains(binding) && binding.property.widget_name == name@);
                }
                return true;
            }
            at += 1;
        }
        proof {
            if self.widget_names().contains(name@) {
                let binding = choose|binding: Binding|
                    self@.contains(binding) && binding.property.widget_name == name@;
                let i = choose|i: int|
                    0 <= i < self.entries.len() && (#[trigger] self.entries[i]).0@
                        == binding.variable && self.entries[i].1@ == binding.property;
                assert(self.entries[i].1.widget_name@ == name@);
            }
        }
        false
    }

    /// The properties that are computed from the field `variable`, each once.
    pub fn properties_of(&self, variable: &String) -> (found: Vec<Property>)
        ensures
            forall|property: PropertyView|
                self@.contains(Binding { variable: variable@, property }) <==> exists|i: int|
                    0 <= i < found.len() && (#[trigger] found[i])@ == property,
            forall|i: int, j: int|
                0 <= i < j < found.len() ==> (#[trigger] found[i])@ != (#[trigger] found[j])@,
    {
        proof {
            use_type_invariant(self);
        }
        let mut found: Vec<Property> = Vec::new();
        let ghost mut origin: Seq<int> = Seq::empty();
        let mut at: usize = 0;
        while at < self.entries.len()
            invariant
                at <= self.entries.len(),
                origin.len() == found.len(),
                forall|k: int|
                    0 <= k < found.len() ==> 0 <= (#[trigger] origin[k]) < at && self.entries[origin[k]].0@
                        == variable@ && self.entries[origin[k]].1@ == found[k]@,
                forall|k: int, l: int|
                    0 <= k < l < found.len() ==> (#[trigger] origin[k]) < (#[trigger] origin[l]),
                forall|i: int|
                    0 <= i < at && (#[trigger] self.entries[i]).0@ == variable@ ==> exists|k: int|
                        0 <= k < found.len() && (#[trigger] found[k])@ == self.entries[i].1@,
                forall|i: int, j: int|
                    0 <= i < j < self.entries.len() ==> !((#[trigger] self.entries[i]).0@ == (
                    #[trigger] self.entries[j]).0@ && self.entries[i].1@ == self.entries[j].1@),
            decreases self.entries.len() - at,
        {
            if self.entries[at].0 == *variable {
                let ghost before = found@;
                found.push(self.entries[at].1.clone());
                proof {
                    origin = origin.push(at as int);
                    assert forall|i: int|
                        0 <= i < at + 1 && (#[trigger] self.entries[i]).0@
                            == variable@ implies exists|k: int|
                        0 <= k < found.len() && (#[trigger] found[k])@ == self.entries[i].1@ by {
                        if i < at {
                            let k = choose|k: int|
                                0 <= k < before.len() && (#[trigger] before[k])@
                                    == self.entries[i].1@;
                            assert(found[k] == before[k]);
                        } else {
                            assert(found[found.len() - 1]@ == self.entries[i].1@);
                        }
                    }
                }
            }
            at += 1;
        }
        proof {
            assert forall|property: PropertyView|
                self@.contains(Binding { variable: variable@, property }) <==> exists|i: int|
                    0 <= i < found.len() && (#[trigger] found[i])@ == property by {
                let binding = Binding { variable: variable@, property };
                if self@.contains(binding) {
                    let i = choose|i: int|
                        0 <= i < self.entries.len() && (#[trigger] self.entries[i]).0@
                            == binding.variable && self.entries[i].1@ == binding.property;
                    assert(self.entries[i].0@ == variable@);
                }
                if exists|k: int| 0 <= k < found.len() && (#[trigger] found[k])@ == property {
                    let k = choose|k: int| 0 <= k < found.len() && (#[trigger] found[k])@ == property;
                    assert(self.entries[origin[k]].0@ == binding.variable);
                    assert(Self::lists(self.entries@, binding));
                }
            }
            assert forall|i: int, j: int| 0 <= i < j < found.len() implies (#[trigger] found[i])@
                != (#[trigger] found[j])@ by {
                assert(origin[i] < origin[j]);
                assert(self.entries[origin[i]].0@ == self.entries[origin[j]].0@);
            }
        }
        found
    }
}

/// For each widget that the generated struct keeps, by name, its type.
///
/// A name has one type: to insert it again is to replace the type.
pub struct WidgetMap {
    entries: Vec<(String, String)>,
}

impl View for WidgetMap {
    type V = Map<Seq<char>, Seq<char>>;

    closed spec fn view(&self) -> Map<Seq<char>, Seq<char>> {
        Self::table(self.entries@)
    }
}

impl WidgetMap {
    /// Where `name` stands in `entries`.
    spec fn position(entries: Seq<(String, String)>, name: Seq<char>) -> int {
        choose|i: int| 0 <= i < entries.len() && (#[trigger] entries[i]).0@ == name
    }

    /// The table that `entries` lists.
    spec fn table(entries: Seq<(String, String)>) -> Map<Seq<char>, Seq<char>> {
        Map::new(
            |name: Seq<char>|
                exists|i: int| 0 <= i < entries.len() && (#[trigger] entries[i]).0@ == name,
            |name: Seq<char>| entries[Self::position(entries, name)].1@,
        )
    }

    /// Whether no name stands twice in `entries`.
    spec fn distinct(entries: Seq<(String, String)>) -> bool {
        forall|i: int, j: int|
            0 <= i < j < entries.len() ==> (#[trigger] entries[i]).0@ != (#[trigger] entries[j]).0@
    }

    #[verifier::type_invariant]
    spec fn well_formed(self) -> bool {
        Self::distinct(self.entries@)
    }

    /// Each entry of a list without repetition is found under its name.
    proof fn lemma_entry(entries: Seq<(String, String)>, i: int)
        requires
            Self::distinct(entries),
            0 <= i < entries.len(),
        ensures
            Self::table(entries).contains_key(entries[i].0@),
            Self::table(entries)[entries[i].0@] == entries[i].1@,
            Self::position(entries, entries[i].0@) == i,
    {
        let found = Self::position(entries, entries[i].0@);
        assert(0 <= found < entries.len() && entries[found].0@ == entries[i].0@);
        if found < i {
            assert(entries[found].0@ != entries[i].0@);
        } else if i < found {
            assert(entries[i].0@ != entries[found].0@);
        }
    }

    /// The empty table: it has no widget, and so no name.
    pub fn new() -> (widgets: Self)
        ensures
            widgets@ == Map::<Seq<char>, Seq<char>>::empty(),
            widgets.names() == Seq::<Seq<char>>::empty(),
    {
        let widgets = WidgetMap { entries: Vec::new() };
        assert(widgets@ =~= Map::<Seq<char>, Seq<char>>::empty());
        assert(widgets.names() =~= Seq::<Seq<char>>::empty());
        widgets
    }

    /// The type of the widget `name`, if the table has it.
    pub fn get(&self, name: &String) -> (typ: Option<&String>)
        ensures
            match typ {
                Some(typ) => self@.contains_key(name@) && self@[name@] == typ@,
                None => !self@.contains_key(name@),
            },
    {
        proof {
            use_type_invariant(self);
        }
        let mut at: usize = 0;
        while at < self.entries.len()
            invariant
                at <= self.entries.len(),
                Self::distinct(self.entries@),
                forall|i: int| 0 <= i < at ==> (#[trigger] self.entries[i]).0@ != name@,
            decreases self.entries.len() - at,
        {
            if self.entries[at].0 == *name {
                proof {
                    Self::lemma_entry(self.entries@, at as int);
                }
                return Some(&self.entries[at].1);
            }
            at += 1;
        }
        None
    }

    /// Whether the table has the widget `name`.
    pub fn contains_key(&self, name: &String) -> (found: bool)
        ensures
            found == self@.contains_key(name@),
    {
        self.get(name).is_some()
    }

    /// Gives the widget `name` the type `typ`, in place of the type it had,
    /// if it had one. A widget that the table had keeps its place among the
    /// names; a new one comes last.
    pub fn insert(&mut self, name: String, typ: String)
        ensures
            final(self)@ == old(self)@.insert(name@, typ@),
            final(self).names() == if old(self)@.contains_key(name@) {
                old(self).names()
            } else {
                old(self).names().push(name@)
            },
    {
        proof {
            use_type_invariant(&*self);
        }
        let ghost before = self.entries@;
        let mut entries: Vec<(String, String)> = Vec::new();
        std::mem::swap(&mut entries, &mut self.entries);
        let mut at: usize = 0;
        while at < entries.len()
            invariant
                at <= entries.len(),
                entries@ == before,
                forall|i: int| 0 <= i < at ==> (#[trigger] entries[i]).0@ != name@,
            ensures
                at < entries.len() ==> entries[at as int].0@ == name@,
            decreases entries.len() - at,
        {
            if entries[at].0 == name {
                break ;
            }
            at += 1;
        }
        if at < entries.len() {
            entries[at] = (name, typ);
        } else {
            entries.push((name, typ));
        }
        proof {
            let after = entries@;
            assert(Self::distinct(after));
            assert forall|key: Seq<char>|
                Self::table(after).contains_key(key) <==> Self::table(before).insert(
                    name@,
                    typ@,
                ).contains_key(key) by {
                if Self::table(before).contains_key(key) {
                    let i = choose|i: int|
                        0 <= i < before.len() && (#[trigger] before[i]).0@ == key;
                    assert(after[i].0@ == key);
                }
                if key == name@ {
                    assert(after[at as int].0@ == key);
                }
                if Self::table(after).contains_key(key) {
                    let i = choose|i: int| 0 <= i < after.len() && (#[trigger] after[i]).0@ == key;
                    if i != at {
                        assert(before[i].0@ == key);
                    }
                }
            }
            assert forall|key: Seq<char>| Self::table(after).contains_key(key) implies Self::table(
                after,
            )[key] == Self::table(before).insert(name@, typ@)[key] by {
                let i = choose|i: int| 0 <= i < after.len() && (#[trigger] after[i]).0@ == key;
                Self::lemma_entry(after, i);
                if i != at {
                    assert(before[i] == after[i]);
                    Self::lemma_entry(before, i);
                }
            }
            assert(Self::table(after) =~= Self::table(before).insert(name@, typ@));
            let names = Seq::new(before.len(), |i: int| before[i].0@);
            let named = Seq::new(after.len(), |i: int| after[i].0@);
            if at < before.len() {
                assert(Self::table(before).contains_key(name@));
                assert(named =~= names);
            } else {
                assert(!Self::table(before).contains_key(name@));
                assert(named =~= names.push(name@));
            }
        }
        self.entries = entries;
    }

    /// The names of the widgets in the table, in the order in which they
    /// first came.
    pub closed spec fn names(self) -> Seq<Seq<char>> {
        Seq::new(self.entries@.len(), |i: int| self.entries@[i].0@)
    }

    /// The number of widgets in the table. The table has each of its names
    /// once, and nothing else.
    pub fn len(&self) -> (count: usize)
        ensures
            count == self.names().len(),
            self.names().no_duplicates(),
            forall|name: Seq<char>| self.names().contains(name) <==> self@.contains_key(name),
    {
        proof {
            use_type_invariant(self);
            assert forall|name: Seq<char>| self.names().contains(name) <==> self@.contains_key(
                name,
            ) by {
                if self.names().contains(name) {
                    let i = choose|i: int| 0 <= i < self.names().len() && self.names()[i] == name;
                    assert(self.entries@[i].0@ == name);
                }
                if self@.contains_key(name) {
                    let i = choose|i: int|
                        0 <= i < self.entries@.len() && (#[trigger] self.entries@[i]).0@ == name;
                    assert(self.names()[i] == name);
                }
            }
        }
        self.entries.len()
    }

    /// The widget at `index`, with its type.
    pub fn entry(&self, index: usize) -> (entry: Option<(&String, &String)>)
        ensures
            match entry {
                Some((name, typ)) => index < self.names().len() && name@ == self.names()[index as int]
                    && self@.contains_key(name@) && self@[name@] == typ@,
                None => index >= self.names().len(),
            },
    {
        proof {
            use_type_invariant(self);
        }
        if index < self.entries.len() {
            proof {
                Self::lemma_entry(self.entries@, index as int);
            }
            let entry = &self.entries[index];
            Some((&entry.0, &entry.1))
        } else {
            None
        }
    }
}

} // verus!
