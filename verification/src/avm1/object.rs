//! Objects of the first script machine.
//!
//! An object is a list of named properties in the order in which they were
//! defined, a link to its prototype, a kind, and the watchers registered on
//! it. A name is looked up under a case rule: the first property whose name
//! matches under that rule is the one meant.

use crate::avm1::property::{Attributes, Property, PropertyView};
use crate::number::Number;
use crate::text::{names_match, str_eq, str_names_match};
use crate::value::{ObjectId, Value, ValueView};
use vstd::prelude::*;
use vstd::string::*;

verus! {

/// Whether `i` is the first position of `names` that matches `name`.
pub open spec fn is_first_match(
    names: Seq<Seq<char>>,
    name: Seq<char>,
    case_sensitive: bool,
    i: int,
) -> bool {
    &&& 0 <= i < names.len()
    &&& names_match(names[i], name, case_sensitive)
    &&& forall|j: int| 0 <= j < i ==> !names_match(#[trigger] names[j], name, case_sensitive)
}

/// The first position of `names` that matches `name`, if any does.
pub open spec fn first_match(names: Seq<Seq<char>>, name: Seq<char>, case_sensitive: bool) -> Option<
    int,
> {
    if exists|i: int| is_first_match(names, name, case_sensitive, i) {
        Some(choose|i: int| is_first_match(names, name, case_sensitive, i))
    } else {
        None
    }
}

/// A first match is the first match.
pub proof fn lemma_first_match_some(
    names: Seq<Seq<char>>,
    name: Seq<char>,
    case_sensitive: bool,
    i: int,
)
    requires
        is_first_match(names, name, case_sensitive, i),
    ensures
        first_match(names, name, case_sensitive) == Some(i),
{
    let c = choose|k: int| is_first_match(names, name, case_sensitive, k);
    assert(is_first_match(names, name, case_sensitive, c));
    if c < i {
        assert(!names_match(names[c], name, case_sensitive));
    }
    if i < c {
        assert(!names_match(names[i], name, case_sensitive));
    }
}

proof fn lemma_least_match(names: Seq<Seq<char>>, name: Seq<char>, case_sensitive: bool, k: int)
    requires
        0 <= k < names.len(),
        names_match(names[k], name, case_sensitive),
    ensures
        exists|i: int| is_first_match(names, name, case_sensitive, i),
    decreases k,
{
    if exists|j: int| 0 <= j < k && names_match(#[trigger] names[j], name, case_sensitive) {
        let j = choose|j: int| 0 <= j < k && names_match(#[trigger] names[j], name, case_sensitive);
        lemma_least_match(names, name, case_sensitive, j);
    } else {
        assert(is_first_match(names, name, case_sensitive, k));
    }
}

/// What `first_match` returns: a first match, or none where nothing matches.
pub proof fn lemma_first_match(names: Seq<Seq<char>>, name: Seq<char>, case_sensitive: bool)
    ensures
        match first_match(names, name, case_sensitive) {
            Some(i) => is_first_match(names, name, case_sensitive, i),
            None => forall|j: int|
                0 <= j < names.len() ==> !names_match(#[trigger] names[j], name, case_sensitive),
        },
{
    if first_match(names, name, case_sensitive) is None {
        assert forall|j: int| 0 <= j < names.len() implies !names_match(
            #[trigger] names[j],
            name,
            case_sensitive,
        ) by {
            if names_match(names[j], name, case_sensitive) {
                lemma_least_match(names, name, case_sensitive, j);
            }
        }
    }
}

/// A named property of an object.
#[derive(Debug)]
pub struct PropertyEntry {
    pub name: String,
    pub property: Property,
}

pub struct EntryView {
    pub name: Seq<char>,
    pub property: PropertyView,
}

impl View for PropertyEntry {
    type V = EntryView;

    open spec fn view(&self) -> EntryView {
        EntryView { name: self.name@, property: self.property@ }
    }
}

/// The name of a property if enumeration shows it.
pub open spec fn shown_name() -> spec_fn(EntryView) -> Option<Seq<char>> {
    |e: EntryView|
        if e.property.attributes().dont_enum {
            None
        } else {
            Some(e.name)
        }
}

/// A watcher: a function that is called in place of an assignment to the
/// property of the given name.
#[derive(Debug)]
pub struct Watcher {
    pub name: String,
    pub callback: ObjectId,
    pub user_data: Value,
}

pub struct WatcherView {
    pub name: Seq<char>,
    pub callback: ObjectId,
    pub user_data: ValueView,
}

impl View for Watcher {
    type V = WatcherView;

    open spec fn view(&self) -> WatcherView {
        WatcherView { name: self.name@, callback: self.callback, user_data: self.user_data@ }
    }
}

/// What an object is besides its properties.
#[derive(Debug)]
pub enum ObjectKind {
    /// A plain object.
    Object,
    /// A function: it can be called, and is never persisted.
    Function,
    /// An array: its `length` follows its elements.
    Array,
    /// A date, as milliseconds since the epoch.
    Date(Number),
    /// An XML node, as its text.
    Xml(String),
    /// A shared object, with the name under which it is persisted.
    SharedObject(String),
    /// An object that stands for a node of the display tree of the host, with
    /// the number of the node.
    DisplayNode(usize),
}

pub enum KindView {
    Object,
    Function,
    Array,
    Date(Number),
    Xml(Seq<char>),
    SharedObject(Seq<char>),
    DisplayNode(usize),
}

impl View for ObjectKind {
    type V = KindView;

    open spec fn view(&self) -> KindView {
        match self {
            ObjectKind::Object => KindView::Object,
            ObjectKind::Function => KindView::Function,
            ObjectKind::Array => KindView::Array,
            ObjectKind::Date(n) => KindView::Date(*n),
            ObjectKind::Xml(s) => KindView::Xml(s@),
            ObjectKind::SharedObject(s) => KindView::SharedObject(s@),
            ObjectKind::DisplayNode(n) => KindView::DisplayNode(*n),
        }
    }
}

/// An object.
#[derive(Debug)]
pub struct ScriptObject {
    pub properties: Vec<PropertyEntry>,
    pub proto: Option<ObjectId>,
    pub kind: ObjectKind,
    pub watchers: Vec<Watcher>,
}

pub struct ObjectView {
    pub properties: Seq<EntryView>,
    pub proto: Option<ObjectId>,
    pub kind: KindView,
    pub watchers: Seq<WatcherView>,
}

impl View for ScriptObject {
    type V = ObjectView;

    open spec fn view(&self) -> ObjectView {
        ObjectView {
            properties: Seq::new(self.properties@.len(), |i: int| self.properties@[i]@),
            proto: self.proto,
            kind: self.kind@,
            watchers: Seq::new(self.watchers@.len(), |i: int| self.watchers@[i]@),
        }
    }
}

impl ObjectView {
    /// The name of the type of the object, as `typeof` reports it.
    pub open spec fn type_of(self) -> Seq<char> {
        match self.kind {
            KindView::Function => "function"@,
            KindView::DisplayNode(_) => "movieclip"@,
            _ => "object"@,
        }
    }

    /// The node of the display tree that the object stands for.
    pub open spec fn display_node(self) -> Option<usize> {
        match self.kind {
            KindView::DisplayNode(node) => Some(node),
            _ => None,
        }
    }

    /// The names of the properties, in the order of their definition.
    pub open spec fn names(self) -> Seq<Seq<char>> {
        Seq::new(self.properties.len(), |i: int| self.properties[i].name)
    }

    /// The names that the watchers are registered for.
    pub open spec fn watched(self) -> Seq<Seq<char>> {
        Seq::new(self.watchers.len(), |i: int| self.watchers[i].name)
    }

    /// The position of the property that `name` means.
    pub open spec fn find(self, name: Seq<char>, case_sensitive: bool) -> Option<int> {
        first_match(self.names(), name, case_sensitive)
    }

    /// The own property that `name` means.
    pub open spec fn own(self, name: Seq<char>, case_sensitive: bool) -> Option<PropertyView> {
        match self.find(name, case_sensitive) {
            Some(i) => Some(self.properties[i].property),
            None => None,
        }
    }

    /// The value stored under exactly this name; `Undefined` where there is
    /// none or where the property is a pair of accessors.
    pub open spec fn data(self, name: Seq<char>) -> ValueView {
        match self.own(name, true) {
            Some(PropertyView::Stored { value, .. }) => value,
            _ => ValueView::Undefined,
        }
    }

    /// The object with the property at `i` replaced.
    pub open spec fn with_property(self, i: int, property: PropertyView) -> ObjectView {
        ObjectView {
            properties: self.properties.update(
                i,
                EntryView { name: self.properties[i].name, property },
            ),
            ..self
        }
    }

    /// Whether no two properties have exactly the same name.
    pub open spec fn names_distinct(self) -> bool {
        forall|i: int, j: int|
            0 <= i < j < self.properties.len() ==> (#[trigger] self.properties[i]).name != (
            #[trigger] self.properties[j]).name
    }

    /// The object with one more property at the end.
    pub open spec fn with_new(self, name: Seq<char>, property: PropertyView) -> ObjectView {
        ObjectView { properties: self.properties.push(EntryView { name, property }), ..self }
    }

    /// The object with `property` under exactly this name: in place of the
    /// property of that name if there is one, else at the end.
    pub open spec fn define(self, name: Seq<char>, property: PropertyView) -> ObjectView {
        match self.find(name, true) {
            Some(i) => self.with_property(i, property),
            None => self.with_new(name, property),
        }
    }

    /// The object without the property at `i`.
    pub open spec fn without(self, i: int) -> ObjectView {
        ObjectView { properties: self.properties.remove(i), ..self }
    }

    /// The object without the watcher that `name` means.
    pub open spec fn unwatch(self, name: Seq<char>, case_sensitive: bool) -> ObjectView {
        match first_match(self.watched(), name, case_sensitive) {
            Some(w) => ObjectView { watchers: self.watchers.remove(w), ..self },
            None => self,
        }
    }

    /// The object after `delete name`: a property that may be deleted is
    /// removed, and with it the watcher of that name; otherwise nothing
    /// changes.
    pub open spec fn delete(self, name: Seq<char>, case_sensitive: bool) -> ObjectView {
        match self.find(name, case_sensitive) {
            Some(i) => if self.properties[i].property.attributes().dont_delete {
                self
            } else {
                self.without(i).unwatch(name, case_sensitive)
            },
            None => self,
        }
    }

    /// Whether `delete name` removes a property.
    pub open spec fn can_delete(self, name: Seq<char>, case_sensitive: bool) -> bool {
        match self.own(name, case_sensitive) {
            Some(p) => !p.attributes().dont_delete,
            None => false,
        }
    }

    /// The names of the properties that enumeration shows, in the order of
    /// their definition.
    pub open spec fn keys(self) -> Seq<Seq<char>> {
        self.properties.filter_map(shown_name())
    }
}

/// Replacing a property leaves every name where it is, so that each name
/// means the position that it meant before.
pub proof fn lemma_find_after_replace(
    o: ObjectView,
    i: int,
    property: PropertyView,
    name: Seq<char>,
    case_sensitive: bool,
)
    requires
        0 <= i < o.properties.len(),
    ensures
        o.with_property(i, property).find(name, case_sensitive) == o.find(name, case_sensitive),
        o.with_property(i, property).names() == o.names(),
{
    assert(o.with_property(i, property).names() =~= o.names());
}

/// A new property at the end changes the meaning of no name that meant a
/// property before; a name that meant none means the new property if it
/// matches its name, and none otherwise.
pub proof fn lemma_find_after_new(
    o: ObjectView,
    added: Seq<char>,
    property: PropertyView,
    name: Seq<char>,
    case_sensitive: bool,
)
    ensures
        o.with_new(added, property).find(name, case_sensitive) == (match o.find(
            name,
            case_sensitive,
        ) {
            Some(i) => Some(i),
            None => if names_match(added, name, case_sensitive) {
                Some(o.properties.len() as int)
            } else {
                None
            },
        }),
{
    let after = o.with_new(added, property);
    let last = o.properties.len() as int;
    assert(after.names() =~= o.names().push(added));
    lemma_first_match(o.names(), name, case_sensitive);
    lemma_first_match(after.names(), name, case_sensitive);
    match o.find(name, case_sensitive) {
        Some(i) => {
            assert forall|j: int| 0 <= j < i implies !names_match(
                #[trigger] after.names()[j],
                name,
                case_sensitive,
            ) by {
                assert(after.names()[j] == o.names()[j]);
            }
            assert(after.names()[i] == o.names()[i]);
            lemma_first_match_some(after.names(), name, case_sensitive, i);
        },
        None => {
            assert forall|j: int| 0 <= j < last implies !names_match(
                #[trigger] after.names()[j],
                name,
                case_sensitive,
            ) by {
                assert(after.names()[j] == o.names()[j]);
            }
            if names_match(added, name, case_sensitive) {
                lemma_first_match_some(after.names(), name, case_sensitive, last);
            } else {
                if after.find(name, case_sensitive) is Some {
                    let k = after.find(name, case_sensitive).unwrap();
                    assert(names_match(after.names()[k], name, case_sensitive));
                }
            }
        },
    }
}

/// An object never has two properties of exactly one name: putting a
/// property under a name puts it in the place of the one that is there, and
/// deleting takes one away.
pub proof fn lemma_names_stay_distinct(
    o: ObjectView,
    name: Seq<char>,
    property: PropertyView,
    case_sensitive: bool,
)
    requires
        o.names_distinct(),
    ensures
        o.define(name, property).names_distinct(),
        o.delete(name, case_sensitive).names_distinct(),
{
    lemma_first_match(o.names(), name, true);
    lemma_first_match(o.names(), name, case_sensitive);
    let defined = o.define(name, property);
    assert forall|i: int, j: int| 0 <= i < j < defined.properties.len() implies (
    #[trigger] defined.properties[i]).name != (#[trigger] defined.properties[j]).name by {
        match o.find(name, true) {
            Some(k) => {
                assert(defined.properties[i].name == o.properties[i].name);
                assert(defined.properties[j].name == o.properties[j].name);
            },
            None => {
                if j < o.properties.len() {
                    assert(defined.properties[i] == o.properties[i]);
                    assert(defined.properties[j] == o.properties[j]);
                } else {
                    assert(defined.properties[i] == o.properties[i]);
                    assert(o.names()[i] == o.properties[i].name);
                }
            },
        }
    }
    let deleted = o.delete(name, case_sensitive);
    assert forall|i: int, j: int| 0 <= i < j < deleted.properties.len() implies (
    #[trigger] deleted.properties[i]).name != (#[trigger] deleted.properties[j]).name by {
        match o.find(name, case_sensitive) {
            Some(k) => {
                if !o.properties[k].property.attributes().dont_delete {
                    let x = if i < k {
                        i
                    } else {
                        i + 1
                    };
                    let y = if j < k {
                        j
                    } else {
                        j + 1
                    };
                    assert(deleted.properties[i] == o.properties[x]);
                    assert(deleted.properties[j] == o.properties[y]);
                    assert(o.properties[x].name != o.properties[y].name);
                }
            },
            None => {},
        }
    }
}

/// After a property was put under a name, the name means that property, and
/// every other name means what it meant before.
pub proof fn lemma_own_after_define(
    o: ObjectView,
    name: Seq<char>,
    property: PropertyView,
    other: Seq<char>,
)
    ensures
        o.define(name, property).own(name, true) == Some(property),
        other != name ==> o.define(name, property).own(other, true) == o.own(other, true),
{
    lemma_first_match(o.names(), name, true);
    lemma_first_match(o.names(), other, true);
    match o.find(name, true) {
        Some(i) => {
            lemma_find_after_replace(o, i, property, name, true);
            lemma_find_after_replace(o, i, property, other, true);
        },
        None => {
            lemma_find_after_new(o, name, property, name, true);
            lemma_find_after_new(o, name, property, other, true);
        },
    }
}

impl ScriptObject {
    /// A new object of the given kind without properties.
    pub fn new(proto: Option<ObjectId>, kind: ObjectKind) -> (r: ScriptObject)
        ensures
            r@ == (ObjectView {
                properties: Seq::empty(),
                proto,
                kind: kind@,
                watchers: Seq::empty(),
            }),
            r@.names_distinct(),
    {
        let r = ScriptObject { properties: Vec::new(), proto, kind, watchers: Vec::new() };
        assert(r@.properties =~= Seq::empty());
        assert(r@.watchers =~= Seq::empty());
        r
    }

    /// A new plain object.
    pub fn object(proto: Option<ObjectId>) -> (r: ScriptObject)
        ensures
            r@ == (ObjectView {
                properties: Seq::empty(),
                proto,
                kind: KindView::Object,
                watchers: Seq::empty(),
            }),
    {
        ScriptObject::new(proto, ObjectKind::Object)
    }

    /// A new function object.
    pub fn function(proto: Option<ObjectId>) -> (r: ScriptObject)
        ensures
            r@ == (ObjectView {
                properties: Seq::empty(),
                proto,
                kind: KindView::Function,
                watchers: Seq::empty(),
            }),
    {
        ScriptObject::new(proto, ObjectKind::Function)
    }

    /// Stores a value under exactly this name, without attributes.
    pub fn set(&mut self, name: &str, value: Value)
        ensures
            final(self)@ == old(self)@.define(
                name@,
                PropertyView::Stored { value: value@, attributes: Attributes::empty_spec() },
            ),
            old(self)@.names_distinct() ==> final(self)@.names_distinct(),
    {
        self.define_value(name, value, Attributes::empty());
    }

    /// The value stored under exactly this name.
    pub fn get(&self, name: &str) -> (r: Value)
        ensures
            r@ == self@.data(name@),
    {
        self.get_data(name)
    }

    /// Whether the object itself has a property of exactly this name.
    pub fn has_property(&self, name: &str) -> (r: bool)
        ensures
            r == self@.own(name@, true).is_some(),
    {
        self.has_own_property(name, true)
    }

    /// The name of the type of the object, as `typeof` reports it.
    pub fn type_of(&self) -> (r: &'static str)
        ensures
            r@ == self@.type_of(),
    {
        match self.kind {
            ObjectKind::Function => "function",
            ObjectKind::DisplayNode(_) => "movieclip",
            _ => "object",
        }
    }

    /// The node of the display tree that the object stands for.
    pub fn display_node(&self) -> (r: Option<usize>)
        ensures
            r == self@.display_node(),
    {
        match self.kind {
            ObjectKind::DisplayNode(node) => Some(node),
            _ => None,
        }
    }

    /// Lets the object stand for a node of the display tree. Its properties,
    /// its prototype and its watchers stay.
    pub fn set_display_node(&mut self, node: usize)
        ensures
            final(self)@ == (ObjectView { kind: KindView::DisplayNode(node), ..old(self)@ }),
            final(self)@.display_node() == Some(node),
    {
        self.kind = ObjectKind::DisplayNode(node);
    }

    /// The position of the property that `name` means.
    pub fn find(&self, name: &str, case_sensitive: bool) -> (r: Option<usize>)
        ensures
            match r {
                Some(i) => self@.find(name@, case_sensitive) == Some(i as int) && i
                    < self.properties@.len(),
                None => self@.find(name@, case_sensitive) is None,
            },
    {
        let mut i: usize = 0;
        while i < self.properties.len()
            invariant
                i <= self.properties@.len(),
                forall|j: int|
                    0 <= j < i ==> !names_match(
                        #[trigger] self@.names()[j],
                        name@,
                        case_sensitive,
                    ),
            decreases self.properties@.len() - i,
        {
            if str_names_match(self.properties[i].name.as_str(), name, case_sensitive) {
                proof {
                    assert(self@.names()[i as int] == self.properties@[i as int].name@);
                    lemma_first_match_some(self@.names(), name@, case_sensitive, i as int);
                }
                return Some(i);
            }
            assert(self@.names()[i as int] == self.properties@[i as int].name@);
            i = i + 1;
        }
        proof {
            lemma_first_match(self@.names(), name@, case_sensitive);
            if self@.find(name@, case_sensitive) is Some {
                let k = self@.find(name@, case_sensitive).unwrap();
                assert(names_match(self@.names()[k], name@, case_sensitive));
            }
        }
        None
    }

    /// Whether the object itself has the property.
    pub fn has_own_property(&self, name: &str, case_sensitive: bool) -> (r: bool)
        ensures
            r == self@.own(name@, case_sensitive).is_some(),
    {
        self.find(name, case_sensitive).is_some()
    }

    /// Whether the object itself has the property as a pair of accessors.
    pub fn has_own_virtual(&self, name: &str, case_sensitive: bool) -> (r: bool)
        ensures
            r == (self@.own(name@, case_sensitive) matches Some(p) && p is Virtual),
    {
        match self.find(name, case_sensitive) {
            Some(i) => self.properties[i].property.is_virtual(),
            None => false,
        }
    }

    /// Whether enumeration shows the property.
    pub fn is_property_enumerable(&self, name: &str, case_sensitive: bool) -> (r: bool)
        ensures
            r == (self@.own(name@, case_sensitive) matches Some(p) && !p.attributes().dont_enum),
    {
        match self.find(name, case_sensitive) {
            Some(i) => self.properties[i].property.is_enumerable(),
            None => false,
        }
    }

    /// The value stored under exactly this name.
    pub fn get_data(&self, name: &str) -> (r: Value)
        ensures
            r@ == self@.data(name@),
    {
        match self.find(name, true) {
            Some(i) => match &self.properties[i].property {
                Property::Stored { value, .. } => value.duplicate(),
                Property::Virtual { .. } => Value::Undefined,
            },
            None => Value::Undefined,
        }
    }

    /// Puts `property` under exactly this name, whatever was there.
    pub fn define(&mut self, name: &str, property: Property)
        ensures
            final(self)@ == old(self)@.define(name@, property@),
            old(self)@.names_distinct() ==> final(self)@.names_distinct(),
    {
        proof {
            if self@.names_distinct() {
                lemma_names_stay_distinct(self@, name@, property@, true);
            }
        }
        match self.find(name, true) {
            Some(i) => {
                self.properties[i].property = property;
                assert(self@.properties =~= old(self)@.with_property(
                    i as int,
                    property@,
                ).properties);
                assert(self@.watchers =~= old(self)@.watchers);
            },
            None => {
                self.properties.push(PropertyEntry { name: String::from_str(name), property });
                assert(self@.properties =~= old(self)@.with_new(name@, property@).properties);
                assert(self@.watchers =~= old(self)@.watchers);
            },
        }
    }

    /// Stores a value under exactly this name with the given attributes,
    /// whatever was there.
    pub fn define_value(&mut self, name: &str, value: Value, attributes: Attributes)
        ensures
            final(self)@ == old(self)@.define(
                name@,
                PropertyView::Stored { value: value@, attributes },
            ),
            old(self)@.names_distinct() ==> final(self)@.names_distinct(),
    {
        self.define(name, Property::Stored { value, attributes });
    }

    /// Puts a pair of accessors under exactly this name, whatever was there.
    pub fn add_property(
        &mut self,
        name: &str,
        get: ObjectId,
        set: Option<ObjectId>,
        attributes: Attributes,
    )
        ensures
            final(self)@ == old(self)@.define(
                name@,
                PropertyView::Virtual { get, set, attributes },
            ),
            old(self)@.names_distinct() ==> final(self)@.names_distinct(),
    {
        self.define(name, Property::Virtual { get, set, attributes });
    }

    /// Removes the watcher that `name` means. Returns whether there was one.
    pub fn remove_watcher(&mut self, name: &str, case_sensitive: bool) -> (r: bool)
        ensures
            final(self)@ == old(self)@.unwatch(name@, case_sensitive),
            r == first_match(old(self)@.watched(), name@, case_sensitive).is_some(),
    {
        let mut i: usize = 0;
        while i < self.watchers.len()
            invariant
                i <= self.watchers@.len(),
                *self == *old(self),
                forall|j: int|
                    0 <= j < i ==> !names_match(
                        #[trigger] self@.watched()[j],
                        name@,
                        case_sensitive,
                    ),
            decreases self.watchers@.len() - i,
        {
            assert(self@.watched()[i as int] == self.watchers@[i as int].name@);
            if str_names_match(self.watchers[i].name.as_str(), name, case_sensitive) {
                proof {
                    lemma_first_match_some(self@.watched(), name@, case_sensitive, i as int);
                }
                self.watchers.remove(i);
                assert(self@.watchers =~= old(self)@.watchers.remove(i as int));
                assert(self@.properties =~= old(self)@.properties);
                return true;
            }
            i = i + 1;
        }
        proof {
            lemma_first_match(self@.watched(), name@, case_sensitive);
            if first_match(self@.watched(), name@, case_sensitive) is Some {
                let k = first_match(self@.watched(), name@, case_sensitive).unwrap();
                assert(names_match(self@.watched()[k], name@, case_sensitive));
            }
        }
        false
    }

    /// Registers a watcher for the name, in place of the one that the name
    /// meant before.
    pub fn set_watcher(
        &mut self,
        name: &str,
        callback: ObjectId,
        user_data: Value,
        case_sensitive: bool,
    )
        ensures
            final(self)@ == (ObjectView {
                watchers: old(self)@.unwatch(name@, case_sensitive).watchers.push(
                    WatcherView { name: name@, callback, user_data: user_data@ },
                ),
                ..old(self)@
            }),
    {
        self.remove_watcher(name, case_sensitive);
        let ghost mid = self@;
        self.watchers.push(Watcher { name: String::from_str(name), callback, user_data });
        assert(self@.watchers =~= mid.watchers.push(
            WatcherView { name: name@, callback, user_data: user_data@ },
        ));
        assert(self@.properties =~= mid.properties);
    }

    /// `delete name`: removes the property unless it is protected from
    /// deletion, and with it the watcher of that name. Returns whether a
    /// property was removed.
    pub fn delete(&mut self, name: &str, case_sensitive: bool) -> (r: bool)
        ensures
            r == old(self)@.can_delete(name@, case_sensitive),
            final(self)@ == old(self)@.delete(name@, case_sensitive),
            old(self)@.names_distinct() ==> final(self)@.names_distinct(),
    {
        proof {
            if self@.names_distinct() {
                lemma_names_stay_distinct(
                    self@,
                    name@,
                    PropertyView::Stored {
                        value: ValueView::Undefined,
                        attributes: Attributes::empty_spec(),
                    },
                    case_sensitive,
                );
            }
        }
        match self.find(name, case_sensitive) {
            Some(i) => {
                if !self.properties[i].property.can_delete() {
                    return false;
                }
                self.properties.remove(i);
                assert(self@.properties =~= old(self)@.without(i as int).properties);
                assert(self@.watchers =~= old(self)@.watchers);
                self.remove_watcher(name, case_sensitive);
                true
            },
            None => false,
        }
    }

    /// Adds and removes attributes: on the property that `name` means, or on
    /// every property where no name is given.
    pub fn set_attributes(
        &mut self,
        name: Option<&str>,
        set_attributes: Attributes,
        clear_attributes: Attributes,
        case_sensitive: bool,
    )
        ensures
            final(self)@.proto == old(self)@.proto,
            final(self)@.kind == old(self)@.kind,
            final(self)@.watchers == old(self)@.watchers,
            final(self)@.properties.len() == old(self)@.properties.len(),
            forall|i: int|
                0 <= i < old(self)@.properties.len() ==> {
                    let before = #[trigger] old(self)@.properties[i];
                    let changed = match name {
                        Some(n) => old(self)@.find(n@, case_sensitive) == Some(i),
                        None => true,
                    };
                    final(self)@.properties[i] == (if changed {
                        EntryView {
                            name: before.name,
                            property: before.property.with_attributes(
                                before.property.attributes().difference_spec(
                                    clear_attributes,
                                ).union_spec(set_attributes),
                            ),
                        }
                    } else {
                        before
                    })
                },
    {
        match name {
            Some(n) => {
                match self.find(n, case_sensitive) {
                    Some(i) => {
                        let attributes = self.properties[i].property.attributes().difference(
                            clear_attributes,
                        ).union(set_attributes);
                        self.properties[i].property.set_attributes(attributes);
                        assert(self@.watchers =~= old(self)@.watchers);
                    },
                    None => {},
                }
            },
            None => {
                let mut i: usize = 0;
                while i < self.properties.len()
                    invariant
                        i <= self.properties@.len(),
                        self.properties@.len() == old(self).properties@.len(),
                        self.proto == old(self).proto,
                        self.kind == old(self).kind,
                        self.watchers == old(self).watchers,
                        forall|j: int|
                            i <= j < self.properties@.len() ==> self.properties@[j] == old(self).properties@[j],
                        forall|j: int|
                            0 <= j < i ==> (#[trigger] self.properties@[j])@ == (EntryView {
                                name: old(self).properties@[j]@.name,
                                property: old(self).properties@[j]@.property.with_attributes(
                                    old(self).properties@[j]@.property.attributes().difference_spec(
                                        clear_attributes,
                                    ).union_spec(set_attributes),
                                ),
                            }),
                    decreases self.properties@.len() - i,
                {
                    let attributes = self.properties[i].property.attributes().difference(
                        clear_attributes,
                    ).union(set_attributes);
                    self.properties[i].property.set_attributes(attributes);
                    i = i + 1;
                }
                assert(self@.watchers =~= old(self)@.watchers);
            },
        }
    }

    /// The names that enumeration shows, in the order of their definition.
    pub fn get_keys(&self) -> (r: Vec<String>)
        ensures
            Seq::new(r@.len(), |i: int| r@[i]@) == self@.keys(),
    {
        let mut keys: Vec<String> = Vec::new();
        let mut i: usize = 0;
        proof {
            assert(self@.properties.take(0) =~= Seq::empty());
        }
        while i < self.properties.len()
            invariant
                i <= self.properties@.len(),
                Seq::new(keys@.len(), |k: int| keys@[k]@) == self@.properties.take(
                    i as int,
                ).filter_map(shown_name()),
            decreases self.properties@.len() - i,
        {
            proof {
                self@.properties.lemma_filter_map_take_succ(shown_name(), i as int);
            }
            if self.properties[i].property.is_enumerable() {
                keys.push(self.properties[i].name.clone());
            }
            assert(Seq::new(keys@.len(), |k: int| keys@[k]@) =~= self@.properties.take(
                i as int + 1,
            ).filter_map(shown_name()));
            i = i + 1;
        }
        assert(self@.properties.take(i as int) =~= self@.properties);
        keys
    }
}

} // verus!
